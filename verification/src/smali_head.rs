//! The head of a Smali file: the class that it declares and the interfaces of that class.
use crate::text::drop_white;
use crate::text::has_prefix;
use crate::text::same;
use crate::text::skip_white;
use crate::text::split_words;
use crate::text::starts_with;
use crate::text::texts;
use crate::text::to_chars;
use crate::text::from_chars;
use crate::text::trim;
use crate::text::words;
use vstd::prelude::*;
use vstd::slice::slice_subrange;
use vstd::utf8::decode_utf8;
use vstd::utf8::encode_utf8;
use vstd::utf8::valid_utf8;

verus! {

/// Why a Smali file could not be processed.
#[derive(Debug)]
pub enum SmaliError {
    /// A part of the file that has to be read is not valid UTF-8.
    NotUtf8,
    /// The head of the file names no class.
    NoClassLine,
    /// The pattern of a method was refused.
    Pattern(String),
}

impl SmaliError {
    /// What the user is told.
    pub fn message(&self) -> (r: String)
        ensures
            r@ == match *self {
                SmaliError::NotUtf8 => "stream did not contain valid UTF-8"@,
                SmaliError::NoClassLine => "Smali file has no .class line"@,
                SmaliError::Pattern(reason) => reason@,
            },
    {
        match self {
            SmaliError::NotUtf8 => "stream did not contain valid UTF-8".to_string(),
            SmaliError::NoClassLine => "Smali file has no .class line".to_string(),
            SmaliError::Pattern(reason) => reason.clone(),
        }
    }
}

/// What the lines before the first method of a Smali file say.
#[derive(Debug)]
pub struct SmaliHead {
    pub name: String,
    pub implements: Vec<String>,
    pub is_interface: bool,
}

/// The model of a `SmaliHead`.
pub struct Head {
    pub name: Seq<char>,
    pub implements: Seq<Seq<char>>,
    pub is_interface: bool,
}

impl View for SmaliHead {
    type V = Head;

    open spec fn view(&self) -> Head {
        Head {
            name: self.name@,
            implements: texts(self.implements@),
            is_interface: self.is_interface,
        }
    }
}

// ---------------------------------------------------------------------------------------------
// Model
// ---------------------------------------------------------------------------------------------

/// The name in a type descriptor: what stands between `L` and `;`.
pub open spec fn descriptor_name(word: Seq<char>) -> Option<Seq<char>> {
    if word.len() >= 2 && word[0] == 'L' && word.last() == ';' {
        Some(word.subrange(1, word.len() - 1))
    } else {
        None
    }
}

/// How many words stand before the first type descriptor.
pub open spec fn before_type(list: Seq<Seq<char>>) -> nat
    decreases list.len(),
{
    if list.len() > 0 && descriptor_name(list[0]) is None {
        1 + before_type(list.skip(1))
    } else {
        0
    }
}

/// The name in the first type descriptor among the words.
pub open spec fn first_type(list: Seq<Seq<char>>) -> Option<Seq<char>> {
    let k = before_type(list) as int;
    if k < list.len() {
        descriptor_name(list[k])
    } else {
        None
    }
}

/// What the lines read so far say.
pub struct Lines {
    pub name: Option<Seq<char>>,
    pub implements: Seq<Seq<char>>,
    pub is_interface: bool,
}

/// What the lines say once `line`, without white space at its ends, is read as well.
///
/// A `.class` line gives the class its name, and the word `interface` before that name makes it an
/// interface. An `.implements` line adds one interface. Other lines add nothing.
pub open spec fn with_line(lines: Lines, line: Seq<char>) -> Lines {
    if has_prefix(line, ".class"@) {
        let list = words(line.skip(".class"@.len() as int));
        Lines {
            name: first_type(list),
            is_interface: lines.is_interface || list.take(before_type(list) as int).contains(
                "interface"@,
            ),
            ..lines
        }
    } else if has_prefix(line, ".implements"@) {
        match first_type(words(line.skip(".implements"@.len() as int))) {
            Some(name) => Lines { implements: lines.implements.push(name), ..lines },
            None => lines,
        }
    } else {
        lines
    }
}

/// How many bytes stand before the first line feed.
pub open spec fn line_len(bytes: Seq<u8>) -> nat
    decreases bytes.len(),
{
    if bytes.len() > 0 && bytes[0] != 0x0a {
        1 + line_len(bytes.skip(1))
    } else {
        0
    }
}

/// A line is no longer than the bytes that it starts.
pub proof fn lemma_line_len(bytes: Seq<u8>)
    ensures
        line_len(bytes) <= bytes.len(),
        line_len(bytes) < bytes.len() ==> bytes[line_len(bytes) as int] == 0x0a,
        forall|i: int| 0 <= i < line_len(bytes) ==> bytes[i] != 0x0a,
    decreases bytes.len(),
{
    if bytes.len() > 0 && bytes[0] != 0x0a {
        lemma_line_len(bytes.skip(1));
        assert forall|i: int| 0 <= i < line_len(bytes) implies bytes[i] != 0x0a by {
            if i > 0 {
                assert(bytes[i] == bytes.skip(1)[i - 1]);
            }
        }
    }
}

/// The bytes after the first line.
pub open spec fn after_line(bytes: Seq<u8>) -> Seq<u8> {
    if line_len(bytes) < bytes.len() {
        bytes.skip(line_len(bytes) as int + 1)
    } else {
        Seq::empty()
    }
}

/// The text of the first line without white space at its ends.
pub open spec fn first_line(bytes: Seq<u8>) -> Seq<char> {
    trim(decode_utf8(bytes.take(line_len(bytes) as int)))
}

/// What the lines up to the first method say, `lines` having been read before them.
pub open spec fn lines_of(bytes: Seq<u8>, lines: Lines) -> Result<Lines, SmaliError>
    decreases bytes.len(),
{
    if bytes.len() == 0 {
        Ok(lines)
    } else if !valid_utf8(bytes.take(line_len(bytes) as int)) {
        Err(SmaliError::NotUtf8)
    } else if has_prefix(first_line(bytes), ".method"@) {
        Ok(lines)
    } else {
        lines_of(after_line(bytes), with_line(lines, first_line(bytes)))
    }
}

/// What nothing read yet says.
pub open spec fn no_lines() -> Lines {
    Lines { name: None, implements: Seq::empty(), is_interface: false }
}

/// The head of a Smali file, or why it has none.
pub open spec fn head_of(bytes: Seq<u8>) -> Result<Head, SmaliError> {
    match lines_of(bytes, no_lines()) {
        Ok(lines) => match lines.name {
            Some(name) => Ok(
                Head { name, implements: lines.implements, is_interface: lines.is_interface },
            ),
            None => Err(SmaliError::NoClassLine),
        },
        Err(e) => Err(e),
    }
}

/// Reading the head comes to an end in `bytes`: one of their lines, all of it there, opens a method
/// or is not valid UTF-8.
pub open spec fn head_ends_in(bytes: Seq<u8>) -> bool
    decreases bytes.len(),
{
    &&& line_len(bytes) < bytes.len()
    &&& {
        ||| !valid_utf8(bytes.take(line_len(bytes) as int))
        ||| has_prefix(first_line(bytes), ".method"@)
        ||| head_ends_in(after_line(bytes))
    }
}

/// `r` is the outcome that the model gives.
pub open spec fn is_head(r: Result<SmaliHead, SmaliError>, model: Result<Head, SmaliError>) -> bool {
    match model {
        Ok(head) => r matches Ok(h) && h@ == head,
        Err(e) => r matches Err(found) && found == e,
    }
}

// ---------------------------------------------------------------------------------------------
// Operations
// ---------------------------------------------------------------------------------------------

/// The name in a type descriptor.
pub fn smali_type_name(value: &str) -> (r: Option<&str>)
    ensures
        match descriptor_name(value@) {
            Some(name) => r matches Some(s) && s@ == name,
            None => r is None,
        },
{
    let n: usize = value.unicode_len();
    if n >= 2 && value.get_char(0) == 'L' && value.get_char(n - 1) == ';' {
        Some(value.substring_char(1, n - 1))
    } else {
        None
    }
}

/// The position of the first type descriptor among the words, and the name in it.
fn find_type(list: &Vec<String>) -> (r: (usize, Option<String>))
    ensures
        r.0 == before_type(texts(list@)),
        r.0 <= list@.len(),
        match first_type(texts(list@)) {
            Some(name) => r.1 matches Some(s) && s@ == name,
            None => r.1 is None,
        },
{
    let ghost all = texts(list@);
    let mut k: usize = 0;
    assert(all.skip(0) == all);
    while k < list.len()
        invariant
            all == texts(list@),
            k <= list@.len(),
            before_type(all) == k + before_type(all.skip(k as int)),
        decreases list@.len() - k,
    {
        assert(all.skip(k as int)[0] == all[k as int]);
        if let Some(name) = smali_type_name(list[k].as_str()) {
            return (k, Some(name.to_string()));
        }
        assert(all.skip(k as int).skip(1) == all.skip(k + 1));
        k = k + 1;
    }
    (k, None)
}

/// Whether one of the first `n` words is `interface`.
fn says_interface(list: &Vec<String>, n: usize) -> (r: bool)
    requires
        n <= list@.len(),
    ensures
        r == texts(list@).take(n as int).contains("interface"@),
{
    let ghost front = texts(list@).take(n as int);
    for i in 0..n
        invariant
            n <= list@.len(),
            front == texts(list@).take(n as int),
            forall|j: int| 0 <= j < i ==> front[j] != "interface"@,
    {
        if same(list[i].as_str(), "interface") {
            assert(front[i as int] == "interface"@);
            return true;
        }
    }
    false
}

/// How many bytes stand before the first line feed at or after `from`.
fn line_length(bytes: &[u8], from: usize) -> (n: usize)
    requires
        from <= bytes@.len(),
    ensures
        n == line_len(bytes@.skip(from as int)),
        from + n <= bytes@.len(),
{
    let mut i: usize = from;
    let total: usize = bytes.len();
    while i < total && bytes[i] != 0x0a
        invariant
            total == bytes@.len(),
            from <= i <= total,
            (i - from) + line_len(bytes@.skip(i as int)) == line_len(bytes@.skip(from as int)),
        decreases total - i,
    {
        assert(bytes@.skip(i as int).skip(1) == bytes@.skip(i + 1));
        i = i + 1;
    }
    i - from
}

/// Reads the head of a Smali file. Bytes after the line of the first method are not looked at.
pub fn parse_smali_head_reader(content: &[u8]) -> (r: Result<SmaliHead, SmaliError>)
    ensures
        is_head(r, head_of(content@)),
{
    let mut name: Option<String> = None;
    let mut implements: Vec<String> = Vec::new();
    let mut is_interface = false;
    let mut at: usize = 0;
    let total: usize = content.len();
    let ghost lines = no_lines();
    proof {
        assert(content@.skip(0) == content@);
        assert(texts(implements@) == lines.implements);
    }
    while at < total
        invariant
            total == content@.len(),
            at <= total,
            lines_of(content@, no_lines()) == lines_of(content@.skip(at as int), lines),
            match lines.name {
                Some(n) => name matches Some(s) && s@ == n,
                None => name is None,
            },
            lines.implements == texts(implements@),
            lines.is_interface == is_interface,
        ensures
            lines_of(content@, no_lines()) == Ok::<Lines, SmaliError>(lines),
        decreases total - at,
    {
        let ghost rest = content@.skip(at as int);
        let n: usize = line_length(content, at);
        let bytes = slice_subrange(content, at, at + n);
        assert(bytes@ == rest.take(n as int));
        let line = match core::str::from_utf8(bytes) {
            Ok(line) => line,
            Err(_) => {
                return Err(SmaliError::NotUtf8);
            },
        };
        let chars = to_chars(line);
        let trimmed = from_chars(drop_white(skip_white(chars.as_slice())));
        let line = trimmed.as_str();
        if starts_with(line, ".method") {
            break;
        }
        let ghost before = lines;
        proof {
            lines = with_line(lines, line@);
        }
        if starts_with(line, ".class") {
            let list = words_after(line, ".class");
            let (k, class_name) = find_type(&list);
            if says_interface(&list, k) {
                is_interface = true;
            }
            name = class_name;
        } else if starts_with(line, ".implements") {
            let list = words_after(line, ".implements");
            let (_, interface_name) = find_type(&list);
            if let Some(interface_name) = interface_name {
                let ghost old_list = implements@;
                let ghost added = interface_name@;
                implements.push(interface_name);
                assert(texts(implements@) == texts(old_list).push(added));
            }
        }
        if n < total - at {
            at = at + n + 1;
            assert(content@.skip(at as int) == after_line(rest));
        } else {
            at = total;
            assert(content@.skip(at as int) == after_line(rest));
        }
    }
    match name {
        Some(name) => Ok(SmaliHead { name, implements, is_interface }),
        None => Err(SmaliError::NoClassLine),
    }
}

/// Whether reading the head comes to an end in what is there of a file.
pub fn head_is_read(content: &[u8]) -> (r: bool)
    ensures
        r == head_ends_in(content@),
{
    let mut at: usize = 0;
    let total: usize = content.len();
    assert(content@.skip(0) == content@);
    while at < total
        invariant
            total == content@.len(),
            at <= total,
            head_ends_in(content@) == head_ends_in(content@.skip(at as int)),
        decreases total - at,
    {
        let ghost rest = content@.skip(at as int);
        let n: usize = line_length(content, at);
        if n == total - at {
            return false;
        }
        let bytes = slice_subrange(content, at, at + n);
        assert(bytes@ == rest.take(n as int));
        let line = match core::str::from_utf8(bytes) {
            Ok(line) => line,
            Err(_) => {
                return true;
            },
        };
        let chars = to_chars(line);
        let trimmed = from_chars(drop_white(skip_white(chars.as_slice())));
        if starts_with(trimmed.as_str(), ".method") {
            return true;
        }
        at = at + n + 1;
        assert(content@.skip(at as int) == after_line(rest));
    }
    false
}

/// The words of `line` after the directive that it begins with.
fn words_after(line: &str, directive: &str) -> (r: Vec<String>)
    requires
        has_prefix(line@, directive@),
    ensures
        texts(r@) == words(line@.skip(directive@.len() as int)),
{
    let chars = to_chars(line);
    let n: usize = to_chars(directive).len();
    assert(line@.skip(n as int) == line@.subrange(n as int, line@.len() as int));
    split_words(slice_subrange(chars.as_slice(), n, chars.len()))
}

/// Reads the head of a Smali file that is at hand as text.
pub fn parse_smali_head(content: &str) -> (r: Result<SmaliHead, SmaliError>)
    ensures
        is_head(r, head_of(encode_utf8(content@))),
{
    parse_smali_head_reader(content.as_bytes())
}

// ---------------------------------------------------------------------------------------------
// Laws
// ---------------------------------------------------------------------------------------------

/// The first line does not depend on what follows it.
pub proof fn lemma_line_len_of_front(front: Seq<u8>, tail: Seq<u8>)
    requires
        line_len(front) < front.len(),
    ensures
        line_len(front + tail) == line_len(front),
    decreases front.len(),
{
    if front[0] != 0x0a {
        assert((front + tail).skip(1) == front.skip(1) + tail);
        lemma_line_len_of_front(front.skip(1), tail);
    }
}

/// What follows the end of the head does not matter.
pub proof fn lemma_lines_of_front(front: Seq<u8>, a: Seq<u8>, b: Seq<u8>, lines: Lines)
    requires
        head_ends_in(front),
    ensures
        lines_of(front + a, lines) == lines_of(front + b, lines),
    decreases front.len(),
{
    let n = line_len(front) as int;
    lemma_line_len_of_front(front, a);
    lemma_line_len_of_front(front, b);
    assert((front + a).take(n) == front.take(n));
    assert((front + b).take(n) == front.take(n));
    if valid_utf8(front.take(n)) && !has_prefix(first_line(front), ".method"@) {
        assert(after_line(front + a) == after_line(front) + a);
        assert(after_line(front + b) == after_line(front) + b);
        lemma_lines_of_front(after_line(front), a, b, with_line(lines, first_line(front)));
    }
}

/// What follows the line of the first method does not matter to the head, not even whether it is
/// valid UTF-8.
pub proof fn law_head_ignores_method_bodies(front: Seq<u8>, a: Seq<u8>, b: Seq<u8>)
    requires
        head_ends_in(front),
    ensures
        head_of(front + a) == head_of(front + b),
{
    lemma_lines_of_front(front, a, b, no_lines());
}

proof fn lemma_line_changed(front: Seq<u8>, a: Seq<u8>, b: Seq<u8>, rest: Seq<u8>, lines: Lines)
    requires
        front.len() > 0 ==> front.last() == 0x0a,
        valid_utf8(a),
        valid_utf8(b),
        !a.contains(0x0a),
        !b.contains(0x0a),
        trim(decode_utf8(a)) == trim(decode_utf8(b)),
    ensures
        lines_of(front + (a.push(0x0a) + rest), lines) == lines_of(
            front + (b.push(0x0a) + rest),
            lines,
        ),
    decreases front.len(),
{
    let x = a.push(0x0a) + rest;
    let y = b.push(0x0a) + rest;
    if front.len() == 0 {
        assert(front + x == x);
        assert(front + y == y);
        lemma_one_line(a, rest);
        lemma_one_line(b, rest);
    } else {
        lemma_line_len(front);
        let n = line_len(front) as int;
        lemma_line_len_of_front(front, x);
        lemma_line_len_of_front(front, y);
        assert((front + x).take(n) == front.take(n));
        assert((front + y).take(n) == front.take(n));
        assert(after_line(front + x) == after_line(front) + x);
        assert(after_line(front + y) == after_line(front) + y);
        lemma_line_changed(after_line(front), a, b, rest, with_line(lines, first_line(front)));
    }
}

/// White space at the ends of a line, a carriage return among it, does not matter to the head,
/// wherever in the file the line stands.
pub proof fn law_head_ignores_line_ends(front: Seq<u8>, a: Seq<u8>, b: Seq<u8>, rest: Seq<u8>)
    requires
        front.len() > 0 ==> front.last() == 0x0a,
        valid_utf8(a),
        valid_utf8(b),
        !a.contains(0x0a),
        !b.contains(0x0a),
        trim(decode_utf8(a)) == trim(decode_utf8(b)),
    ensures
        head_of(front + (a.push(0x0a) + rest)) == head_of(front + (b.push(0x0a) + rest)),
{
    lemma_line_changed(front, a, b, rest, no_lines());
}

/// The first line and what follows it.
pub proof fn lemma_one_line(line: Seq<u8>, rest: Seq<u8>)
    requires
        !line.contains(0x0a),
    ensures
        line_len(line.push(0x0a) + rest) == line.len(),
        (line.push(0x0a) + rest).take(line.len() as int) == line,
        after_line(line.push(0x0a) + rest) == rest,
    decreases line.len(),
{
    let bytes = line.push(0x0a) + rest;
    if line.len() > 0 {
        let tail = line.skip(1);
        assert forall|x: u8| tail.contains(x) implies line.contains(x) by {
            let i = choose|i: int| 0 <= i < tail.len() && tail[i] == x;
            assert(line[i + 1] == x);
        }
        lemma_one_line(tail, rest);
        assert(line[0] != 0x0a);
        assert(bytes.skip(1) == tail.push(0x0a) + rest);
    }
    assert(bytes.take(line.len() as int) == line);
    assert(bytes.skip(line.len() as int + 1) == rest);
}

} // verus!
