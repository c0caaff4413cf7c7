//! Text as sequences of characters: searching, trimming, splitting and joining.
use vstd::prelude::*;
use vstd::slice::slice_subrange;
use vstd::utf8::decode_utf8;
use vstd::utf8::encode_utf8;
use vstd::utf8::is_char_boundary;
use vstd::utf8::valid_utf8;

verus! {

/// `String::push`: appends one character to the end of the string.
pub assume_specification[ String::push ](s: &mut String, c: char)
    ensures
        final(s)@ == old(s)@.push(c),
;

/// The error of `core::str::from_utf8`.
#[verifier::external_type_specification]
#[verifier::external_body]
pub struct ExUtf8Error(core::str::Utf8Error);

/// `core::str::from_utf8`: the bytes as text if they are valid UTF-8, an error otherwise.
pub assume_specification<'a>[ core::str::from_utf8 ](v: &'a [u8]) -> (r: Result<
    &'a str,
    core::str::Utf8Error,
>)
    ensures
        r is Ok <==> valid_utf8(v@),
        r matches Ok(s) ==> s@ == decode_utf8(v@),
;

/// The text that `String::from_utf8_lossy` makes of `bytes`.
pub uninterp spec fn lossy_text(bytes: Seq<u8>) -> Seq<char>;

/// `String::from_utf8_lossy`: the bytes as text, each invalid sequence replaced.
/// Valid UTF-8 is kept as it is; the text is otherwise named and not spelled out.
#[verifier::external_body]
pub(crate) fn utf8_lossy(bytes: &[u8]) -> (text: String)
    ensures
        text@ == lossy_text(bytes@),
        valid_utf8(bytes@) ==> text@ == decode_utf8(bytes@),
{
    String::from_utf8_lossy(bytes).into_owned()
}

// ---------------------------------------------------------------------------------------------
// Model
// ---------------------------------------------------------------------------------------------

/// The characters with the Unicode property `White_Space`.
pub open spec fn white(c: char) -> bool {
    ||| '\u{9}' <= c <= '\u{d}'
    ||| c == ' '
    ||| c == '\u{85}'
    ||| c == '\u{a0}'
    ||| c == '\u{1680}'
    ||| '\u{2000}' <= c <= '\u{200a}'
    ||| c == '\u{2028}'
    ||| c == '\u{2029}'
    ||| c == '\u{202f}'
    ||| c == '\u{205f}'
    ||| c == '\u{3000}'
}

/// `s` without its leading white space.
pub open spec fn trim_start(s: Seq<char>) -> Seq<char>
    decreases s.len(),
{
    if s.len() > 0 && white(s[0]) {
        trim_start(s.skip(1))
    } else {
        s
    }
}

/// `s` without its trailing white space.
pub open spec fn trim_end(s: Seq<char>) -> Seq<char>
    decreases s.len(),
{
    if s.len() > 0 && white(s.last()) {
        trim_end(s.drop_last())
    } else {
        s
    }
}

/// `s` without white space at either end.
pub open spec fn trim(s: Seq<char>) -> Seq<char> {
    trim_end(trim_start(s))
}

/// How many characters stand before the first white space of `s`.
pub open spec fn word_len(s: Seq<char>) -> nat
    decreases s.len(),
{
    if s.len() > 0 && !white(s[0]) {
        1 + word_len(s.skip(1))
    } else {
        0
    }
}

/// `trim_start` never makes a text longer.
pub proof fn lemma_trim_start_len(s: Seq<char>)
    ensures
        trim_start(s).len() <= s.len(),
        trim_start(s).len() > 0 ==> !white(trim_start(s)[0]),
    decreases s.len(),
{
    if s.len() > 0 && white(s[0]) {
        lemma_trim_start_len(s.skip(1));
    }
}

/// A word is no longer than the text that it starts.
pub proof fn lemma_word_len(s: Seq<char>)
    ensures
        word_len(s) <= s.len(),
        s.len() > 0 && !white(s[0]) ==> word_len(s) > 0,
    decreases s.len(),
{
    if s.len() > 0 && !white(s[0]) {
        lemma_word_len(s.skip(1));
    }
}

/// The maximal runs of characters of `s` that are not white space, in order.
pub open spec fn words(s: Seq<char>) -> Seq<Seq<char>>
    decreases s.len(),
{
    let t = trim_start(s);
    if t.len() == 0 {
        Seq::empty()
    } else {
        proof {
            lemma_trim_start_len(s);
            lemma_word_len(t);
        }
        let n = word_len(t) as int;
        seq![t.take(n)] + words(t.skip(n))
    }
}

/// `part` stands in `text` at position `i`.
pub open spec fn occurs_at(text: Seq<char>, part: Seq<char>, i: int) -> bool {
    &&& 0 <= i
    &&& i + part.len() <= text.len()
    &&& text.subrange(i, i + part.len()) == part
}

/// `part` stands somewhere in `text`.
pub open spec fn contains_text(text: Seq<char>, part: Seq<char>) -> bool {
    exists|i: int| occurs_at(text, part, i)
}

/// `text` begins with `prefix`.
pub open spec fn has_prefix(text: Seq<char>, prefix: Seq<char>) -> bool {
    occurs_at(text, prefix, 0)
}

/// The first position of `part` in `text` at or after `from`.
pub open spec fn find_from(text: Seq<char>, part: Seq<char>, from: int) -> Option<int>
    decreases text.len() - from,
{
    if occurs_at(text, part, from) {
        Some(from)
    } else if from < text.len() {
        find_from(text, part, from + 1)
    } else {
        None
    }
}

/// `text` with the first occurrence of `from`, if there is one, replaced by `to`.
pub open spec fn replace_first(text: Seq<char>, from: Seq<char>, to: Seq<char>) -> Seq<char> {
    match find_from(text, from, 0) {
        Some(i) => text.take(i) + to + text.skip(i + from.len()),
        None => text,
    }
}

/// The pieces of `s` between the occurrences of `sep`; there is always at least one.
pub open spec fn split_on(s: Seq<char>, sep: char) -> Seq<Seq<char>>
    decreases s.len(),
{
    if s.len() == 0 {
        seq![s]
    } else {
        let rest = split_on(s.skip(1), sep);
        if s[0] == sep {
            seq![Seq::<char>::empty()] + rest
        } else {
            rest.update(0, seq![s[0]] + rest[0])
        }
    }
}

/// The pieces in order, with `sep` between neighbours.
pub open spec fn join(pieces: Seq<Seq<char>>, sep: char) -> Seq<char>
    decreases pieces.len(),
{
    if pieces.len() == 0 {
        Seq::empty()
    } else if pieces.len() == 1 {
        pieces[0]
    } else {
        join(pieces.drop_last(), sep).push(sep) + pieces.last()
    }
}

/// `s` with every CR LF replaced by LF.
pub open spec fn crlf_to_lf(s: Seq<char>) -> Seq<char>
    decreases s.len(),
{
    if s.len() == 0 {
        s
    } else if s.len() >= 2 && s[0] == '\r' && s[1] == '\n' {
        seq!['\n'] + crlf_to_lf(s.skip(2))
    } else {
        seq![s[0]] + crlf_to_lf(s.skip(1))
    }
}

/// `s` with every LF replaced by CR LF.
pub open spec fn lf_to_crlf(s: Seq<char>) -> Seq<char>
    decreases s.len(),
{
    if s.len() == 0 {
        s
    } else if s[0] == '\n' {
        seq!['\r', '\n'] + lf_to_crlf(s.skip(1))
    } else {
        seq![s[0]] + lf_to_crlf(s.skip(1))
    }
}

/// The text between two byte offsets of the UTF-8 encoding of `text`.
pub open spec fn part(text: Seq<char>, from: int, to: int) -> Seq<char> {
    decode_utf8(encode_utf8(text).subrange(from, to))
}

/// `offset` is a byte offset of the UTF-8 encoding of `text` between two characters or at an end.
pub open spec fn boundary(text: Seq<char>, offset: int) -> bool {
    is_char_boundary(encode_utf8(text), offset)
}

/// How often `c` stands in `s`.
pub open spec fn count(s: Seq<char>, c: char) -> nat
    decreases s.len(),
{
    if s.len() == 0 {
        0
    } else {
        count(s.drop_last(), c) + if s.last() == c {
            1nat
        } else {
            0nat
        }
    }
}

/// The views of a list of strings.
pub open spec fn texts(list: Seq<String>) -> Seq<Seq<char>> {
    Seq::new(list.len(), |i: int| list[i]@)
}

// ---------------------------------------------------------------------------------------------
// Facts about the model
// ---------------------------------------------------------------------------------------------

/// `find_from` gives the least position at or after `from`, and misses none.
pub proof fn lemma_find_from(text: Seq<char>, part: Seq<char>, from: int)
    requires
        0 <= from,
    ensures
        find_from(text, part, from) matches Some(i) ==> {
            &&& from <= i
            &&& occurs_at(text, part, i)
            &&& forall|j: int| from <= j < i ==> !occurs_at(text, part, j)
        },
        find_from(text, part, from) is None ==> forall|j: int|
            from <= j ==> !occurs_at(text, part, j),
    decreases text.len() - from,
{
    if !occurs_at(text, part, from) && from < text.len() {
        lemma_find_from(text, part, from + 1);
    }
}

/// What stands in the middle of a text stands in the text.
pub proof fn lemma_within(front: Seq<char>, middle: Seq<char>, back: Seq<char>, what: Seq<char>)
    requires
        contains_text(middle, what),
    ensures
        contains_text(front + middle + back, what),
{
    let all = front + middle + back;
    let i = choose|i: int| occurs_at(middle, what, i);
    let at = front.len() + i;
    assert(all.subrange(at, at + what.len()) == middle.subrange(i, i + what.len()));
    assert(occurs_at(all, what, at));
}

/// What stands in two texts stands as often in the two together.
pub proof fn lemma_count_add(a: Seq<char>, b: Seq<char>, c: char)
    ensures
        count(a + b, c) == count(a, c) + count(b, c),
    decreases b.len(),
{
    if b.len() == 0 {
        assert(a + b == a);
    } else {
        assert((a + b).drop_last() == a + b.drop_last());
        lemma_count_add(a, b.drop_last(), c);
    }
}

/// One character stands once where it is the one that is counted.
pub proof fn lemma_count_one(x: char, c: char)
    ensures
        count(seq![x], c) == if x == c {
            1nat
        } else {
            0nat
        },
{
    assert(seq![x].drop_last() == Seq::<char>::empty());
    assert(count(Seq::<char>::empty(), c) == 0);
}

/// The first character and the rest make up the count.
proof fn lemma_count_front(s: Seq<char>, c: char)
    requires
        s.len() > 0,
    ensures
        count(s, c) == count(s.skip(1), c) + if s[0] == c {
            1nat
        } else {
            0nat
        },
{
    assert(s == seq![s[0]] + s.skip(1));
    lemma_count_add(seq![s[0]], s.skip(1), c);
    lemma_count_one(s[0], c);
}

/// A text has one more piece than separators.
pub proof fn lemma_count_split(s: Seq<char>, sep: char)
    ensures
        split_on(s, sep).len() == count(s, sep) + 1,
    decreases s.len(),
{
    if s.len() > 0 {
        lemma_count_split(s.skip(1), sep);
        lemma_count_front(s, sep);
    }
}

/// There is a separator between all pieces that are joined.
pub proof fn lemma_count_join(pieces: Seq<Seq<char>>, sep: char)
    ensures
        count(join(pieces, sep), sep) + 1 >= pieces.len(),
    decreases pieces.len(),
{
    if pieces.len() > 1 {
        let front = join(pieces.drop_last(), sep);
        lemma_count_join(pieces.drop_last(), sep);
        assert(front.push(sep) == front + seq![sep]);
        lemma_count_add(front, seq![sep], sep);
        lemma_count_one(sep, sep);
        lemma_count_add(front.push(sep), pieces.last(), sep);
    }
}

/// Other line ends leave the number of line feeds as it is.
pub proof fn lemma_count_line_ends(s: Seq<char>)
    ensures
        count(lf_to_crlf(s), '\n') == count(s, '\n'),
        count(crlf_to_lf(s), '\n') == count(s, '\n'),
    decreases s.len(),
{
    if s.len() > 0 {
        let rest = s.skip(1);
        lemma_count_front(s, '\n');
        lemma_count_line_ends(rest);
        lemma_count_one('\n', '\n');
        lemma_count_one('\r', '\n');
        lemma_count_one(s[0], '\n');
        assert(seq!['\r', '\n'] == seq!['\r'] + seq!['\n']);
        lemma_count_add(seq!['\r'], seq!['\n'], '\n');
        lemma_count_add(seq!['\r', '\n'], lf_to_crlf(rest), '\n');
        lemma_count_add(seq![s[0]], lf_to_crlf(rest), '\n');
        lemma_count_add(seq![s[0]], crlf_to_lf(rest), '\n');
        if s.len() >= 2 && s[0] == '\r' && s[1] == '\n' {
            let after = s.skip(2);
            assert(rest.skip(1) == after);
            lemma_count_front(rest, '\n');
            lemma_count_line_ends(after);
            lemma_count_add(seq!['\n'], crlf_to_lf(after), '\n');
        }
    }
}

/// A text splits into the parts before, between and after two of its boundaries.
pub proof fn lemma_parts(text: Seq<char>, from: int, to: int)
    requires
        boundary(text, from),
        boundary(text, to),
        0 <= from <= to <= encode_utf8(text).len(),
    ensures
        text == part(text, 0, from) + part(text, from, to) + part(
            text,
            to,
            encode_utf8(text).len() as int,
        ),
        part(text, 0, to) == part(text, 0, from) + part(text, from, to),
        part(text, from, encode_utf8(text).len() as int) == part(text, from, to) + part(
            text,
            to,
            encode_utf8(text).len() as int,
        ),
        valid_utf8(encode_utf8(text).subrange(from, to)),
{
    broadcast use {vstd::utf8::encode_utf8_valid_utf8, vstd::utf8::encode_utf8_decode_utf8};

    let bytes = encode_utf8(text);
    let n = bytes.len() as int;
    let front = bytes.subrange(0, to);
    vstd::utf8::valid_utf8_split(bytes, to);
    vstd::utf8::decode_utf8_split(bytes, to);
    lemma_boundary_of_front(bytes, from, to);
    vstd::utf8::valid_utf8_split(front, from);
    vstd::utf8::decode_utf8_split(front, from);
    assert(front.subrange(0, from) == bytes.subrange(0, from));
    assert(front.subrange(from, to) == bytes.subrange(from, to));
    vstd::utf8::decode_utf8_split(bytes, from);
    assert(part(text, 0, from) + part(text, from, n) == part(text, 0, from) + (part(text, from, to)
        + part(text, to, n)));
    lemma_same_tail(part(text, 0, from), part(text, from, n), part(text, from, to) + part(text, to, n));
}

proof fn lemma_same_tail(a: Seq<char>, b: Seq<char>, c: Seq<char>)
    requires
        a + b == a + c,
    ensures
        b == c,
{
    assert(b == (a + b).skip(a.len() as int));
    assert(c == (a + c).skip(a.len() as int));
}

/// A boundary of some bytes is a boundary of any valid front of them that reaches it.
proof fn lemma_boundary_of_front(bytes: Seq<u8>, index: int, to: int)
    requires
        valid_utf8(bytes),
        is_char_boundary(bytes, index),
        is_char_boundary(bytes, to),
        0 <= index <= to <= bytes.len(),
    ensures
        valid_utf8(bytes.subrange(0, to)),
        is_char_boundary(bytes.subrange(0, to), index),
{
    let front = bytes.subrange(0, to);
    vstd::utf8::valid_utf8_split(bytes, to);
    if index == to {
        vstd::utf8::is_char_boundary_start_end_of_seq(front);
    } else {
        assert(front[index] == bytes[index]);
        vstd::utf8::is_char_boundary_iff_not_is_continuation_byte(bytes, index);
        vstd::utf8::is_char_boundary_iff_not_is_continuation_byte(front, index);
    }
}

// ---------------------------------------------------------------------------------------------
// Operations
// ---------------------------------------------------------------------------------------------

/// Whether `c` has the Unicode property `White_Space`.
pub fn is_whitespace(c: char) -> (r: bool)
    ensures
        r == white(c),
{
    ('\u{9}' <= c && c <= '\u{d}') || c == ' ' || c == '\u{85}' || c == '\u{a0}' || c == '\u{1680}'
        || ('\u{2000}' <= c && c <= '\u{200a}') || c == '\u{2028}' || c == '\u{2029}' || c
        == '\u{202f}' || c == '\u{205f}' || c == '\u{3000}'
}

/// The characters of a text.
pub fn to_chars(s: &str) -> (v: Vec<char>)
    ensures
        v@ == s@,
{
    let mut v: Vec<char> = Vec::new();
    for c in it: s.chars()
        invariant
            v@ == s@.take(it.index() as int),
            it.seq() == s@,
    {
        v.push(c);
    }
    v
}

/// The text made of the given characters.
pub fn from_chars(v: &[char]) -> (s: String)
    ensures
        s@ == v@,
{
    let mut s = String::new();
    for i in 0..v.len()
        invariant
            s@ == v@.take(i as int),
    {
        s.push(v[i]);
    }
    s
}

/// `v` without leading white space.
pub fn skip_white<'a>(v: &'a [char]) -> (r: &'a [char])
    ensures
        r@ == trim_start(v@),
{
    let mut i: usize = 0;
    assert(v@.skip(0) == v@);
    while i < v.len() && is_whitespace(v[i])
        invariant
            i <= v.len(),
            trim_start(v@.skip(i as int)) == trim_start(v@),
        decreases v.len() - i,
    {
        assert(v@.skip(i as int).skip(1) == v@.skip(i + 1));
        i = i + 1;
    }
    assert(v@.skip(i as int) == v@.subrange(i as int, v@.len() as int));
    slice_subrange(v, i, v.len())
}

/// `v` without trailing white space.
pub fn drop_white<'a>(v: &'a [char]) -> (r: &'a [char])
    ensures
        r@ == trim_end(v@),
{
    let mut n: usize = v.len();
    assert(v@.take(n as int) == v@);
    while n > 0 && is_whitespace(v[n - 1])
        invariant
            n <= v.len(),
            trim_end(v@.take(n as int)) == trim_end(v@),
        decreases n,
    {
        assert(v@.take(n as int).drop_last() == v@.take(n - 1));
        n = n - 1;
    }
    assert(v@.take(n as int) == v@.subrange(0, n as int));
    slice_subrange(v, 0, n)
}

/// The words of `v`: its maximal runs of characters that are not white space.
pub fn split_words(v: &[char]) -> (r: Vec<String>)
    ensures
        texts(r@) == words(v@),
{
    let mut r: Vec<String> = Vec::new();
    let mut rest: &[char] = skip_white(v);
    proof {
        lemma_trim_start_len(v@);
        lemma_words_trimmed(v@);
        assert(texts(r@) == Seq::<Seq<char>>::empty());
        assert(Seq::<Seq<char>>::empty() + words(rest@) == words(rest@));
    }
    while rest.len() > 0
        invariant
            texts(r@) + words(rest@) == words(v@),
            rest@.len() > 0 ==> !white(rest@[0]),
        decreases rest@.len(),
    {
        let ghost before = rest@;
        let n: usize = word_length(rest);
        proof {
            lemma_word_len(before);
            lemma_words_step(before);
        }
        let word = from_chars(slice_subrange(rest, 0, n));
        assert(before.take(n as int) == before.subrange(0, n as int));
        let ghost old_r = r@;
        r.push(word);
        let tail = slice_subrange(rest, n, rest.len());
        assert(before.skip(n as int) == before.subrange(n as int, before.len() as int));
        rest = skip_white(tail);
        proof {
            lemma_trim_start_len(tail@);
            lemma_words_trimmed(tail@);
            assert(texts(r@) == texts(old_r).push(before.take(n as int)));
            assert(texts(old_r) + (seq![before.take(n as int)] + words(tail@)) == texts(r@) + words(
                tail@,
            ));
        }
    }
    assert(words(rest@) == Seq::<Seq<char>>::empty());
    assert(texts(r@) + Seq::<Seq<char>>::empty() == texts(r@));
    r
}

/// Leading white space does not change the words of a text.
proof fn lemma_words_trimmed(s: Seq<char>)
    ensures
        words(trim_start(s)) == words(s),
    decreases s.len(),
{
    lemma_trim_start_idempotent(s);
}

proof fn lemma_trim_start_idempotent(s: Seq<char>)
    ensures
        trim_start(trim_start(s)) == trim_start(s),
    decreases s.len(),
{
    if s.len() > 0 && white(s[0]) {
        lemma_trim_start_idempotent(s.skip(1));
    }
}

proof fn lemma_words_step(s: Seq<char>)
    requires
        s.len() > 0,
        !white(s[0]),
    ensures
        words(s) == seq![s.take(word_len(s) as int)] + words(s.skip(word_len(s) as int)),
{
    lemma_word_len(s);
}

/// How many characters stand before the first white space of `v`.
fn word_length(v: &[char]) -> (n: usize)
    ensures
        n == word_len(v@),
        n <= v@.len(),
{
    let mut i: usize = 0;
    assert(v@.skip(0) == v@);
    while i < v.len() && !is_whitespace(v[i])
        invariant
            i <= v.len(),
            i + word_len(v@.skip(i as int)) == word_len(v@),
        decreases v.len() - i,
    {
        assert(v@.skip(i as int).skip(1) == v@.skip(i + 1));
        i = i + 1;
    }
    i
}

/// Whether `part` stands in `text` at position `i`.
fn stands_at(text: &[char], part: &[char], i: usize) -> (r: bool)
    requires
        i <= text@.len(),
    ensures
        r == occurs_at(text@, part@, i as int),
{
    if part.len() > text.len() - i {
        return false;
    }
    let n: usize = text.len();
    let mut k: usize = 0;
    while k < part.len()
        invariant
            n == text@.len(),
            i + part@.len() <= n,
            k <= part@.len(),
            forall|j: int| 0 <= j < k ==> text@[i + j] == part@[j],
        decreases part@.len() - k,
    {
        if text[i + k] != part[k] {
            assert(text@.subrange(i as int, i + part@.len())[k as int] != part@[k as int]);
            return false;
        }
        k = k + 1;
    }
    assert(text@.subrange(i as int, i + part@.len()) == part@);
    true
}

/// The first position of `part` in `text`.
pub fn find(text: &[char], part: &[char]) -> (r: Option<usize>)
    ensures
        match r {
            Some(i) => find_from(text@, part@, 0) == Some(i as int) && i + part@.len()
                <= text@.len(),
            None => find_from(text@, part@, 0) is None,
        },
{
    let mut i: usize = 0;
    while i <= text.len()
        invariant
            i <= text@.len() + 1,
            find_from(text@, part@, 0) == find_from(text@, part@, i as int),
        decreases text@.len() + 1 - i,
    {
        if stands_at(text, part, i) {
            return Some(i);
        }
        if i == text.len() {
            return None;
        }
        i = i + 1;
    }
    None
}

/// Whether `part` stands somewhere in `text`.
pub fn contains(text: &str, part: &str) -> (r: bool)
    ensures
        r == contains_text(text@, part@),
{
    let t = to_chars(text);
    let p = to_chars(part);
    proof {
        lemma_find_from(text@, part@, 0);
    }
    match find(t.as_slice(), p.as_slice()) {
        Some(i) => {
            assert(occurs_at(text@, part@, i as int));
            true
        },
        None => false,
    }
}

/// Whether `text` begins with `prefix`.
pub fn starts_with(text: &str, prefix: &str) -> (r: bool)
    ensures
        r == has_prefix(text@, prefix@),
{
    stands_at(to_chars(text).as_slice(), to_chars(prefix).as_slice(), 0)
}

/// Whether two texts are the same.
pub fn same(a: &str, b: &str) -> (r: bool)
    ensures
        r == (a@ == b@),
{
    let x = to_chars(a);
    let y = to_chars(b);
    assert(x@ == y@ ==> x@.subrange(0, y@.len() as int) == y@);
    assert(x@.len() == y@.len() ==> x@.subrange(0, y@.len() as int) == x@);
    x.len() == y.len() && stands_at(x.as_slice(), y.as_slice(), 0)
}

/// `text` with the first occurrence of `from` replaced by `to`.
pub fn replace_once(text: &str, from: &str, to: &str) -> (r: String)
    ensures
        r@ == replace_first(text@, from@, to@),
{
    let t = to_chars(text);
    let f = to_chars(from);
    match find(t.as_slice(), f.as_slice()) {
        Some(i) => {
            let mut out = from_chars(slice_subrange(t.as_slice(), 0, i));
            out.append(to);
            let n: usize = t.len();
            let rest = from_chars(slice_subrange(t.as_slice(), i + f.len(), n));
            out.append(rest.as_str());
            assert(text@.take(i as int) == text@.subrange(0, i as int));
            assert(text@.skip(i + from@.len()) == text@.subrange(
                i + from@.len(),
                text@.len() as int,
            ));
            out
        },
        None => text.to_string(),
    }
}

/// There is always at least one piece.
pub proof fn lemma_split_on_len(s: Seq<char>, sep: char)
    ensures
        split_on(s, sep).len() >= 1,
    decreases s.len(),
{
    if s.len() > 0 {
        lemma_split_on_len(s.skip(1), sep);
    }
}

/// No piece holds the separator.
pub proof fn lemma_split_on_pieces(s: Seq<char>, sep: char, i: int)
    requires
        0 <= i < split_on(s, sep).len(),
    ensures
        !split_on(s, sep)[i].contains(sep),
    decreases s.len(),
{
    if s.len() > 0 {
        let rest = split_on(s.skip(1), sep);
        lemma_split_on_len(s.skip(1), sep);
        if s[0] == sep {
            if i > 0 {
                lemma_split_on_pieces(s.skip(1), sep, i - 1);
                assert(split_on(s, sep)[i] == rest[i - 1]);
            } else {
                assert(split_on(s, sep)[0] == Seq::<char>::empty());
            }
        } else {
            lemma_split_on_pieces(s.skip(1), sep, i);
            if i == 0 {
                let piece = seq![s[0]] + rest[0];
                assert(split_on(s, sep)[0] == piece);
                assert(!piece.contains(sep)) by {
                    assert forall|k: int| 0 <= k < piece.len() implies piece[k] != sep by {
                        if k > 0 {
                            assert(piece[k] == rest[0][k - 1]);
                        }
                    }
                }
            } else {
                assert(split_on(s, sep)[i] == rest[i]);
            }
        }
    }
}

/// Each piece of a text stands in the text, the first one at its front.
pub proof fn lemma_split_on_stands(s: Seq<char>, sep: char, i: int)
    requires
        0 <= i < split_on(s, sep).len(),
    ensures
        contains_text(s, split_on(s, sep)[i]),
        i == 0 ==> has_prefix(s, split_on(s, sep)[0]),
    decreases s.len(),
{
    let piece = split_on(s, sep)[i];
    if s.len() == 0 {
        assert(s.subrange(0, 0) == piece);
        assert(occurs_at(s, piece, 0));
    } else {
        let tail = s.skip(1);
        let rest = split_on(tail, sep);
        lemma_split_on_len(tail, sep);
        if s[0] == sep && i == 0 {
            assert(piece == Seq::<char>::empty());
            assert(s.subrange(0, 0) == piece);
            assert(occurs_at(s, piece, 0));
        } else if i == 0 {
            lemma_split_on_stands(tail, sep, 0);
            assert(piece == seq![s[0]] + rest[0]);
            assert(tail.subrange(0, rest[0].len() as int) == rest[0]);
            assert(s.subrange(0, piece.len() as int) == piece) by {
                assert forall|k: int| 0 < k < piece.len() implies s[k] == piece[k] by {
                    assert(tail.subrange(0, rest[0].len() as int)[k - 1] == rest[0][k - 1]);
                }
            }
            assert(occurs_at(s, piece, 0));
        } else {
            let j = if s[0] == sep {
                i - 1
            } else {
                i
            };
            assert(piece == rest[j]);
            lemma_split_on_stands(tail, sep, j);
            lemma_within(seq![s[0]], tail, Seq::empty(), piece);
            assert(seq![s[0]] + tail + Seq::<char>::empty() == s);
        }
    }
}

/// The first piece stands at the front of what is joined.
pub proof fn lemma_join_front(pieces: Seq<Seq<char>>, sep: char)
    requires
        pieces.len() > 0,
    ensures
        has_prefix(join(pieces, sep), pieces[0]),
    decreases pieces.len(),
{
    let first = pieces[0];
    let all = join(pieces, sep);
    if pieces.len() == 1 {
        assert(all.subrange(0, first.len() as int) == first);
    } else {
        let front = join(pieces.drop_last(), sep);
        lemma_join_front(pieces.drop_last(), sep);
        assert(all.subrange(0, first.len() as int) == front.subrange(0, first.len() as int));
    }
}

/// Splitting before the last character is known tells how one more character continues it.
proof fn lemma_split_on_push(s: Seq<char>, sep: char, c: char)
    ensures
        split_on(s.push(c), sep) == if c == sep {
            split_on(s, sep).push(Seq::empty())
        } else {
            split_on(s, sep).drop_last().push(split_on(s, sep).last().push(c))
        },
    decreases s.len(),
{
    lemma_split_on_len(s, sep);
    if s.len() == 0 {
        let one = s.push(c);
        assert(one.skip(1) == s);
        assert(split_on(s, sep) == seq![s]);
        if c == sep {
            assert(split_on(one, sep) == seq![Seq::<char>::empty()] + seq![s]);
            assert(s == Seq::<char>::empty());
            assert(split_on(one, sep) == split_on(s, sep).push(Seq::empty()));
        } else {
            assert(split_on(one, sep) == seq![s].update(0, seq![c] + s));
            assert(seq![c] + s == s.push(c));
            assert(split_on(one, sep) == split_on(s, sep).drop_last().push(s.push(c)));
        }
    } else {
        let tail = s.skip(1);
        lemma_split_on_len(tail, sep);
        lemma_split_on_push(tail, sep, c);
        assert(s.push(c).skip(1) == tail.push(c));
        let rest = split_on(tail, sep);
        let more = split_on(tail.push(c), sep);
        lemma_split_on_len(tail.push(c), sep);
        if s[0] == sep {
            assert(split_on(s, sep) == seq![Seq::<char>::empty()] + rest);
            assert(split_on(s.push(c), sep) == seq![Seq::<char>::empty()] + more);
            if c == sep {
                assert(split_on(s.push(c), sep) == split_on(s, sep).push(Seq::empty()));
            } else {
                assert(split_on(s, sep).last() == rest.last());
                assert(split_on(s.push(c), sep) == split_on(s, sep).drop_last().push(
                    split_on(s, sep).last().push(c),
                ));
            }
        } else {
            assert(split_on(s, sep) == rest.update(0, seq![s[0]] + rest[0]));
            assert(split_on(s.push(c), sep) == more.update(0, seq![s[0]] + more[0]));
            if c == sep {
                assert(split_on(s.push(c), sep) == split_on(s, sep).push(Seq::empty()));
            } else if rest.len() == 1 {
                assert(more == seq![rest[0].push(c)]);
                assert(seq![s[0]] + rest[0].push(c) == (seq![s[0]] + rest[0]).push(c));
                assert(split_on(s.push(c), sep) == split_on(s, sep).drop_last().push(
                    split_on(s, sep).last().push(c),
                ));
            } else {
                assert(split_on(s.push(c), sep) == split_on(s, sep).drop_last().push(
                    split_on(s, sep).last().push(c),
                ));
            }
        }
    }
}

/// Text without the separator goes on with the last piece.
proof fn lemma_split_on_append(s: Seq<char>, sep: char, more: Seq<char>)
    requires
        !more.contains(sep),
    ensures
        split_on(s + more, sep) == split_on(s, sep).drop_last().push(
            split_on(s, sep).last() + more,
        ),
    decreases more.len(),
{
    lemma_split_on_len(s, sep);
    if more.len() == 0 {
        assert(s + more == s);
        assert(split_on(s, sep).last() + more == split_on(s, sep).last());
    } else {
        let front = more.drop_last();
        assert forall|i: int| 0 <= i < front.len() implies front[i] != sep by {
            assert(more[i] != sep);
        }
        lemma_split_on_append(s, sep, front);
        lemma_split_on_push(s + front, sep, more.last());
        assert((s + front).push(more.last()) == s + more);
        let last = split_on(s, sep).last();
        assert((last + front).push(more.last()) == last + more);
        assert(more[more.len() - 1] != sep);
        let shorter = split_on(s, sep).drop_last();
        assert(shorter.push(last + front).drop_last() == shorter);
    }
}

/// Joined pieces can be split again, if none of them holds the separator.
pub proof fn lemma_split_of_join(pieces: Seq<Seq<char>>, sep: char)
    requires
        pieces.len() > 0,
        forall|i: int| 0 <= i < pieces.len() ==> !(#[trigger] pieces[i]).contains(sep),
    ensures
        split_on(join(pieces, sep), sep) == pieces,
    decreases pieces.len(),
{
    let last = pieces.last();
    let nothing = Seq::<char>::empty();
    assert(split_on(nothing, sep) == seq![nothing]);
    if pieces.len() == 1 {
        lemma_split_on_append(nothing, sep, last);
        assert(nothing + last == last);
        assert(seq![nothing].drop_last().push(last) == pieces);
    } else {
        let front = pieces.drop_last();
        assert forall|i: int| 0 <= i < front.len() implies !(#[trigger] front[i]).contains(sep) by {
            assert(front[i] == pieces[i]);
        }
        lemma_split_of_join(front, sep);
        let joined = join(front, sep);
        lemma_split_on_push(joined, sep, sep);
        lemma_split_on_append(joined.push(sep), sep, last);
        assert(front.push(nothing).drop_last() == front);
        assert(front.push(nothing).last() + last == last);
        assert(front.push(last) == pieces);
    }
}

/// The pieces of `v` between the occurrences of `sep`.
pub fn split_pieces(v: &[char], sep: char) -> (r: Vec<String>)
    ensures
        texts(r@) == split_on(v@, sep),
        r@.len() >= 1,
{
    let mut r: Vec<String> = Vec::new();
    let mut piece: String = String::new();
    assert(v@.take(0) == piece@);
    assert(texts(r@).push(piece@) == seq![piece@]);
    for i in 0..v.len()
        invariant
            texts(r@).push(piece@) == split_on(v@.take(i as int), sep),
    {
        proof {
            lemma_split_on_push(v@.take(i as int), sep, v@[i as int]);
            assert(v@.take(i + 1) == v@.take(i as int).push(v@[i as int]));
            assert(texts(r@).push(piece@).drop_last() == texts(r@));
            assert(texts(r@).push(piece@).last() == piece@);
        }
        let ghost old_r = r@;
        if v[i] == sep {
            let ghost done = piece@;
            r.push(piece);
            piece = String::new();
            assert(texts(r@) == texts(old_r).push(done));
        } else {
            piece.push(v[i]);
        }
    }
    let ghost old_r = r@;
    let ghost done = piece@;
    r.push(piece);
    assert(texts(r@) == texts(old_r).push(done));
    assert(v@.take(v@.len() as int) == v@);
    r
}

/// The pieces in order, with `sep` between neighbours.
pub fn join_pieces(pieces: &Vec<String>, sep: char) -> (r: String)
    ensures
        r@ == join(texts(pieces@), sep),
{
    let mut r = String::new();
    let ghost all = texts(pieces@);
    for i in 0..pieces.len()
        invariant
            all == texts(pieces@),
            r@ == join(all.take(i as int), sep),
    {
        assert(all.take(i + 1).drop_last() == all.take(i as int));
        if i > 0 {
            r.push(sep);
        } else {
            assert(all.take(1).len() == 1);
            assert(r@ + all[0] == all[0]);
        }
        r.append(pieces[i].as_str());
    }
    assert(all.take(all.len() as int) == all);
    r
}

/// `v` with every CR LF replaced by LF.
pub fn without_carriage_returns(v: &[char]) -> (r: String)
    ensures
        r@ == crlf_to_lf(v@),
{
    let mut r = String::new();
    let mut i: usize = 0;
    let n: usize = v.len();
    assert(v@.skip(0) == v@);
    while i < n
        invariant
            n == v@.len(),
            i <= n,
            r@ + crlf_to_lf(v@.skip(i as int)) == crlf_to_lf(v@),
        decreases n - i,
    {
        let ghost before = r@;
        let ghost rest = v@.skip(i as int);
        if n - i >= 2 && v[i] == '\r' && v[i + 1] == '\n' {
            r.push('\n');
            assert(rest.skip(2) == v@.skip(i + 2));
            assert(before + (seq!['\n'] + crlf_to_lf(rest.skip(2))) == before.push('\n')
                + crlf_to_lf(rest.skip(2)));
            i = i + 2;
        } else {
            r.push(v[i]);
            assert(rest.skip(1) == v@.skip(i + 1));
            assert(before + (seq![rest[0]] + crlf_to_lf(rest.skip(1))) == before.push(rest[0])
                + crlf_to_lf(rest.skip(1)));
            i = i + 1;
        }
    }
    assert(crlf_to_lf(v@.skip(n as int)) == Seq::<char>::empty());
    r
}

/// `v` with every LF replaced by CR LF.
pub fn with_carriage_returns(v: &[char]) -> (r: String)
    ensures
        r@ == lf_to_crlf(v@),
{
    let mut r = String::new();
    assert(v@.skip(0) == v@);
    for i in 0..v.len()
        invariant
            r@ + lf_to_crlf(v@.skip(i as int)) == lf_to_crlf(v@),
    {
        let ghost before = r@;
        let ghost rest = v@.skip(i as int);
        assert(rest.skip(1) == v@.skip(i + 1));
        if v[i] == '\n' {
            r.push('\r');
            r.push('\n');
            assert(before + (seq!['\r', '\n'] + lf_to_crlf(rest.skip(1))) == before.push('\r').push(
                '\n',
            ) + lf_to_crlf(rest.skip(1)));
        } else {
            r.push(v[i]);
            assert(before + (seq![rest[0]] + lf_to_crlf(rest.skip(1))) == before.push(rest[0])
                + lf_to_crlf(rest.skip(1)));
        }
    }
    assert(lf_to_crlf(v@.skip(v@.len() as int)) == Seq::<char>::empty());
    r
}

/// The text between two byte offsets.
pub fn slice<'a>(text: &'a str, from: usize, to: usize) -> (r: &'a str)
    requires
        boundary(text@, from as int),
        boundary(text@, to as int),
        from <= to <= encode_utf8(text@).len(),
    ensures
        r@ == part(text@, from as int, to as int),
{
    broadcast use {vstd::utf8::encode_utf8_valid_utf8, vstd::utf8::encode_utf8_decode_utf8};

    proof {
        lemma_boundary_of_front(encode_utf8(text@), from as int, to as int);
    }
    let (front, _) = text.split_at(to);
    let (_, middle) = front.split_at(from);
    assert(encode_utf8(front@).subrange(from as int, to as int) == encode_utf8(text@).subrange(
        from as int,
        to as int,
    ));
    middle
}

/// The text from a byte offset to the end.
pub fn slice_from<'a>(text: &'a str, from: usize) -> (r: &'a str)
    requires
        boundary(text@, from as int),
    ensures
        r@ == part(text@, from as int, encode_utf8(text@).len() as int),
{
    broadcast use {vstd::utf8::encode_utf8_valid_utf8, vstd::utf8::encode_utf8_decode_utf8};

    let (_, rest) = text.split_at(from);
    rest
}

} // verus!
