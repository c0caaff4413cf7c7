//! What the head of a Smali file is: the class in the last line about it, and the interfaces in all lines
//! about them.
use crate::smali_head::after_line;
use crate::smali_head::before_type;
use crate::smali_head::descriptor_name;
use crate::smali_head::first_line;
use crate::smali_head::first_type;
use crate::smali_head::Head;
use crate::smali_head::head_ends_in;
use crate::smali_head::head_of;
use crate::smali_head::is_head;
use crate::smali_head::lemma_line_len;
use crate::smali_head::lemma_line_len_of_front;
use crate::smali_head::lemma_lines_of_front;
use crate::smali_head::lemma_one_line;
use crate::smali_head::line_len;
use crate::smali_head::Lines;
use crate::smali_head::lines_of;
use crate::smali_head::no_lines;
use crate::smali_head::SmaliError;
use crate::smali_head::SmaliHead;
use crate::smali_head::with_line;
use crate::smali_lines::lemma_lines_of_text;
use crate::smali_lines::said_by;
use crate::smali_lines::trimmed_lines;
use crate::text::has_prefix;
use crate::text::texts;
use crate::text::trim;
use crate::text::words;
use vstd::prelude::*;
use vstd::utf8::decode_utf8;
use vstd::utf8::encode_utf8;
use vstd::utf8::valid_utf8;

verus! {

// ---------------------------------------------------------------------------------------------
// Type descriptors
// ---------------------------------------------------------------------------------------------

/// `word` is the type descriptor of the class or interface called `name`.
pub open spec fn describes(word: Seq<char>, name: Seq<char>) -> bool {
    word == seq!['L'] + name + seq![';']
}

/// A type descriptor is an `L`, a name and a semicolon, and everything of that form is one.
pub proof fn law_descriptors(word: Seq<char>, name: Seq<char>)
    ensures
        describes(word, name) <==> descriptor_name(word) == Some(name),
{
    if descriptor_name(word) == Some(name) {
        assert(word == seq!['L'] + name + seq![';']);
    }
    if describes(word, name) {
        assert(word.subrange(1, word.len() - 1) == name);
    }
}

/// The first type among words is that of the first word that is a type descriptor.
pub proof fn law_first_type(list: Seq<Seq<char>>, k: int, name: Seq<char>)
    requires
        0 <= k <= list.len(),
        forall|i: int, other: Seq<char>| 0 <= i < k ==> !#[trigger] describes(list[i], other),
        k < list.len() ==> describes(list[k], name),
    ensures
        before_type(list) == k,
        k < list.len() ==> first_type(list) == Some(name),
        k == list.len() ==> first_type(list) is None,
    decreases k,
{
    if k > 0 {
        if let Some(other) = descriptor_name(list[0]) {
            law_descriptors(list[0], other);
            assert(!describes(list[0], other));
        }
        let rest = list.skip(1);
        assert forall|i: int, other: Seq<char>| 0 <= i < k - 1 implies !#[trigger] describes(
            rest[i],
            other,
        ) by {
            assert(!describes(list[i + 1], other));
        }
        law_first_type(rest, k - 1, name);
    } else if list.len() > 0 {
        law_descriptors(list[0], name);
    }
    if k < list.len() {
        law_descriptors(list[k], name);
    }
}

// ---------------------------------------------------------------------------------------------
// Lines that say something
// ---------------------------------------------------------------------------------------------

/// The words after the directive of a line.
pub open spec fn said_after(line: Seq<char>, directive: Seq<char>) -> Seq<Seq<char>> {
    words(line.skip(directive.len() as int))
}

/// The first `n` of the lines are those before the first method.
pub open spec fn are_before_methods(list: Seq<Seq<char>>, n: int) -> bool {
    &&& 0 <= n <= list.len()
    &&& forall|i: int| 0 <= i < n ==> !has_prefix(#[trigger] list[i], ".method"@)
    &&& n < list.len() ==> has_prefix(list[n], ".method"@)
}

/// Line `j` is the last about the class among the first `n`.
pub open spec fn is_last_class_line(list: Seq<Seq<char>>, n: int, j: int) -> bool {
    &&& 0 <= j < n
    &&& has_prefix(list[j], ".class"@)
    &&& forall|i: int| j < i < n ==> !has_prefix(#[trigger] list[i], ".class"@)
}

/// One of the first `n` lines is about the class and has the word `interface` before the type.
pub open spec fn says_interface_before(list: Seq<Seq<char>>, n: int) -> bool {
    exists|j: int, k: int|
        {
            &&& 0 <= j < n
            &&& has_prefix(#[trigger] list[j], ".class"@)
            &&& 0 <= k < before_type(said_after(list[j], ".class"@))
            &&& #[trigger] said_after(list[j], ".class"@)[k] == "interface"@
        }
}

/// The types in the lines about interfaces, in order.
pub open spec fn interfaces_in(list: Seq<Seq<char>>) -> Seq<Seq<char>>
    decreases list.len(),
{
    if list.len() == 0 {
        Seq::empty()
    } else {
        let before = interfaces_in(list.drop_last());
        match first_type(said_after(list.last(), ".implements"@)) {
            Some(name) => if has_prefix(list.last(), ".implements"@) {
                before.push(name)
            } else {
                before
            },
            None => before,
        }
    }
}

proof fn lemma_directives(line: Seq<char>)
    ensures
        has_prefix(line, ".class"@) ==> !has_prefix(line, ".implements"@),
        has_prefix(line, ".class"@) ==> !has_prefix(line, ".method"@),
        has_prefix(line, ".implements"@) ==> !has_prefix(line, ".method"@),
{
    reveal_strlit(".class");
    reveal_strlit(".implements");
    reveal_strlit(".method");
    if has_prefix(line, ".class"@) {
        assert(line.subrange(0, 6)[1] == 'c');
    }
    if has_prefix(line, ".implements"@) {
        assert(line.subrange(0, 11)[1] == 'i');
    }
    if has_prefix(line, ".method"@) {
        assert(line.subrange(0, 7)[1] == 'm');
    }
}

/// What lines without a method say, one after the other.
proof fn lemma_said_before(list: Seq<Seq<char>>, lines: Lines, n: int)
    requires
        are_before_methods(list, n),
    ensures
        said_by(list, lines) == said_by(list.take(n), lines),
    decreases n,
{
    if n > 0 {
        assert(!has_prefix(list[0], ".method"@));
        let rest = list.skip(1);
        let next = with_line(lines, list[0]);
        assert forall|i: int| 0 <= i < n - 1 implies !has_prefix(#[trigger] rest[i], ".method"@) by {
            assert(!has_prefix(list[i + 1], ".method"@));
        }
        lemma_said_before(rest, next, n - 1);
        assert(list.take(n).skip(1) == rest.take(n - 1));
        assert(list.take(n)[0] == list[0]);
    } else {
        assert(list.take(0) == Seq::<Seq<char>>::empty());
    }
}

proof fn lemma_said_last(list: Seq<Seq<char>>, line: Seq<char>, lines: Lines)
    requires
        forall|i: int| 0 <= i < list.len() ==> !has_prefix(#[trigger] list[i], ".method"@),
        !has_prefix(line, ".method"@),
    ensures
        said_by(list.push(line), lines) == with_line(said_by(list, lines), line),
    decreases list.len(),
{
    let all = list.push(line);
    if list.len() == 0 {
        let rest = all.skip(1);
        assert(rest == Seq::<Seq<char>>::empty());
        assert(said_by(rest, with_line(lines, line)) == with_line(lines, line));
    } else {
        let rest = list.skip(1);
        assert(!has_prefix(list[0], ".method"@));
        assert(all.skip(1) == rest.push(line));
        assert(all[0] == list[0]);
        assert forall|i: int| 0 <= i < rest.len() implies !has_prefix(#[trigger] rest[i], ".method"@)
            by {
            assert(!has_prefix(list[i + 1], ".method"@));
        }
        lemma_said_last(rest, line, with_line(lines, list[0]));
    }
}

/// What the lines before the first method come to.
#[verifier::spinoff_prover]
#[verifier::rlimit(40)]
proof fn lemma_said(list: Seq<Seq<char>>)
    requires
        forall|i: int| 0 <= i < list.len() ==> !has_prefix(#[trigger] list[i], ".method"@),
    ensures
        ({
            let out = said_by(list, no_lines());
            let n = list.len() as int;
            &&& forall|j: int| #[trigger]
                is_last_class_line(list, n, j) ==> out.name == first_type(
                    said_after(list[j], ".class"@),
                )
            &&& out.name is Some ==> exists|j: int| is_last_class_line(list, n, j)
            &&& out.implements == interfaces_in(list)
            &&& out.is_interface == says_interface_before(list, n)
        }),
    decreases list.len(),
{
    let out = said_by(list, no_lines());
    let n = list.len() as int;
    if n == 0 {
        assert(out == no_lines());
    } else {
        let front = list.drop_last();
        let line = list.last();
        let before = said_by(front, no_lines());
        assert(!has_prefix(list[n - 1], ".method"@));
        assert forall|i: int| 0 <= i < front.len() implies !has_prefix(
            #[trigger] front[i],
            ".method"@,
        ) by {
            assert(!has_prefix(list[i], ".method"@));
        }
        lemma_said(front);
        assert(front.push(line) == list);
        lemma_said_last(front, line, no_lines());
        lemma_directives(line);
        assert forall|j: int| #[trigger] is_last_class_line(list, n, j) implies out.name == first_type(
            said_after(list[j], ".class"@),
        ) by {
            if j < n - 1 {
                assert(!has_prefix(list[n - 1], ".class"@));
                assert forall|i: int| j < i < n - 1 implies !has_prefix(
                    #[trigger] front[i],
                    ".class"@,
                ) by {
                    assert(!has_prefix(list[i], ".class"@));
                }
                assert(is_last_class_line(front, n - 1, j));
            }
        }
        if out.name is Some {
            if has_prefix(line, ".class"@) {
                assert(is_last_class_line(list, n, n - 1));
            } else {
                let m = n - 1;
                let j = choose|j: int| is_last_class_line(front, m, j);
                assert forall|i: int| j < i < n implies !has_prefix(#[trigger] list[i], ".class"@) by {
                    if i < n - 1 {
                        assert(!has_prefix(front[i], ".class"@));
                    }
                }
                assert(is_last_class_line(list, n, j));
            }
        }
        let ws = said_after(line, ".class"@);
        let named = ws.take(before_type(ws) as int);
        lemma_before_type(ws);
        if says_interface_before(front, n - 1) {
            let (j, k) = choose|j: int, k: int|
                {
                    &&& 0 <= j < n - 1
                    &&& has_prefix(#[trigger] front[j], ".class"@)
                    &&& 0 <= k < before_type(said_after(front[j], ".class"@))
                    &&& #[trigger] said_after(front[j], ".class"@)[k] == "interface"@
                };
            assert(has_prefix(list[j], ".class"@));
            assert(said_after(list[j], ".class"@)[k] == "interface"@);
        }
        if has_prefix(line, ".class"@) && named.contains("interface"@) {
            let k = choose|k: int| 0 <= k < named.len() && named[k] == "interface"@;
            assert(has_prefix(list[n - 1], ".class"@));
            assert(said_after(list[n - 1], ".class"@)[k] == "interface"@);
        }
        if says_interface_before(list, n) {
            let (j, k) = choose|j: int, k: int|
                {
                    &&& 0 <= j < n
                    &&& has_prefix(#[trigger] list[j], ".class"@)
                    &&& 0 <= k < before_type(said_after(list[j], ".class"@))
                    &&& #[trigger] said_after(list[j], ".class"@)[k] == "interface"@
                };
            if j < n - 1 {
                assert(has_prefix(front[j], ".class"@));
                assert(said_after(front[j], ".class"@)[k] == "interface"@);
            } else {
                assert(named[k] == "interface"@);
            }
        }
    }
}

proof fn lemma_before_type(list: Seq<Seq<char>>)
    ensures
        before_type(list) <= list.len(),
    decreases list.len(),
{
    if list.len() > 0 {
        lemma_before_type(list.skip(1));
    }
}

// ---------------------------------------------------------------------------------------------
// Laws
// ---------------------------------------------------------------------------------------------

/// The head of a text is what its lines before the first method say: the class is the first type in the
/// last line about the class, and there is no head without one; the interfaces are the first types in all
/// lines about interfaces; and it is an interface if a line about the class says so before the type.
#[verifier::spinoff_prover]
#[verifier::rlimit(40)]
pub proof fn law_head_is_what_lines_say(s: Seq<char>, n: int)
    requires
        are_before_methods(trimmed_lines(s), n),
    ensures
        ({
            let list = trimmed_lines(s);
            match head_of(encode_utf8(s)) {
                Ok(head) => {
                    &&& exists|j: int| #[trigger]
                        is_last_class_line(list, n, j) && first_type(
                            said_after(list[j], ".class"@),
                        ) == Some(head.name)
                    &&& head.implements == interfaces_in(list.take(n))
                    &&& head.is_interface == says_interface_before(list, n)
                },
                Err(e) => {
                    &&& e == SmaliError::NoClassLine
                    &&& forall|j: int| #[trigger]
                        is_last_class_line(list, n, j) ==> first_type(
                            said_after(list[j], ".class"@),
                        ) is None
                },
            }
        }),
{
    let list = trimmed_lines(s);
    let front = list.take(n);
    lemma_lines_of_text(s, no_lines());
    lemma_said_before(list, no_lines(), n);
    assert forall|i: int| 0 <= i < front.len() implies !has_prefix(#[trigger] front[i], ".method"@) by {
        assert(!has_prefix(list[i], ".method"@));
    }
    lemma_said(front);
    assert forall|j: int| is_last_class_line(list, n, j) <==> #[trigger] is_last_class_line(
        front,
        n,
        j,
    ) by {
        if is_last_class_line(list, n, j) {
            assert forall|i: int| j < i < n implies !has_prefix(#[trigger] front[i], ".class"@) by {
                assert(!has_prefix(list[i], ".class"@));
            }
        }
        if is_last_class_line(front, n, j) {
            assert forall|i: int| j < i < n implies !has_prefix(#[trigger] list[i], ".class"@) by {
                assert(!has_prefix(front[i], ".class"@));
            }
        }
    }
    assert(says_interface_before(list, n) == says_interface_before(front, n)) by {
        if says_interface_before(list, n) {
            let (j, k) = choose|j: int, k: int|
                {
                    &&& 0 <= j < n
                    &&& has_prefix(#[trigger] list[j], ".class"@)
                    &&& 0 <= k < before_type(said_after(list[j], ".class"@))
                    &&& #[trigger] said_after(list[j], ".class"@)[k] == "interface"@
                };
            assert(has_prefix(front[j], ".class"@));
            assert(said_after(front[j], ".class"@)[k] == "interface"@);
        }
        if says_interface_before(front, n) {
            let (j, k) = choose|j: int, k: int|
                {
                    &&& 0 <= j < n
                    &&& has_prefix(#[trigger] front[j], ".class"@)
                    &&& 0 <= k < before_type(said_after(front[j], ".class"@))
                    &&& #[trigger] said_after(front[j], ".class"@)[k] == "interface"@
                };
            assert(has_prefix(list[j], ".class"@));
            assert(said_after(list[j], ".class"@)[k] == "interface"@);
        }
    }
    let out = said_by(front, no_lines());
    if out.name is Some {
        let j = choose|j: int| is_last_class_line(front, n, j);
        assert(is_last_class_line(list, n, j));
    } else {
        assert forall|j: int| #[trigger] is_last_class_line(list, n, j) implies first_type(
            said_after(list[j], ".class"@),
        ) is None by {
            assert(is_last_class_line(front, n, j));
        }
    }
}

/// Lines that are read to their end without coming to a method: what follows them is read as if it stood
/// alone after them.
proof fn lemma_through(front: Seq<u8>, rest: Seq<u8>, lines: Lines)
    requires
        front.len() > 0 ==> front.last() == 0x0a,
        !head_ends_in(front),
    ensures
        lines_of(front, lines) is Ok,
        lines_of(front + rest, lines) == lines_of(rest, lines_of(front, lines)->Ok_0),
    decreases front.len(),
{
    if front.len() == 0 {
        assert(front + rest == rest);
    } else {
        let n = line_len(front) as int;
        lemma_line_len(front);
        lemma_line_len_of_front(front, rest);
        assert((front + rest).take(n) == front.take(n));
        assert(after_line(front + rest) == after_line(front) + rest);
        lemma_through(after_line(front), rest, with_line(lines, first_line(front)));
    }
}

/// A line before the first method that is about nothing the head needs can be left out, wherever it
/// stands.
pub proof fn law_other_lines_say_nothing(front: Seq<u8>, line: Seq<u8>, rest: Seq<u8>)
    requires
        front.len() > 0 ==> front.last() == 0x0a,
        !line.contains(0x0a),
        valid_utf8(line),
        !has_prefix(trim(decode_utf8(line)), ".method"@),
        !has_prefix(trim(decode_utf8(line)), ".class"@),
        !has_prefix(trim(decode_utf8(line)), ".implements"@),
    ensures
        head_of(front + (line.push(0x0a) + rest)) == head_of(front + rest),
{
    let more = line.push(0x0a) + rest;
    if head_ends_in(front) {
        lemma_lines_of_front(front, more, rest, no_lines());
    } else {
        lemma_through(front, more, no_lines());
        lemma_through(front, rest, no_lines());
        lemma_one_line(line, rest);
    }
}

/// The head ends with the line of the first method: neither that line nor anything after it matters.
pub proof fn law_methods_end_the_head(front: Seq<u8>, line: Seq<u8>, rest: Seq<u8>)
    requires
        front.len() > 0 ==> front.last() == 0x0a,
        !line.contains(0x0a),
        valid_utf8(line),
        has_prefix(trim(decode_utf8(line)), ".method"@),
    ensures
        head_of(front + (line.push(0x0a) + rest)) == head_of(front),
        head_ends_in(front + (line.push(0x0a) + rest)),
{
    let more = line.push(0x0a) + rest;
    let nothing = Seq::<u8>::empty();
    assert(front + nothing == front);
    lemma_one_line(line, rest);
    if head_ends_in(front) {
        lemma_lines_of_front(front, more, nothing, no_lines());
    } else {
        lemma_through(front, more, no_lines());
        lemma_through(front, nothing, no_lines());
    }
    lemma_ends_later(front, more);
}

/// A head that ends in what follows complete lines ends in the whole.
proof fn lemma_ends_later(front: Seq<u8>, rest: Seq<u8>)
    requires
        front.len() > 0 ==> front.last() == 0x0a,
        head_ends_in(rest),
    ensures
        head_ends_in(front + rest),
    decreases front.len(),
{
    if front.len() == 0 {
        assert(front + rest == rest);
    } else {
        let n = line_len(front) as int;
        lemma_line_len(front);
        lemma_line_len_of_front(front, rest);
        assert((front + rest).take(n) == front.take(n));
        assert(after_line(front + rest) == after_line(front) + rest);
        lemma_ends_later(after_line(front), rest);
    }
}

/// A line before the first method has to be valid UTF-8, the last one of a file too.
pub proof fn law_invalid_lines_are_refused(front: Seq<u8>, line: Seq<u8>, rest: Seq<u8>)
    requires
        front.len() > 0 ==> front.last() == 0x0a,
        !head_ends_in(front),
        !line.contains(0x0a),
        !valid_utf8(line),
    ensures
        lines_of(front, no_lines()) is Ok,
        head_of(front + (line.push(0x0a) + rest)) is Err,
        head_of(front + (line.push(0x0a) + rest))->Err_0 == SmaliError::NotUtf8,
        head_of(front + line) is Err,
        head_of(front + line)->Err_0 == SmaliError::NotUtf8,
{
    lemma_through(front, line, no_lines());
    lemma_line_len(line);
    assert(line_len(line) == line.len()) by {
        if line_len(line) < line.len() {
            assert(line.contains(line[line_len(line) as int]));
        }
    }
    assert(line.take(line.len() as int) == line);
    assert(line.len() > 0) by {
        if line.len() == 0 {
            lemma_empty_is_valid(line);
        }
    }
    lemma_through(front, line.push(0x0a) + rest, no_lines());
    lemma_one_line(line, rest);
}

/// What is read of a head is all of it: the name, the interfaces in order and whether it is an interface;
/// or the reason for which there is none.
pub proof fn law_head_is_as_read(r: Result<SmaliHead, SmaliError>, model: Result<Head, SmaliError>)
    requires
        is_head(r, model),
    ensures
        model matches Ok(head) ==> (r matches Ok(read) && {
            &&& read.name@ == head.name
            &&& read.implements@.len() == head.implements.len()
            &&& forall|i: int|
                0 <= i < head.implements.len() ==> (#[trigger] read.implements@[i])@
                    == head.implements[i]
            &&& read.is_interface == head.is_interface
        }),
        model matches Err(e) ==> r == Err::<SmaliHead, SmaliError>(e),
{
    if let Ok(read) = r {
        if let Ok(head) = model {
            assert forall|i: int| 0 <= i < head.implements.len() implies (
            #[trigger] read.implements@[i])@ == head.implements[i] by {
                assert(texts(read.implements@)[i] == read.implements@[i]@);
            }
        }
    }
}

proof fn lemma_empty_is_valid(line: Seq<u8>)
    requires
        line.len() == 0,
    ensures
        valid_utf8(line),
{
    assert(line == encode_utf8(Seq::<char>::empty()));
    vstd::utf8::encode_utf8_valid_utf8(Seq::<char>::empty());
}

} // verus!
