//! What the operations on text come to.
use crate::pattern::all_white;
use crate::text::contains_text;
use crate::text::crlf_to_lf;
use crate::text::find_from;
use crate::text::has_prefix;
use crate::text::join;
use crate::text::lemma_find_from;
use crate::text::lemma_split_on_len;
use crate::text::lemma_trim_start_len;
use crate::text::lemma_word_len;
use crate::text::lf_to_crlf;
use crate::text::occurs_at;
use crate::text::replace_first;
use crate::text::split_on;
use crate::text::texts;
use crate::text::trim;
use crate::text::trim_end;
use crate::text::trim_start;
use crate::text::white;
use crate::text::word_len;
use crate::text::words;
use vstd::prelude::*;

verus! {

// ---------------------------------------------------------------------------------------------
// Occurrences
// ---------------------------------------------------------------------------------------------

/// A text holds another one if and only if that stands somewhere in it, character by character, and
/// begins with it if and only if that stands at its start.
pub proof fn law_occurrences(text: Seq<char>, what: Seq<char>, before: Seq<char>, after: Seq<char>)
    ensures
        contains_text(before + what + after, what),
        has_prefix(what + after, what),
        contains_text(text, what) ==> exists|i: int|
            0 <= i && i + what.len() <= text.len() && text == #[trigger] text.take(i) + what
                + text.skip(i + what.len()),
        has_prefix(text, what) <==> what.len() <= text.len() && forall|k: int|
            0 <= k < what.len() ==> text[k] == #[trigger] what[k],
{
    let all = before + what + after;
    let at = before.len() as int;
    assert(all.subrange(at, at + what.len()) == what);
    assert(occurs_at(all, what, at));
    let front = what + after;
    assert(front.subrange(0, what.len() as int) == what);
    if contains_text(text, what) {
        let i = choose|i: int| occurs_at(text, what, i);
        assert(text == text.take(i) + text.subrange(i, i + what.len()) + text.skip(i + what.len()));
    }
    if has_prefix(text, what) {
        assert forall|k: int| 0 <= k < what.len() implies text[k] == #[trigger] what[k] by {
            assert(text.subrange(0, what.len() as int)[k] == what[k]);
        }
    }
    if what.len() <= text.len() && forall|k: int|
        0 <= k < what.len() ==> text[k] == #[trigger] what[k] {
        assert(text.subrange(0, what.len() as int) == what);
    }
}

/// Replacing the first occurrence leaves what stands before it and what stands after it; a text without
/// an occurrence stays as it is.
pub proof fn law_first_is_replaced(
    before: Seq<char>,
    what: Seq<char>,
    after: Seq<char>,
    to: Seq<char>,
)
    ensures
        (forall|i: int| i < before.len() ==> !occurs_at(before + what + after, what, i))
            ==> replace_first(before + what + after, what, to) == before + to + after,
        !contains_text(before, what) ==> replace_first(before, what, to) == before,
{
    let all = before + what + after;
    let at = before.len() as int;
    assert(all.subrange(at, at + what.len()) == what);
    assert(occurs_at(all, what, at));
    lemma_find_from(all, what, 0);
    lemma_find_from(before, what, 0);
    if forall|i: int| i < before.len() ==> !occurs_at(all, what, i) {
        assert(find_from(all, what, 0) == Some(at));
        assert(all.take(at) == before);
        assert(all.skip(at + what.len()) == after);
    }
}

// ---------------------------------------------------------------------------------------------
// White space
// ---------------------------------------------------------------------------------------------

/// The characters of white space, each of them.
pub proof fn law_white_space(c: char)
    ensures
        white(c) <==> seq![
            '\t',
            '\n',
            '\u{b}',
            '\u{c}',
            '\r',
            ' ',
            '\u{85}',
            '\u{a0}',
            '\u{1680}',
            '\u{2000}',
            '\u{2001}',
            '\u{2002}',
            '\u{2003}',
            '\u{2004}',
            '\u{2005}',
            '\u{2006}',
            '\u{2007}',
            '\u{2008}',
            '\u{2009}',
            '\u{200a}',
            '\u{2028}',
            '\u{2029}',
            '\u{202f}',
            '\u{205f}',
            '\u{3000}',
        ].contains(c),
{
    let list = seq![
        '\t',
        '\n',
        '\u{b}',
        '\u{c}',
        '\r',
        ' ',
        '\u{85}',
        '\u{a0}',
        '\u{1680}',
        '\u{2000}',
        '\u{2001}',
        '\u{2002}',
        '\u{2003}',
        '\u{2004}',
        '\u{2005}',
        '\u{2006}',
        '\u{2007}',
        '\u{2008}',
        '\u{2009}',
        '\u{200a}',
        '\u{2028}',
        '\u{2029}',
        '\u{202f}',
        '\u{205f}',
        '\u{3000}',
    ];
    if white(c) {
        let at: int = if c <= '\r' {
            c as int - 9
        } else if c == ' ' {
            5
        } else if c == '\u{85}' {
            6
        } else if c == '\u{a0}' {
            7
        } else if c == '\u{1680}' {
            8
        } else if c <= '\u{200a}' {
            c as int - 0x2000 + 9
        } else if c == '\u{2028}' {
            20
        } else if c == '\u{2029}' {
            21
        } else if c == '\u{202f}' {
            22
        } else if c == '\u{205f}' {
            23
        } else {
            24
        };
        assert(list[at] == c);
    }
}

/// The text has no white space at its ends.
pub open spec fn is_trimmed(s: Seq<char>) -> bool {
    s.len() > 0 ==> !white(s[0]) && !white(s.last())
}

/// Exactly the white space at the start is dropped from the start.
pub proof fn law_start_is_trimmed(before: Seq<char>, s: Seq<char>)
    requires
        all_white(before),
        s.len() > 0 ==> !white(s[0]),
    ensures
        trim_start(before + s) == s,
    decreases before.len(),
{
    if before.len() == 0 {
        assert(before + s == s);
    } else {
        assert(white(before[0]));
        let rest = before.skip(1);
        assert forall|i: int| 0 <= i < rest.len() implies white(#[trigger] rest[i]) by {
            assert(white(before[i + 1]));
        }
        assert((before + s).skip(1) == rest + s);
        law_start_is_trimmed(rest, s);
    }
}

/// Exactly the white space at the end is dropped from the end.
pub proof fn law_end_is_trimmed(s: Seq<char>, after: Seq<char>)
    requires
        s.len() > 0 ==> !white(s.last()),
        all_white(after),
    ensures
        trim_end(s + after) == s,
    decreases after.len(),
{
    if after.len() == 0 {
        assert(s + after == s);
    } else {
        assert(white(after[after.len() - 1]));
        let rest = after.drop_last();
        assert forall|i: int| 0 <= i < rest.len() implies white(#[trigger] rest[i]) by {
            assert(white(after[i]));
        }
        assert((s + after).drop_last() == s + rest);
        law_end_is_trimmed(s, rest);
    }
}

/// Exactly the white space at both ends is dropped from a text.
pub proof fn law_ends_are_trimmed(before: Seq<char>, s: Seq<char>, after: Seq<char>)
    requires
        all_white(before),
        is_trimmed(s),
        all_white(after),
    ensures
        trim(before + s + after) == s,
{
    assert(before + s + after == before + (s + after));
    if s.len() > 0 {
        assert((s + after)[0] == s[0]);
        law_start_is_trimmed(before, s + after);
        law_end_is_trimmed(s, after);
    } else {
        let space = before + after;
        assert forall|i: int| 0 <= i < space.len() implies white(#[trigger] space[i]) by {
            if i < before.len() {
                assert(white(before[i]));
            } else {
                assert(white(after[i - before.len()]));
            }
        }
        assert(before + s + after == space + s);
        law_start_is_trimmed(space, s);
    }
}

// ---------------------------------------------------------------------------------------------
// Words
// ---------------------------------------------------------------------------------------------

/// The words before a character of white space and those after it are the words of the whole.
pub proof fn law_words_are_parted(a: Seq<char>, space: char, b: Seq<char>)
    requires
        white(space),
    ensures
        words(a + seq![space] + b) == words(a) + words(b),
    decreases a.len(),
{
    let all = a + seq![space] + b;
    let none = Seq::<Seq<char>>::empty();
    if a.len() == 0 {
        assert(all.skip(1) == b);
        lemma_words_after_space(all);
        assert(words(a) == none);
        assert(none + words(b) == words(b));
    } else if white(a[0]) {
        assert(all.skip(1) == a.skip(1) + seq![space] + b);
        lemma_words_after_space(all);
        lemma_words_after_space(a);
        law_words_are_parted(a.skip(1), space, b);
    } else {
        lemma_word_len(a);
        let n = word_len(a) as int;
        lemma_word_of_front(a, space, b);
        assert(n > 0);
        assert(all.take(n) == a.take(n));
        assert(all.skip(n) == a.skip(n) + seq![space] + b);
        assert(words(all) == seq![all.take(n)] + words(all.skip(n)));
        assert(words(a) == seq![a.take(n)] + words(a.skip(n)));
        law_words_are_parted(a.skip(n), space, b);
        assert(seq![a.take(n)] + (words(a.skip(n)) + words(b)) == words(a) + words(b));
    }
}

proof fn lemma_words_after_space(s: Seq<char>)
    requires
        s.len() > 0,
        white(s[0]),
    ensures
        words(s) == words(s.skip(1)),
{
    lemma_trim_start_len(s.skip(1));
}

proof fn lemma_word_of_front(a: Seq<char>, space: char, b: Seq<char>)
    requires
        white(space),
    ensures
        word_len(a + seq![space] + b) == word_len(a),
    decreases a.len(),
{
    let all = a + seq![space] + b;
    if a.len() == 0 {
        assert(all[0] == space);
    } else if !white(a[0]) {
        assert(all.skip(1) == a.skip(1) + seq![space] + b);
        lemma_word_of_front(a.skip(1), space, b);
    }
}

/// A text without white space is one word, and an empty text has none.
pub proof fn law_one_word(s: Seq<char>)
    requires
        forall|i: int| 0 <= i < s.len() ==> !white(#[trigger] s[i]),
    ensures
        s.len() > 0 ==> words(s) == seq![s],
        s.len() == 0 ==> words(s) == Seq::<Seq<char>>::empty(),
{
    if s.len() > 0 {
        assert(!white(s[0]));
        lemma_all_of_word(s);
        assert(s.take(s.len() as int) == s);
        assert(words(s.skip(s.len() as int)) == Seq::<Seq<char>>::empty());
        assert(words(s) == seq![s] + Seq::<Seq<char>>::empty());
    }
}

proof fn lemma_all_of_word(s: Seq<char>)
    requires
        forall|i: int| 0 <= i < s.len() ==> !white(#[trigger] s[i]),
    ensures
        word_len(s) == s.len(),
    decreases s.len(),
{
    if s.len() > 0 {
        assert(!white(s[0]));
        assert forall|i: int| 0 <= i < s.skip(1).len() implies !white(#[trigger] s.skip(1)[i]) by {
            assert(!white(s[i + 1]));
        }
        lemma_all_of_word(s.skip(1));
    }
}

// ---------------------------------------------------------------------------------------------
// Lines
// ---------------------------------------------------------------------------------------------

/// Joined pieces stand one after the other, with the separator between them and nowhere else.
pub proof fn law_pieces_are_joined(a: Seq<Seq<char>>, b: Seq<Seq<char>>, sep: char)
    requires
        a.len() > 0,
        b.len() > 0,
    ensures
        join(a + b, sep) == join(a, sep) + seq![sep] + join(b, sep),
        a.len() == 1 ==> join(a, sep) == a[0],
    decreases b.len(),
{
    let all = a + b;
    assert(all.last() == b.last());
    assert(all.drop_last() == a + b.drop_last());
    if b.len() == 1 {
        assert(a + b.drop_last() == a);
        assert(join(all, sep) == join(a, sep).push(sep) + b[0]);
        assert(join(all, sep) == join(a, sep) + seq![sep] + join(b, sep));
    } else {
        law_pieces_are_joined(a, b.drop_last(), sep);
        assert(join(all, sep) == join(a + b.drop_last(), sep).push(sep) + b.last());
        assert(join(all, sep) == join(a, sep) + seq![sep] + join(b, sep));
    }
}

/// The pieces that a text is split into make up the text.
#[verifier::spinoff_prover]
#[verifier::rlimit(40)]
pub proof fn law_split_loses_nothing(s: Seq<char>, sep: char)
    ensures
        join(split_on(s, sep), sep) == s,
    decreases s.len(),
{
    if s.len() > 0 {
        let tail = s.skip(1);
        let rest = split_on(tail, sep);
        let all = split_on(s, sep);
        lemma_split_on_len(tail, sep);
        law_split_loses_nothing(tail, sep);
        if s[0] == sep {
            let nothing = seq![Seq::<char>::empty()];
            law_pieces_are_joined(nothing, rest, sep);
            assert(join(all, sep) == seq![sep] + tail);
        } else if rest.len() == 1 {
            assert(all == seq![seq![s[0]] + rest[0]]);
            assert(join(all, sep) == seq![s[0]] + tail);
        } else {
            let first = seq![rest[0]];
            let more = rest.skip(1);
            assert(rest == first + more);
            assert(all == seq![seq![s[0]] + rest[0]] + more);
            law_pieces_are_joined(first, more, sep);
            law_pieces_are_joined(seq![seq![s[0]] + rest[0]], more, sep);
            assert(join(all, sep) == seq![s[0]] + tail);
        }
        assert(s == seq![s[0]] + tail);
    }
}

/// Each line feed, and nothing else, gets a carriage return before it.
pub proof fn law_returns_are_added(a: Seq<char>, b: Seq<char>, c: char)
    ensures
        lf_to_crlf(a + b) == lf_to_crlf(a) + lf_to_crlf(b),
        lf_to_crlf(seq!['\n']) == seq!['\r', '\n'],
        c != '\n' ==> lf_to_crlf(seq![c]) == seq![c],
        lf_to_crlf(Seq::empty()) == Seq::<char>::empty(),
    decreases a.len(),
{
    assert(seq!['\n'].skip(1) == Seq::<char>::empty());
    assert(seq![c].skip(1) == Seq::<char>::empty());
    assert(lf_to_crlf(Seq::empty()) == Seq::<char>::empty());
    assert(lf_to_crlf(seq!['\n']) == seq!['\r', '\n']);
    if a.len() == 0 {
        assert(a + b == b);
    } else {
        assert((a + b).skip(1) == a.skip(1) + b);
        law_returns_are_added(a.skip(1), b, c);
    }
}

/// Each carriage return before a line feed, and nothing else, is dropped.
#[verifier::spinoff_prover]
#[verifier::rlimit(40)]
pub proof fn law_returns_are_dropped(a: Seq<char>, b: Seq<char>)
    ensures
        crlf_to_lf(a + seq!['\r', '\n'] + b) == crlf_to_lf(a) + seq!['\n'] + crlf_to_lf(b),
        !contains_text(a, seq!['\r', '\n']) ==> crlf_to_lf(a) == a,
    decreases a.len(),
{
    let end = seq!['\r', '\n'];
    let all = a + end + b;
    if a.len() == 0 {
        assert(all.skip(2) == b);
        assert(crlf_to_lf(all) == seq!['\n'] + crlf_to_lf(b));
    } else if a.len() >= 2 && a[0] == '\r' && a[1] == '\n' {
        assert(all[0] == a[0] && all[1] == a[1]);
        assert(all.skip(2) == a.skip(2) + end + b);
        law_returns_are_dropped(a.skip(2), b);
        assert(a.subrange(0, 2) == end);
        assert(occurs_at(a, end, 0));
        assert(crlf_to_lf(all) == crlf_to_lf(a) + seq!['\n'] + crlf_to_lf(b));
    } else {
        assert(all[0] == a[0]);
        if a.len() == 1 {
            assert(all[1] == '\r');
        } else {
            assert(all[1] == a[1]);
        }
        assert(all.skip(1) == a.skip(1) + end + b);
        law_returns_are_dropped(a.skip(1), b);
        assert(crlf_to_lf(all) == crlf_to_lf(a) + seq!['\n'] + crlf_to_lf(b));
        let rest = a.skip(1);
        if contains_text(rest, end) {
            let i = choose|i: int| occurs_at(rest, end, i);
            assert(a.subrange(i + 1, i + 3) == rest.subrange(i, i + 2));
            assert(occurs_at(a, end, i + 1));
        }
        assert(seq![a[0]] + rest == a);
    }
}

/// Line ends in LF survive the way to CR LF and back.
pub proof fn law_line_feeds_return(s: Seq<char>)
    ensures
        crlf_to_lf(lf_to_crlf(s)) == s,
    decreases s.len(),
{
    if s.len() > 0 {
        let rest = s.skip(1);
        let more = lf_to_crlf(rest);
        let all = lf_to_crlf(s);
        law_line_feeds_return(rest);
        if s[0] == '\n' {
            assert(all == seq!['\r', '\n'] + more);
            assert(all.skip(2) == more);
        } else {
            assert(all == seq![s[0]] + more);
            assert(all.skip(1) == more);
            if more.len() > 0 {
                assert(all[1] == more[0]);
                assert(more[0] != '\n');
            }
        }
        assert(seq![s[0]] + rest == s);
    }
}

/// The texts of a list of strings are those of its strings, in order.
pub proof fn law_texts(list: Seq<String>)
    ensures
        texts(list).len() == list.len(),
        forall|i: int| 0 <= i < list.len() ==> #[trigger] texts(list)[i] == list[i]@,
{
}

} // verus!
