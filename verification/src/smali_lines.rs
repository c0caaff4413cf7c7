//! The lines of a Smali file: white space at their ends does not matter to the head.
use crate::pattern::all_white;
use crate::smali_head::after_line;
use crate::smali_head::first_line;
use crate::smali_head::head_of;
use crate::smali_head::lemma_line_len;
use crate::smali_head::lemma_one_line;
use crate::smali_head::line_len;
use crate::smali_head::lines_of;
use crate::smali_head::no_lines;
use crate::smali_head::with_line;
use crate::smali_head::Lines;
use crate::smali_head::SmaliError;
use crate::text::has_prefix;
use crate::text::join;
use crate::text::lemma_split_of_join;
use crate::text::lemma_split_on_len;
use crate::text::lemma_split_on_pieces;
use crate::text::lf_to_crlf;
use crate::text::split_on;
use crate::text::trim;
use crate::text::trim_end;
use crate::text::trim_start;
use crate::text::white;
use vstd::prelude::*;
use vstd::utf8::encode_scalar;
use vstd::utf8::encode_utf8;
use vstd::utf8::last_continuation_byte;
use vstd::utf8::leading_byte_width_1;
use vstd::utf8::leading_byte_width_2;
use vstd::utf8::leading_byte_width_3;
use vstd::utf8::leading_byte_width_4;
use vstd::utf8::second_last_continuation_byte;
use vstd::utf8::third_last_continuation_byte;

verus! {

/// The lines of a text without white space at their ends.
pub open spec fn trimmed_lines(s: Seq<char>) -> Seq<Seq<char>> {
    Seq::new(split_on(s, '\n').len(), |i: int| trim(split_on(s, '\n')[i]))
}

/// What a list of lines up to the first method says, `lines` having been read before them.
pub open spec fn said_by(list: Seq<Seq<char>>, lines: Lines) -> Lines
    decreases list.len(),
{
    if list.len() == 0 || has_prefix(list[0], ".method"@) {
        lines
    } else {
        said_by(list.skip(1), with_line(lines, list[0]))
    }
}

// ---------------------------------------------------------------------------------------------
// Lines of bytes and lines of characters
// ---------------------------------------------------------------------------------------------

proof fn lemma_encode_add(a: Seq<char>, b: Seq<char>)
    ensures
        encode_utf8(a + b) == encode_utf8(a) + encode_utf8(b),
    decreases a.len(),
{
    if a.len() == 0 {
        assert(a + b == b);
    } else {
        assert((a + b).drop_first() == a.drop_first() + b);
        lemma_encode_add(a.drop_first(), b);
    }
}

proof fn lemma_no_line_feed(v: u32)
    by (bit_vector)
    ensures
        v <= 0x7f && v != 0x0a ==> leading_byte_width_1(v) != 0x0a,
        leading_byte_width_2(v) != 0x0a,
        leading_byte_width_3(v) != 0x0a,
        leading_byte_width_4(v) != 0x0a,
        last_continuation_byte(v) != 0x0a,
        second_last_continuation_byte(v) != 0x0a,
        third_last_continuation_byte(v) != 0x0a,
        leading_byte_width_1(0x0a) == 0x0a,
{
}

/// The bytes of a line hold no line feed.
proof fn lemma_encoded_line(s: Seq<char>)
    requires
        !s.contains('\n'),
    ensures
        !encode_utf8(s).contains(0x0a),
    decreases s.len(),
{
    if s.len() > 0 {
        let v = s[0] as u32;
        let rest = s.drop_first();
        lemma_no_line_feed(v);
        assert(s[0] != '\n');
        assert forall|i: int| 0 <= i < rest.len() implies rest[i] != '\n' by {
            assert(s[i + 1] != '\n');
        }
        lemma_encoded_line(rest);
        let first = encode_scalar(v);
        let all = encode_utf8(s);
        vstd::utf8::char_is_scalar(s[0]);
        vstd::utf8::char_u32_cast(s[0], v);
        vstd::utf8::char_u32_cast('\n', 0x0a);
        assert(v != 0x0a);
        assert forall|k: int| 0 <= k < first.len() implies first[k] != 0x0a by {
            if v <= 0x7f {
                assert(first == seq![leading_byte_width_1(v)]);
            } else if v <= 0x7ff {
                assert(first == seq![leading_byte_width_2(v), last_continuation_byte(v)]);
            } else if v <= 0xffff {
                assert(first == seq![
                    leading_byte_width_3(v),
                    second_last_continuation_byte(v),
                    last_continuation_byte(v),
                ]);
            }
        }
        assert forall|i: int| 0 <= i < all.len() implies all[i] != 0x0a by {
            if i < first.len() {
                assert(all[i] == first[i]);
            } else {
                assert(all[i] == encode_utf8(rest)[i - first.len()]);
            }
        }
    }
}

/// A text is its first line, or its first line, a line feed and the rest.
proof fn lemma_first_piece(s: Seq<char>)
    ensures
        split_on(s, '\n').len() >= 1,
        !split_on(s, '\n')[0].contains('\n'),
        split_on(s, '\n').len() == 1 ==> s == split_on(s, '\n')[0],
        split_on(s, '\n').len() > 1 ==> {
            let first = split_on(s, '\n')[0];
            let rest = s.skip(first.len() as int + 1);
            &&& first.len() < s.len()
            &&& s == first + seq!['\n'] + rest
            &&& split_on(s, '\n').skip(1) == split_on(rest, '\n')
        },
    decreases s.len(),
{
    lemma_split_on_len(s, '\n');
    lemma_split_on_pieces(s, '\n', 0);
    if s.len() > 0 {
        let tail = s.skip(1);
        let rest = split_on(tail, '\n');
        let all = split_on(s, '\n');
        lemma_first_piece(tail);
        if s[0] == '\n' {
            assert(all.skip(1) == rest);
            assert(all[0] == Seq::<char>::empty());
            assert(s == all[0] + seq!['\n'] + tail);
        } else {
            assert(all[0] == seq![s[0]] + rest[0]);
            assert(all.skip(1) == rest.skip(1));
            if rest.len() > 1 {
                let n = rest[0].len() as int;
                assert(tail == rest[0] + seq!['\n'] + tail.skip(n + 1));
                assert(s.skip(n + 2) == tail.skip(n + 1));
                assert(s == seq![s[0]] + tail);
                assert(s == all[0] + seq!['\n'] + s.skip(n + 2));
            } else {
                assert(s == seq![s[0]] + tail);
            }
        }
    }
}

/// A line without line feed that is the last.
proof fn lemma_last_line(line: Seq<u8>)
    requires
        !line.contains(0x0a),
    ensures
        line_len(line) == line.len(),
{
    lemma_line_len(line);
    if line_len(line) < line.len() {
        assert(line.contains(line[line_len(line) as int]));
    }
}

proof fn lemma_empty_line(lines: Lines)
    ensures
        !has_prefix(Seq::<char>::empty(), ".method"@),
        with_line(lines, Seq::<char>::empty()) == lines,
{
    reveal_strlit(".method");
    reveal_strlit(".class");
    reveal_strlit(".implements");
}

/// The lines of a text say what the lines of its bytes say.
pub proof fn lemma_lines_of_text(s: Seq<char>, lines: Lines)
    ensures
        lines_of(encode_utf8(s), lines) == Ok::<Lines, SmaliError>(said_by(trimmed_lines(s), lines)),
    decreases s.len(),
{
    let all = split_on(s, '\n');
    let first = all[0];
    let list = trimmed_lines(s);
    let bytes = encode_utf8(s);
    lemma_first_piece(s);
    lemma_encoded_line(first);
    vstd::utf8::encode_utf8_valid_utf8(first);
    vstd::utf8::encode_utf8_decode_utf8(first);
    let line = encode_utf8(first);
    if all.len() == 1 {
        assert(list.skip(1) == Seq::<Seq<char>>::empty());
        if s.len() == 0 {
            lemma_empty_line(lines);
            assert(list[0] == Seq::<char>::empty());
            assert(said_by(list.skip(1), lines) == lines);
            assert(bytes == Seq::<u8>::empty());
        } else {
            assert(bytes.len() > 0) by {
                assert(encode_scalar(s[0] as u32).len() > 0);
            }
            lemma_last_line(line);
            assert(bytes.take(bytes.len() as int) == line);
            let next = with_line(lines, first_line(bytes));
            assert(first_line(bytes) == list[0]);
            assert(after_line(bytes) == Seq::<u8>::empty());
            assert(lines_of(after_line(bytes), next) == Ok::<Lines, SmaliError>(next));
            assert(said_by(list.skip(1), next) == next);
        }
    } else {
        let rest = s.skip(first.len() as int + 1);
        lemma_no_line_feed(0);
        assert(encode_utf8(seq!['\n']) == seq![0x0au8]) by {
            assert(seq!['\n'].drop_first() == Seq::<char>::empty());
            assert(encode_utf8(Seq::<char>::empty()) == Seq::<u8>::empty());
        }
        lemma_encode_add(first + seq!['\n'], rest);
        lemma_encode_add(first, seq!['\n']);
        assert(bytes == line.push(0x0a) + encode_utf8(rest));
        lemma_one_line(line, encode_utf8(rest));
        assert(list.skip(1) == trimmed_lines(rest)) by {
            assert forall|i: int| 0 <= i < trimmed_lines(rest).len() implies list[i + 1]
                == #[trigger] trimmed_lines(rest)[i] by {
                assert(all.skip(1)[i] == all[i + 1]);
            }
        }
        assert(first_line(bytes) == list[0]);
        lemma_lines_of_text(rest, with_line(lines, first_line(bytes)));
    }
}

// ---------------------------------------------------------------------------------------------
// White space
// ---------------------------------------------------------------------------------------------

proof fn lemma_trim_start_after(w: Seq<char>, s: Seq<char>)
    requires
        all_white(w),
    ensures
        trim_start(w + s) == trim_start(s),
    decreases w.len(),
{
    if w.len() == 0 {
        assert(w + s == s);
    } else {
        assert(white(w[0]));
        assert((w + s).skip(1) == w.skip(1) + s);
        assert forall|i: int| 0 <= i < w.skip(1).len() implies white(#[trigger] w.skip(1)[i]) by {
            assert(white(w[i + 1]));
        }
        lemma_trim_start_after(w.skip(1), s);
    }
}

proof fn lemma_trim_end_before(s: Seq<char>, w: Seq<char>)
    requires
        all_white(w),
    ensures
        trim_end(s + w) == trim_end(s),
    decreases w.len(),
{
    if w.len() == 0 {
        assert(s + w == s);
    } else {
        assert(white(w[w.len() - 1]));
        assert((s + w).drop_last() == s + w.drop_last());
        assert forall|i: int| 0 <= i < w.drop_last().len() implies white(
            #[trigger] w.drop_last()[i],
        ) by {
            assert(white(w[i]));
        }
        lemma_trim_end_before(s, w.drop_last());
    }
}

proof fn lemma_trim_start_keeps(s: Seq<char>, w: Seq<char>)
    ensures
        trim_start(s).len() > 0 ==> trim_start(s + w) == trim_start(s) + w,
        trim_start(s).len() == 0 ==> trim_start(s + w) == trim_start(w),
    decreases s.len(),
{
    if s.len() == 0 {
        assert(s + w == w);
    } else if white(s[0]) {
        assert((s + w).skip(1) == s.skip(1) + w);
        lemma_trim_start_keeps(s.skip(1), w);
    }
}

/// White space around a line is trimmed with that of the line.
proof fn lemma_trim_around(before: Seq<char>, s: Seq<char>, after: Seq<char>)
    requires
        all_white(before),
        all_white(after),
    ensures
        trim(before + s + after) == trim(s),
{
    assert(before + s + after == before + (s + after));
    lemma_trim_start_after(before, s + after);
    lemma_trim_start_keeps(s, after);
    if trim_start(s).len() > 0 {
        lemma_trim_end_before(trim_start(s), after);
    } else {
        let nothing = Seq::<char>::empty();
        assert(after + nothing == after);
        lemma_trim_start_after(after, nothing);
    }
}

// ---------------------------------------------------------------------------------------------
// Laws
// ---------------------------------------------------------------------------------------------

/// Two files whose lines differ in nothing but white space at their ends have the same head, or fail for
/// the same reason.
pub proof fn law_head_depends_on_trimmed_lines(a: Seq<char>, b: Seq<char>)
    requires
        trimmed_lines(a) == trimmed_lines(b),
    ensures
        head_of(encode_utf8(a)) == head_of(encode_utf8(b)),
{
    lemma_lines_of_text(a, no_lines());
    lemma_lines_of_text(b, no_lines());
}

/// A text with white space added at the start and the end of each line.
pub open spec fn spaced(s: Seq<char>, before: Seq<Seq<char>>, after: Seq<Seq<char>>) -> Seq<char> {
    join(
        Seq::new(
            split_on(s, '\n').len(),
            |i: int| before[i] + split_on(s, '\n')[i] + after[i],
        ),
        '\n',
    )
}

/// White space that is added at the ends of lines, without a line feed among it, does not matter to the
/// head.
pub proof fn law_head_ignores_added_space(
    s: Seq<char>,
    before: Seq<Seq<char>>,
    after: Seq<Seq<char>>,
)
    requires
        forall|i: int|
            0 <= i < split_on(s, '\n').len() ==> {
                &&& all_white(#[trigger] before[i])
                &&& all_white(#[trigger] after[i])
                &&& !before[i].contains('\n')
                &&& !after[i].contains('\n')
            },
    ensures
        head_of(encode_utf8(spaced(s, before, after))) == head_of(encode_utf8(s)),
{
    let old = split_on(s, '\n');
    let new = Seq::new(old.len(), |i: int| before[i] + old[i] + after[i]);
    lemma_split_on_len(s, '\n');
    assert forall|i: int| 0 <= i < new.len() implies !(#[trigger] new[i]).contains('\n') by {
        lemma_split_on_pieces(s, '\n', i);
        let b = before[i];
        let a = after[i];
        assert forall|k: int| 0 <= k < new[i].len() implies new[i][k] != '\n' by {
            if k < b.len() {
                assert(new[i][k] == b[k]);
            } else if k < b.len() + old[i].len() {
                assert(new[i][k] == old[i][k - b.len()]);
            } else {
                assert(new[i][k] == a[k - b.len() - old[i].len()]);
            }
        }
    }
    lemma_split_of_join(new, '\n');
    assert forall|i: int| 0 <= i < old.len() implies trim(#[trigger] new[i]) == trim(old[i]) by {
        let b = before[i];
        let a = after[i];
        lemma_trim_around(b, old[i], a);
    }
    assert(trimmed_lines(spaced(s, before, after)) == trimmed_lines(s));
    law_head_depends_on_trimmed_lines(spaced(s, before, after), s);
}

/// The lines of a text with CR LF end in a carriage return, but for the last.
proof fn lemma_crlf_lines(s: Seq<char>)
    ensures
        split_on(lf_to_crlf(s), '\n').len() == split_on(s, '\n').len(),
        forall|i: int|
            0 <= i < split_on(s, '\n').len() ==> #[trigger] split_on(lf_to_crlf(s), '\n')[i] == if i
                < split_on(s, '\n').len() - 1 {
                split_on(s, '\n')[i] + seq!['\r']
            } else {
                split_on(s, '\n')[i]
            },
    decreases s.len(),
{
    lemma_split_on_len(s, '\n');
    if s.len() > 0 {
        let tail = s.skip(1);
        let t = lf_to_crlf(s);
        let u = lf_to_crlf(tail);
        lemma_crlf_lines(tail);
        lemma_split_on_len(tail, '\n');
        lemma_split_on_len(u, '\n');
        if s[0] == '\n' {
            assert(t.skip(1) == seq!['\n'] + u);
            assert((seq!['\n'] + u).skip(1) == u);
            let inner = split_on(t.skip(1), '\n');
            assert(inner == seq![Seq::<char>::empty()] + split_on(u, '\n'));
            assert(split_on(t, '\n') == inner.update(0, seq!['\r'] + inner[0]));
            assert(seq!['\r'] + inner[0] == split_on(s, '\n')[0] + seq!['\r']);
        } else {
            assert(t.skip(1) == u);
            let inner = split_on(u, '\n');
            let old = split_on(tail, '\n');
            assert(split_on(t, '\n') == inner.update(0, seq![s[0]] + inner[0]));
            if old.len() > 1 {
                assert(seq![s[0]] + (old[0] + seq!['\r']) == (seq![s[0]] + old[0]) + seq!['\r']);
            }
        }
    }
}

/// Line ends in CR LF give the same head as line ends in LF.
pub proof fn law_head_ignores_carriage_returns(s: Seq<char>)
    ensures
        head_of(encode_utf8(lf_to_crlf(s))) == head_of(encode_utf8(s)),
{
    let old = split_on(s, '\n');
    let new = split_on(lf_to_crlf(s), '\n');
    lemma_crlf_lines(s);
    let nothing = Seq::<char>::empty();
    assert forall|i: int| 0 <= i < old.len() implies trim(#[trigger] new[i]) == trim(old[i]) by {
        lemma_trim_around(nothing, old[i], seq!['\r']);
        assert(nothing + old[i] + seq!['\r'] == old[i] + seq!['\r']);
    }
    assert(trimmed_lines(lf_to_crlf(s)) == trimmed_lines(s));
    law_head_depends_on_trimmed_lines(lf_to_crlf(s), s);
}

} // verus!
