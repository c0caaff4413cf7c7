//! Attributes among the characters of a tag.
use crate::pattern::all_white;
use crate::pattern::attribute_text;
use crate::pattern::is_attribute;
use crate::pattern::is_first_attribute;
use crate::pattern::lemma_match_place;
use crate::pattern::made_of;
use crate::pattern::Found;
use crate::text::part;
use crate::text::white;
use vstd::prelude::*;

verus! {

// ---------------------------------------------------------------------------------------------
// Model
// ---------------------------------------------------------------------------------------------

/// A character that a name can hold.
pub open spec fn is_name_char(c: char) -> bool {
    !white(c) && c != '=' && c != '"' && c != '\'' && c != '<' && c != '>'
}

/// A name that an attribute can have.
pub open spec fn is_name(name: Seq<char>) -> bool {
    &&& name.len() > 0
    &&& forall|k: int| 0 <= k < name.len() ==> is_name_char(#[trigger] name[k])
}

/// The text of an attribute up to the quote that opens its value.
pub open spec fn opening_text(
    space: char,
    name: Seq<char>,
    before: Seq<char>,
    after: Seq<char>,
    quote: char,
) -> Seq<char> {
    seq![space] + name + before + seq!['='] + after + seq![quote]
}

/// `s` is the text of an attribute with the given name up to the quote that opens its value.
pub open spec fn opens_value(s: Seq<char>, name: Seq<char>, quote: char) -> bool {
    exists|space: char, before: Seq<char>, after: Seq<char>|
        {
            &&& s == #[trigger] opening_text(space, name, before, after, quote)
            &&& white(space)
            &&& all_white(before)
            &&& all_white(after)
            &&& quote == '"' || quote == '\''
        }
}

/// No attribute with the given name starts before `p`.
pub open spec fn none_starts_before(attrs: Seq<char>, name: Seq<char>, p: int) -> bool {
    forall|i: int, j: int|
        0 <= i <= j <= attrs.len() && i < p ==> !is_attribute(#[trigger] attrs.subrange(i, j), name)
}

/// A setting of the attribute goes to `p`: the first attribute with the name starts there, or there is
/// none and `p` is the end.
pub open spec fn is_place(attrs: Seq<char>, name: Seq<char>, p: int) -> bool {
    &&& 0 <= p <= attrs.len()
    &&& none_starts_before(attrs, name, p)
    &&& p == attrs.len() || exists|j: int|
        p <= j <= attrs.len() && is_attribute(#[trigger] attrs.subrange(p, j), name)
}

/// Where a setting of the attribute goes.
pub open spec fn place_of(attrs: Seq<char>, name: Seq<char>) -> int {
    choose|p: int| is_place(attrs, name, p)
}

// ---------------------------------------------------------------------------------------------
// Facts
// ---------------------------------------------------------------------------------------------

/// Where the pieces of an attribute stand in a text.
pub proof fn lemma_attribute_pieces(
    t: Seq<char>,
    i: int,
    j: int,
    space: char,
    name: Seq<char>,
    before: Seq<char>,
    after: Seq<char>,
    quote: char,
    value: Seq<char>,
)
    requires
        0 <= i <= j <= t.len(),
        made_of(t.subrange(i, j), space, name, before, after, quote, value),
    ensures
        ({
            let n = i + 1 + name.len();
            let p = n + before.len() + 1;
            let q = p + after.len() + 1;
            &&& j == q + value.len() + 1
            &&& forall|k: int| n <= k < p - 1 ==> white(#[trigger] t[k])
            &&& t[p - 1] == '='
            &&& forall|k: int| p <= k < q - 1 ==> white(#[trigger] t[k])
            &&& t[q - 1] == quote
            &&& forall|k: int| q <= k < j - 1 ==> #[trigger] t[k] != quote
            &&& t[j - 1] == quote
        }),
{
    let s = t.subrange(i, j);
    let n = i + 1 + name.len();
    let p = n + before.len() + 1;
    let q = p + after.len() + 1;
    assert(s.len() == 1 + name.len() + before.len() + 1 + after.len() + 1 + value.len() + 1);
    assert forall|k: int| i <= k < j implies #[trigger] t[k] == s[k - i] by {}
    assert forall|k: int| n <= k < p - 1 implies white(#[trigger] t[k]) by {
        assert(t[k] == before[k - n]);
    }
    assert forall|k: int| p <= k < q - 1 implies white(#[trigger] t[k]) by {
        assert(t[k] == after[k - p]);
    }
    assert forall|k: int| q <= k < j - 1 implies #[trigger] t[k] != quote by {
        assert(t[k] == value[k - q]);
    }
}

/// Two attributes with one name that start at one place are the same.
pub proof fn lemma_same_attribute(t: Seq<char>, name: Seq<char>, i: int, j: int, k: int)
    requires
        0 <= i <= j <= t.len(),
        i <= k <= t.len(),
        is_attribute(t.subrange(i, j), name),
        is_attribute(t.subrange(i, k), name),
    ensures
        j == k,
{
    let (space1, before1, after1, quote1, value1) = choose|
        space: char,
        before: Seq<char>,
        after: Seq<char>,
        quote: char,
        value: Seq<char>,
    |
        made_of(t.subrange(i, j), space, name, before, after, quote, value);
    let (space2, before2, after2, quote2, value2) = choose|
        space: char,
        before: Seq<char>,
        after: Seq<char>,
        quote: char,
        value: Seq<char>,
    |
        made_of(t.subrange(i, k), space, name, before, after, quote, value);
    lemma_attribute_pieces(t, i, j, space1, name, before1, after1, quote1, value1);
    lemma_attribute_pieces(t, i, k, space2, name, before2, after2, quote2, value2);
    assert(before1.len() == before2.len());
    assert(after1.len() == after2.len());
}

/// An attribute begins with white space and its name.
pub proof fn lemma_attribute_front(s: Seq<char>, name: Seq<char>)
    requires
        is_attribute(s, name),
    ensures
        s.len() > name.len() + 1,
        white(s[0]),
        s.subrange(1, 1 + name.len() as int) == name,
{
    let (space, before, after, quote, value) = choose|
        space: char,
        before: Seq<char>,
        after: Seq<char>,
        quote: char,
        value: Seq<char>,
    |
        made_of(s, space, name, before, after, quote, value);
    assert(s.subrange(1, 1 + name.len() as int) == name);
}

/// What stands before the first `c` of a text.
proof fn lemma_first(s: Seq<char>, c: char) -> (k: int)
    requires
        s.contains(c),
    ensures
        0 <= k < s.len(),
        s[k] == c,
        !s.take(k).contains(c),
    decreases s.len(),
{
    if s[0] == c {
        assert(s.take(0) == Seq::<char>::empty());
        0
    } else {
        let tail = s.skip(1);
        let i = choose|i: int| 0 <= i < s.len() && s[i] == c;
        assert(tail[i - 1] == c);
        let k = lemma_first(tail, c);
        let front = s.take(k + 1);
        assert forall|j: int| 0 <= j < front.len() implies front[j] != c by {
            if j > 0 {
                assert(tail.take(k)[j - 1] == s[j]);
            }
        }
        k + 1
    }
}

/// Where a value is opened and closed there is an attribute.
pub proof fn lemma_closed_is_attribute(
    attrs: Seq<char>,
    i: int,
    q: int,
    name: Seq<char>,
    quote: char,
)
    requires
        0 <= i <= q <= attrs.len(),
        opens_value(attrs.subrange(i, q), name, quote),
        attrs.skip(q).contains(quote),
    ensures
        exists|e: int| q <= e < attrs.len() && is_attribute(#[trigger] attrs.subrange(i, e + 1), name),
{
    let opening = attrs.subrange(i, q);
    let (space, before, after) = choose|space: char, before: Seq<char>, after: Seq<char>|
        {
            &&& opening == #[trigger] opening_text(space, name, before, after, quote)
            &&& white(space)
            &&& all_white(before)
            &&& all_white(after)
            &&& quote == '"' || quote == '\''
        };
    let k = lemma_first(attrs.skip(q), quote);
    let e = q + k;
    let value = attrs.skip(q).take(k);
    let s = attrs.subrange(i, e + 1);
    assert(s == opening + value + seq![quote]);
    assert(s == attribute_text(space, name, before, after, quote, value));
    assert(made_of(s, space, name, before, after, quote, value));
    assert(q <= e < attrs.len() && is_attribute(attrs.subrange(i, e + 1), name));
}

/// An attribute that starts before a setting is opened before it: what is returned is where its value
/// begins, and the quote around it.
pub proof fn lemma_opened_before(
    x: Seq<char>,
    set: Seq<char>,
    y: Seq<char>,
    name: Seq<char>,
    i: int,
    j: int,
) -> (r: (int, char))
    requires
        is_name(name),
        set.len() > 1,
        set[0] == ' ',
        is_name_char(set[1]),
        0 <= i < x.len(),
        i <= j <= (x + set + y).len(),
        is_attribute((x + set + y).subrange(i, j), name),
    ensures
        i <= r.0 <= x.len(),
        r.0 < j,
        opens_value(x.subrange(i, r.0), name, r.1),
        r.1 == '"' || r.1 == '\'',
        (x + set + y)[j - 1] == r.1,
        forall|k: int| r.0 <= k < j - 1 ==> #[trigger] (x + set + y)[k] != r.1,
{
    let new = x + set + y;
    let at = x.len() as int;
    let s = new.subrange(i, j);
    let (space, before, after, quote, value) = choose|
        space: char,
        before: Seq<char>,
        after: Seq<char>,
        quote: char,
        value: Seq<char>,
    |
        made_of(s, space, name, before, after, quote, value);
    lemma_attribute_pieces(new, i, j, space, name, before, after, quote, value);
    let n = i + 1 + name.len();
    let p = n + before.len() + 1;
    let q = p + after.len() + 1;
    assert(new[at] == ' ');
    assert(new[at + 1] == set[1]);
    if q > at {
        if at < n {
            assert(s[at - i] == name[at - i - 1]);
            assert(new[at] == s[at - i]);
            assert(is_name_char(name[at - i - 1]));
        } else {
            assert(at != p - 1 && at != q - 1);
        }
        assert(false);
    }
    assert(s.take(q - i) == opening_text(space, name, before, after, quote));
    assert(x.subrange(i, q) == s.take(q - i)) by {
        assert forall|k: int| 0 <= k < q - i implies x.subrange(i, q)[k] == s[k] by {
            assert(new[i + k] == x[i + k]);
        }
    }
    assert(opens_value(x.subrange(i, q), name, quote));
    (q, quote)
}

/// The place of a setting is where the first attribute is found, or the end.
pub proof fn lemma_place(found: Option<Found>, attrs: Seq<char>, name: Seq<char>)
    requires
        is_first_attribute(found, attrs, name),
    ensures
        place_of(attrs, name) == match found {
            Some(m) => part(attrs, 0, m.start).len() as int,
            None => attrs.len() as int,
        },
        none_starts_before(attrs, name, place_of(attrs, name)),
{
    let p = match found {
        Some(m) => part(attrs, 0, m.start).len() as int,
        None => attrs.len() as int,
    };
    if let Some(m) = found {
        lemma_match_place(attrs, m);
        let j = part(attrs, 0, m.end).len() as int;
        assert(is_attribute(attrs.subrange(p, j), name));
    }
    assert(is_place(attrs, name, p));
    let q = place_of(attrs, name);
    assert(is_place(attrs, name, q));
    if q < p {
        let j = choose|j: int|
            q <= j <= attrs.len() && is_attribute(#[trigger] attrs.subrange(q, j), name);
        assert(!is_attribute(attrs.subrange(q, j), name));
    }
    if p < q {
        let j = choose|j: int|
            p <= j <= attrs.len() && is_attribute(#[trigger] attrs.subrange(p, j), name);
        assert(!is_attribute(attrs.subrange(p, j), name));
    }
}

} // verus!
