//! Start tags among the characters of a text.
use crate::pattern::is_tag;
use crate::pattern::is_word;
use crate::pattern::lemma_match_place;
use crate::pattern::lies_in;
use crate::pattern::opens_tag;
use crate::pattern::Found;
use crate::text::part;
use vstd::prelude::*;
use vstd::utf8::encode_utf8;

verus! {

/// A start tag.
pub open spec fn start_tag(name: Seq<char>, attrs: Seq<char>, slash: Seq<char>) -> Seq<char> {
    seq!['<'] + name + attrs + slash + seq!['>']
}

/// A text with a start tag in it.
pub open spec fn tag_text(
    name: Seq<char>,
    front: Seq<char>,
    attrs: Seq<char>,
    slash: Seq<char>,
    back: Seq<char>,
) -> Seq<char> {
    front + start_tag(name, attrs, slash) + back
}

/// What stands in a tag before its `>`, which is the first, without the slash.
pub open spec fn is_inner(attrs: Seq<char>, slash: Seq<char>) -> bool {
    &&& attrs.len() > 0 ==> !is_word(attrs[0])
    &&& !attrs.contains('>')
    &&& slash == Seq::<char>::empty() || slash == seq!['/']
    &&& slash.len() == 0 && attrs.len() > 0 ==> attrs.last() != '/'
}

/// How the texts of tags are written.
pub proof fn lemma_tag_names()
    ensures
        "<application"@ == seq!['<'] + "application"@,
        "<meta-data"@ == seq!['<'] + "meta-data"@,
        ">"@ == seq!['>'],
{
    reveal_strlit("<application");
    reveal_strlit("application");
    reveal_strlit("<meta-data");
    reveal_strlit("meta-data");
    reveal_strlit(">");
    assert("<application"@ == seq!['<'] + "application"@);
    assert("<meta-data"@ == seq!['<'] + "meta-data"@);
    assert(">"@ == seq!['>']);
}

proof fn lemma_inner_len(
    a1: Seq<char>,
    s1: Seq<char>,
    b1: Seq<char>,
    a2: Seq<char>,
    s2: Seq<char>,
    b2: Seq<char>,
)
    requires
        is_inner(a1, s1),
        is_inner(a2, s2),
        a1 + s1 + seq!['>'] + b1 == a2 + s2 + seq!['>'] + b2,
    ensures
        a1.len() + s1.len() >= a2.len() + s2.len(),
{
    let n = a1.len() + s1.len() as int;
    let all = a2 + s2 + seq!['>'] + b2;
    assert((a1 + s1 + seq!['>'] + b1)[n] == '>');
    if n < a2.len() {
        assert(all[n] == a2[n]);
    } else if n < a2.len() + s2.len() {
        assert(all[n] == s2[n - a2.len()]);
    }
}

proof fn lemma_same_inner(
    a1: Seq<char>,
    s1: Seq<char>,
    b1: Seq<char>,
    a2: Seq<char>,
    s2: Seq<char>,
    b2: Seq<char>,
)
    requires
        is_inner(a1, s1),
        is_inner(a2, s2),
        a1 + s1 + seq!['>'] + b1 == a2 + s2 + seq!['>'] + b2,
    ensures
        a1 == a2,
        s1 == s2,
        b1 == b2,
{
    let t = a1 + s1 + seq!['>'] + b1;
    lemma_inner_len(a1, s1, b1, a2, s2, b2);
    lemma_inner_len(a2, s2, b2, a1, s1, b1);
    let n = a1.len() + s1.len() as int;
    assert(a1 + s1 == t.take(n));
    assert(a2 + s2 == t.take(n));
    if s1.len() < s2.len() {
        assert((a2 + s2).last() == '/');
        assert((a1 + s1).last() == a1.last());
    }
    if s2.len() < s1.len() {
        assert((a1 + s1).last() == '/');
        assert((a2 + s2).last() == a2.last());
    }
    let k = a1.len() as int;
    assert(a1 == t.take(k) && a2 == t.take(k));
    assert(s1 == t.subrange(k, n) && s2 == t.subrange(k, n));
    assert(b1 == t.skip(n + 1) && b2 == t.skip(n + 1));
}

/// A text is made up around a tag at a given place in one way only.
pub proof fn lemma_same_tag(
    name: Seq<char>,
    f1: Seq<char>,
    a1: Seq<char>,
    s1: Seq<char>,
    b1: Seq<char>,
    f2: Seq<char>,
    a2: Seq<char>,
    s2: Seq<char>,
    b2: Seq<char>,
)
    requires
        tag_text(name, f1, a1, s1, b1) == tag_text(name, f2, a2, s2, b2),
        f1.len() == f2.len(),
        is_inner(a1, s1),
        is_inner(a2, s2),
    ensures
        f1 == f2,
        a1 == a2,
        s1 == s2,
        b1 == b2,
{
    let content = tag_text(name, f1, a1, s1, b1);
    let i = f1.len() as int;
    let n = i + 1 + name.len();
    assert(f1 == content.take(i) && f2 == content.take(i));
    let inner1 = a1 + s1 + seq!['>'] + b1;
    let inner2 = a2 + s2 + seq!['>'] + b2;
    assert(inner1 == content.skip(n) && inner2 == content.skip(n));
    lemma_same_inner(a1, s1, b1, a2, s2, b2);
}

/// A tag that stands in a text has to be found.
pub proof fn lemma_tag_is_open(
    name: Seq<char>,
    front: Seq<char>,
    attrs: Seq<char>,
    slash: Seq<char>,
    back: Seq<char>,
)
    requires
        attrs.len() > 0 ==> !is_word(attrs[0]),
        slash == Seq::<char>::empty() || slash == seq!['/'],
    ensures
        opens_tag(tag_text(name, front, attrs, slash, back), name, front.len() as int),
{
    let content = tag_text(name, front, attrs, slash, back);
    let at = front.len() as int;
    let n = at + 1 + name.len();
    let close = n + attrs.len() + slash.len();
    assert(content.subrange(at, at + (seq!['<'] + name).len()) == seq!['<'] + name);
    assert(content[close] == '>');
    assert(content.skip(n)[close - n] == '>');
    if attrs.len() > 0 {
        assert(content[n] == attrs[0]);
    } else if slash.len() > 0 {
        assert(content[n] == slash[0]);
    }
}

/// A text around a tag that is found in it, which is one that has to be found.
pub proof fn lemma_found_tag(text: Seq<char>, m: Found, name: Seq<char>)
    requires
        lies_in(m, text),
        is_tag(m, text, name),
    ensures
        is_inner(m.groups[1]->0, m.groups[2]->0),
        text == tag_text(
            name,
            part(text, 0, m.start),
            m.groups[1]->0,
            m.groups[2]->0,
            part(text, m.end, encode_utf8(text).len() as int),
        ),
        part(text, m.start, m.end) == start_tag(name, m.groups[1]->0, m.groups[2]->0),
        opens_tag(text, name, part(text, 0, m.start).len() as int),
{
    lemma_match_place(text, m);
    let front = part(text, 0, m.start);
    let back = part(text, m.end, encode_utf8(text).len() as int);
    assert(text == front + part(text, m.start, m.end) + back);
    lemma_tag_is_open(name, front, m.groups[1]->0, m.groups[2]->0, back);
}

/// A tag that is found where one stands is that one.
pub proof fn lemma_found_is_tag(
    text: Seq<char>,
    m: Found,
    name: Seq<char>,
    front: Seq<char>,
    attrs: Seq<char>,
    slash: Seq<char>,
    back: Seq<char>,
)
    requires
        lies_in(m, text),
        is_tag(m, text, name),
        part(text, 0, m.start).len() == front.len(),
        text == tag_text(name, front, attrs, slash, back),
        is_inner(attrs, slash),
    ensures
        m.groups[0] == Some(start_tag(name, attrs, slash)),
        m.groups[1] == Some(attrs),
        m.groups[2] == Some(slash),
        part(text, 0, m.start) == front,
        part(text, m.end, encode_utf8(text).len() as int) == back,
        part(text, 0, m.end).len() == front.len() + start_tag(name, attrs, slash).len(),
{
    lemma_found_tag(text, m, name);
    lemma_match_place(text, m);
    lemma_same_tag(
        name,
        part(text, 0, m.start),
        m.groups[1]->0,
        m.groups[2]->0,
        part(text, m.end, encode_utf8(text).len() as int),
        front,
        attrs,
        slash,
        back,
    );
}

/// A tag that starts before another one does not depend on the attributes of that one, if its name cannot
/// hold a `<`.
pub proof fn lemma_opens_in_both(
    other: Seq<char>,
    name: Seq<char>,
    front: Seq<char>,
    a: Seq<char>,
    b: Seq<char>,
    slash: Seq<char>,
    back: Seq<char>,
    i: int,
)
    requires
        !other.contains('<'),
        i < front.len(),
        opens_tag(tag_text(name, front, b, slash, back), other, i),
    ensures
        opens_tag(tag_text(name, front, a, slash, back), other, i),
{
    let s = tag_text(name, front, a, slash, back);
    let t = tag_text(name, front, b, slash, back);
    let at = front.len() as int;
    let opening = seq!['<'] + other;
    let n = i + 1 + other.len();
    assert forall|k: int| 0 <= k <= at implies #[trigger] s[k] == t[k] by {
        if k < at {
            assert(s[k] == front[k] && t[k] == front[k]);
        }
    }
    assert forall|k: int| 0 <= k < opening.len() implies t[i + k] == #[trigger] opening[k] by {
        assert(t.subrange(i, i + opening.len())[k] == t[i + k]);
    }
    if n > at {
        assert(t[i + (at - i)] == opening[at - i]);
        assert(other[at - i - 1] == '<');
        assert(false);
    }
    assert(s.subrange(i, i + opening.len()) == opening) by {
        assert forall|k: int| 0 <= k < opening.len() implies s[i + k] == opening[k] by {
            assert(s[i + k] == t[i + k]);
            assert(t[i + k] == opening[k]);
        }
    }
    assert(s[n] == t[n]);
    let k = at + 1 + name.len() + a.len() + slash.len();
    assert(s[k] == '>');
    assert(s.skip(n)[k - n] == '>');
}

} // verus!
