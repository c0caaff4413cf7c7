//! Manifests of the usual form, in which every setting is found again.
use crate::attribute::is_name_char;
use crate::attribute::lemma_attribute_front;
use crate::attribute::lemma_opened_before;
use crate::attribute::lemma_place;
use crate::attribute::opens_value;
use crate::attribute::place_of;
use crate::manifest::after_setting;
use crate::manifest::all_is_found;
use crate::manifest::apart;
use crate::manifest::application_tag;
use crate::manifest::before_setting;
use crate::manifest::has_tag;
use crate::manifest::in_place;
use crate::manifest::keys_are_found;
use crate::manifest::lemma_apart_kept;
use crate::manifest::lemma_attributes_in_text;
use crate::manifest::lemma_known_settings;
use crate::manifest::lemma_setting_in_attributes;
use crate::manifest::lemma_setting_is_inner;
use crate::manifest::lemma_setting_parts;
use crate::manifest::meta_data_tags;
use crate::manifest::modified;
use crate::manifest::new_tag;
use crate::manifest::setting;
use crate::manifest::tag_is_first;
use crate::manifest::with_config;
use crate::manifest::with_keys;
use crate::manifest::with_maps_api_keys;
use crate::manifest::with_setting;
use crate::pattern::attribute_pattern;
use crate::pattern::is_attribute;
use crate::pattern::is_first_attribute;
use crate::pattern::is_tag;
use crate::pattern::lemma_match_place;
use crate::pattern::lemma_replaced_keeps_apart;
use crate::pattern::lies_in;
use crate::pattern::opens_tag;
use crate::pattern::regex_captures;
use crate::tag::is_inner;
use crate::tag::lemma_found_is_tag;
use crate::tag::lemma_found_tag;
use crate::tag::lemma_opens_in_both;
use crate::tag::lemma_tag_is_open;
use crate::tag::start_tag;
use crate::tag::tag_text;
use crate::text::contains_text;
use crate::text::occurs_at;
use crate::text::part;
use crate::text::white;
use vstd::prelude::*;
use vstd::utf8::encode_utf8;

verus! {

// ---------------------------------------------------------------------------------------------
// Model
// ---------------------------------------------------------------------------------------------

/// An attribute with the given name starts before `i` and ends at or before `p`.
pub open spec fn ends_before(attrs: Seq<char>, name: Seq<char>, i: int, p: int) -> bool {
    exists|a: int, b: int|
        0 <= a < i && a <= b <= p && is_attribute(#[trigger] attrs.subrange(a, b), name)
}

/// Wherever the value of `android:debuggable` is opened before the place of the reference to the network
/// security configuration, it is closed before that place; or it is never closed, or there is another
/// such attribute before it.
pub open spec fn marks_are_closed(attrs: Seq<char>) -> bool {
    let p = place_of(attrs, "android:networkSecurityConfig"@);
    forall|i: int, j: int, quote: char|
        0 <= i <= j <= p && #[trigger] opens_value(
            attrs.subrange(i, j),
            "android:debuggable"@,
            quote,
        ) ==> {
            ||| attrs.subrange(j, p).contains(quote)
            ||| quote == '\'' && !attrs.skip(j).contains(quote)
            ||| ends_before(attrs, "android:debuggable"@, i, p)
        }
}

/// The `<meta-data>` tags before the `<application>` tag are closed, and none is mentioned in its
/// attributes.
pub open spec fn keys_are_apart(front: Seq<char>, attrs: Seq<char>) -> bool {
    &&& forall|i: int| #[trigger]
        occurs_at(front, seq!['<'] + "meta-data"@, i) ==> front.skip(i).contains('>')
    &&& !contains_text(attrs, seq!['<'] + "meta-data"@)
}

/// A manifest of the usual form: its first `<application>` tag, what is asked for if the app is to be
/// marked as debuggable, and what is asked for if API keys are to be replaced.
pub open spec fn ordinary(content: Seq<char>, debuggable: bool, keyed: bool) -> bool {
    exists|front: Seq<char>, attrs: Seq<char>, slash: Seq<char>, back: Seq<char>|
        {
            &&& content == #[trigger] tag_text("application"@, front, attrs, slash, back)
            &&& is_inner(attrs, slash)
            &&& forall|i: int| i < front.len() ==> !opens_tag(content, "application"@, i)
            &&& debuggable ==> marks_are_closed(attrs)
            &&& keyed ==> keys_are_apart(front, attrs)
        }
}

// ---------------------------------------------------------------------------------------------
// The `<application>` tag
// ---------------------------------------------------------------------------------------------

/// The first `<application>` tag of a manifest is the one that is found.
proof fn lemma_tag_found(
    content: Seq<char>,
    front: Seq<char>,
    attrs: Seq<char>,
    slash: Seq<char>,
    back: Seq<char>,
)
    requires
        content == tag_text("application"@, front, attrs, slash, back),
        is_inner(attrs, slash),
        forall|i: int| i < front.len() ==> !opens_tag(content, "application"@, i),
        tag_is_first(content),
    ensures
        application_tag(content) matches Some(m) && {
            &&& m.groups[1] == Some(attrs)
            &&& m.groups[2] == Some(slash)
            &&& part(content, 0, m.start) == front
            &&& part(content, m.end, encode_utf8(content).len() as int) == back
        },
{
    lemma_tag_is_open("application"@, front, attrs, slash, back);
    let m = application_tag(content)->0;
    lemma_found_tag(content, m, "application"@);
    assert(part(content, 0, m.start).len() == front.len());
    lemma_found_is_tag(content, m, "application"@, front, attrs, slash, back);
}

/// An `<application>` tag is found if and only if there is one.
pub proof fn lemma_tag_is_there(content: Seq<char>)
    requires
        tag_is_first(content),
    ensures
        application_tag(content) is Some <==> has_tag(content),
{
    if let Some(m) = application_tag(content) {
        lemma_found_tag(content, m, "application"@);
    }
}

/// The tag with new attributes is found where the old one was.
pub proof fn lemma_tag_again(content: Seq<char>, attrs: Seq<char>)
    requires
        tag_is_first(content),
        application_tag(content) is Some,
        is_inner(attrs, application_tag(content)->0.groups[2]->0),
        ({
            let m = application_tag(content)->0;
            tag_is_first(in_place(content, m, new_tag("application"@, m, attrs)))
        }),
    ensures
        ({
            let m = application_tag(content)->0;
            let new = in_place(content, m, new_tag("application"@, m, attrs));
            application_tag(new) matches Some(found) && {
                &&& found.groups[1] == Some(attrs)
                &&& found.groups[2] == m.groups[2]
                &&& part(new, 0, found.start) == part(content, 0, m.start)
                &&& part(new, found.end, encode_utf8(new).len() as int) == part(
                    content,
                    m.end,
                    encode_utf8(content).len() as int,
                )
            }
        }),
{
    let m = application_tag(content)->0;
    let front = part(content, 0, m.start);
    let back = part(content, m.end, encode_utf8(content).len() as int);
    let slash = m.groups[2]->0;
    let new = in_place(content, m, new_tag("application"@, m, attrs));
    lemma_found_tag(content, m, "application"@);
    assert(!"application"@.contains('<')) by {
        reveal_strlit("application");
    }
    assert(new == tag_text("application"@, front, attrs, slash, back));
    assert forall|i: int| i < front.len() implies !opens_tag(new, "application"@, i) by {
        if opens_tag(new, "application"@, i) {
            lemma_opens_in_both(
                "application"@,
                "application"@,
                front,
                m.groups[1]->0,
                attrs,
                slash,
                back,
                i,
            );
        }
    }
    lemma_tag_found(new, front, attrs, slash, back);
}

// ---------------------------------------------------------------------------------------------
// The two settings
// ---------------------------------------------------------------------------------------------

/// The characters of the two attributes that the patcher sets.
proof fn lemma_names()
    ensures
        ({
            let mark = "android:debuggable"@;
            let set = " android:networkSecurityConfig=\"@xml/nsc_mitm\""@;
            &&& mark.len() == 18
            &&& mark[8] == 'd'
            &&& forall|k: int| 0 <= k < mark.len() ==> is_name_char(#[trigger] mark[k])
            &&& set.len() == 46
            &&& set[0] == ' '
            &&& set[1] == 'a'
            &&& set[9] == 'n'
            &&& !set.contains('\'')
            &&& forall|k: int| 0 < k < set.len() ==> !white(#[trigger] set[k])
        }),
{
    reveal_strlit("android:debuggable");
    reveal_strlit(" android:networkSecurityConfig=\"@xml/nsc_mitm\"");
}

/// A mark that starts before the reference ends before it.
proof fn lemma_mark_before_reference(
    attrs: Seq<char>,
    x: Seq<char>,
    y: Seq<char>,
    i: int,
    j: int,
)
    requires
        marks_are_closed(attrs),
        x.len() == place_of(attrs, "android:networkSecurityConfig"@),
        x.len() + y.len() <= attrs.len(),
        attrs.take(x.len() as int) == x,
        attrs.skip(attrs.len() - y.len()) == y,
        ({
            let new = x + " android:networkSecurityConfig=\"@xml/nsc_mitm\""@ + y;
            &&& 0 <= i < x.len()
            &&& i <= j <= new.len()
            &&& is_attribute(new.subrange(i, j), "android:debuggable"@)
            &&& forall|a: int, b: int|
                0 <= a <= b <= new.len() && a < i ==> !is_attribute(
                    #[trigger] new.subrange(a, b),
                    "android:debuggable"@,
                )
        }),
    ensures
        j <= x.len(),
{
    lemma_names();
    let mark = "android:debuggable"@;
    let set = " android:networkSecurityConfig=\"@xml/nsc_mitm\""@;
    let new = x + set + y;
    let p = x.len() as int;
    let from = attrs.len() - y.len();
    let (q, quote) = lemma_opened_before(x, set, y, mark, i, j);
    assert forall|k: int| 0 <= k < p implies #[trigger] x[k] == attrs[k] && new[k] == attrs[k] by {
        assert(attrs.take(p)[k] == x[k]);
    }
    assert(attrs.subrange(i, q) == x.subrange(i, q));
    assert(opens_value(attrs.subrange(i, q), mark, quote));
    if attrs.subrange(q, p).contains(quote) {
        let inner = attrs.subrange(q, p);
        let k = choose|k: int| 0 <= k < inner.len() && inner[k] == quote;
        assert(x[q + k] == quote);
        assert(new[q + k] == quote);
    } else if quote == '\'' && !attrs.skip(q).contains(quote) {
        let rest = attrs.skip(q);
        let e = j - 1;
        if e < p {
            assert(rest[e - q] == x[e]);
        } else if e < p + set.len() {
            assert(new[e] == set[e - p]);
        } else {
            let k = e - p - set.len();
            assert(new[e] == y[k]);
            assert(attrs.skip(from)[k] == y[k]);
            assert(rest[from + k - q] == y[k]);
        }
        assert(false);
    } else {
        let (a, b) = choose|a: int, b: int|
            0 <= a < i && a <= b <= p && is_attribute(#[trigger] attrs.subrange(a, b), mark);
        assert(new.subrange(a, b) == attrs.subrange(a, b)) by {
            assert forall|k: int| a <= k < b implies new[k] == attrs[k] by {
                assert(x[k] == attrs[k]);
            }
        }
        assert(false);
    }
}

/// A mark that does not start before the reference starts after it.
proof fn lemma_mark_after_reference(x: Seq<char>, y: Seq<char>, i: int, j: int)
    requires
        ({
            let new = x + " android:networkSecurityConfig=\"@xml/nsc_mitm\""@ + y;
            &&& x.len() <= i <= j <= new.len()
            &&& is_attribute(new.subrange(i, j), "android:debuggable"@)
        }),
    ensures
        i >= x.len() + " android:networkSecurityConfig=\"@xml/nsc_mitm\""@.len(),
{
    lemma_names();
    let mark = "android:debuggable"@;
    let set = " android:networkSecurityConfig=\"@xml/nsc_mitm\""@;
    let new = x + set + y;
    let at = x.len() as int;
    let found = new.subrange(i, j);
    lemma_attribute_front(found, mark);
    if i < at + set.len() {
        assert(found[0] == set[i - at]);
        assert(i == at);
        assert(found[9] == set[9]);
        assert(found.subrange(1, 1 + mark.len() as int)[8] == found[9]);
    }
}

/// The new reference stands apart from the mark that is found after it is set.
proof fn lemma_reference_apart(attrs: Seq<char>)
    requires
        marks_are_closed(attrs),
        is_first_attribute(
            regex_captures(attribute_pattern("android:networkSecurityConfig"@), attrs),
            attrs,
            "android:networkSecurityConfig"@,
        ),
        ({
            let new = with_setting(
                attrs,
                attribute_pattern("android:networkSecurityConfig"@),
                " android:networkSecurityConfig=\"@xml/nsc_mitm\""@,
            );
            is_first_attribute(
                regex_captures(attribute_pattern("android:debuggable"@), new),
                new,
                "android:debuggable"@,
            )
        }),
    ensures
        apart(
            with_setting(
                attrs,
                attribute_pattern("android:networkSecurityConfig"@),
                " android:networkSecurityConfig=\"@xml/nsc_mitm\""@,
            ),
            attribute_pattern("android:debuggable"@),
            " android:networkSecurityConfig=\"@xml/nsc_mitm\""@,
        ),
{
    let name = "android:networkSecurityConfig"@;
    let pattern = attribute_pattern(name);
    let set = " android:networkSecurityConfig=\"@xml/nsc_mitm\""@;
    let x = before_setting(attrs, pattern);
    let y = after_setting(attrs, pattern);
    let new = with_setting(attrs, pattern, set);
    lemma_setting_parts(attrs, pattern, set);
    lemma_place(regex_captures(pattern, attrs), attrs, name);
    match regex_captures(attribute_pattern("android:debuggable"@), new) {
        None => {
            lemma_setting_in_attributes(attrs, pattern, set);
        },
        Some(m) => {
            lemma_match_place(new, m);
            let f = part(new, 0, m.start);
            let b = part(new, m.end, encode_utf8(new).len() as int);
            let at = x.len() as int;
            let i = f.len() as int;
            let j = part(new, 0, m.end).len() as int;
            if i < at {
                lemma_mark_before_reference(attrs, x, y, i, j);
                assert(b.subrange(at - j, at - j + set.len()) == set);
                assert(occurs_at(b, set, at - j));
            } else {
                lemma_mark_after_reference(x, y, i, j);
                assert(f.subrange(at, at + set.len()) == set);
                assert(occurs_at(f, set, at));
            }
        },
    }
}

// ---------------------------------------------------------------------------------------------
// API keys
// ---------------------------------------------------------------------------------------------

/// A setting without `<` mentions no tag.
proof fn lemma_setting_mentions_none(attrs: Seq<char>, pattern: Seq<char>, set: Seq<char>)
    requires
        !contains_text(attrs, seq!['<'] + "meta-data"@),
        regex_captures(pattern, attrs) matches Some(m) ==> lies_in(m, attrs),
        set.len() > 0,
        set[0] == ' ',
        !set.contains('<'),
    ensures
        !contains_text(with_setting(attrs, pattern, set), seq!['<'] + "meta-data"@),
{
    reveal_strlit("meta-data");
    let opening = seq!['<'] + "meta-data"@;
    let x = before_setting(attrs, pattern);
    let y = after_setting(attrs, pattern);
    let new = with_setting(attrs, pattern, set);
    let from = attrs.len() - y.len();
    lemma_setting_parts(attrs, pattern, set);
    assert forall|i: int| !occurs_at(new, opening, i) by {
        if occurs_at(new, opening, i) {
            let n = x.len() as int;
            let found = new.subrange(i, i + opening.len());
            assert(found[0] == new[i]);
            if i + opening.len() <= n {
                assert(attrs.subrange(i, i + opening.len()) == found) by {
                    assert forall|k: int| i <= k < i + opening.len() implies attrs[k] == new[k] by {
                        assert(attrs.take(n)[k] == x[k]);
                    }
                }
                assert(occurs_at(attrs, opening, i));
            } else if i < n {
                assert(found[n - i] == new[n]);
                assert(new[n] == set[0]);
            } else if i < n + set.len() {
                assert(new[i] == set[i - n]);
            } else {
                let at = from + (i - n - set.len());
                assert(attrs.subrange(at, at + opening.len()) == found) by {
                    assert forall|k: int| 0 <= k < opening.len() implies attrs[at + k] == found[k] by {
                        let j = i - n - set.len() + k;
                        assert(attrs.skip(from)[j] == y[j]);
                        assert(new[i + k] == y[j]);
                    }
                }
                assert(occurs_at(attrs, opening, at));
            }
        }
    }
}

/// Replacing API keys keeps what stands in the attributes of the `<application>` tag.
proof fn lemma_keys_keep_attributes(
    front: Seq<char>,
    attrs: Seq<char>,
    slash: Seq<char>,
    back: Seq<char>,
    key: Seq<char>,
    what: Seq<char>,
)
    requires
        keys_are_apart(front, attrs),
        is_inner(attrs, slash),
        contains_text(attrs, what),
        what.len() > 0,
        keys_are_found(tag_text("application"@, front, attrs, slash, back)),
    ensures
        contains_text(
            with_maps_api_keys(tag_text("application"@, front, attrs, slash, back), key),
            what,
        ),
{
    reveal_strlit("application");
    let content = tag_text("application"@, front, attrs, slash, back);
    let tags = meta_data_tags(content);
    let n = front.len() + 12;
    let j = choose|j: int| occurs_at(attrs, what, j);
    let at = n + j;
    assert(content.subrange(at, at + what.len()) == attrs.subrange(j, j + what.len()));
    assert(occurs_at(content, what, at));
    assert forall|i: int| 0 <= i < tags.len() implies part(
        content,
        0,
        (#[trigger] tags[i]).end,
    ).len() <= at || at + what.len() <= part(content, 0, tags[i].start).len() by {
        let m = tags[i];
        assert(lies_in(m, content));
        assert(is_tag(m, content, "meta-data"@));
        lemma_match_place(content, m);
        lemma_found_tag(content, m, "meta-data"@);
        let start = part(content, 0, m.start).len() as int;
        let end = part(content, 0, m.end).len() as int;
        if start < at + what.len() && end > at {
            lemma_tag_apart(
                front,
                attrs,
                slash,
                back,
                m.groups[1]->0,
                m.groups[2]->0,
                start,
                end,
            );
            assert(false);
        }
    }
    lemma_replaced_keeps_apart(content, tags, with_keys(tags, key), what, at);
}

/// No `<meta-data>` tag starts before the end of the attributes and reaches into them.
proof fn lemma_tag_apart(
    front: Seq<char>,
    attrs: Seq<char>,
    slash: Seq<char>,
    back: Seq<char>,
    ga: Seq<char>,
    gs: Seq<char>,
    start: int,
    end: int,
)
    requires
        keys_are_apart(front, attrs),
        is_inner(ga, gs),
        slash == Seq::<char>::empty() || slash == seq!['/'],
        ({
            let content = tag_text("application"@, front, attrs, slash, back);
            &&& 0 <= start <= end <= content.len()
            &&& content.subrange(start, end) == start_tag("meta-data"@, ga, gs)
        }),
    ensures
        start >= front.len() + 12 + attrs.len() || end <= front.len() + 12,
{
    reveal_strlit("application");
    reveal_strlit("meta-data");
    let content = tag_text("application"@, front, attrs, slash, back);
    let opening = seq!['<'] + "meta-data"@;
    let whole = content.subrange(start, end);
    let n = front.len() + 12;
    let stop = n + attrs.len() as int;
    assert(whole.len() == 10 + ga.len() + gs.len() + 1);
    assert forall|k: int| 0 <= k < 10 implies content[start + k] == #[trigger] opening[k] by {
        assert(whole[k] == content[start + k]);
        assert(whole[k] == opening[k]);
    }
    if start < stop && end > n {
        if start >= n {
            if start + 10 <= stop {
                assert(attrs.subrange(start - n, start - n + opening.len()) == opening) by {
                    assert forall|k: int| 0 <= k < 10 implies attrs[start - n + k] == opening[k] by {
                        assert(content[start + k] == attrs[start - n + k]);
                        assert(content[start + k] == opening[k]);
                    }
                }
                assert(occurs_at(attrs, opening, start - n));
            } else {
                assert(content[start + (stop - start)] == opening[stop - start]);
                if slash.len() > 0 {
                    assert(content[stop] == slash[0]);
                } else {
                    assert(content[stop] == '>');
                }
            }
        } else if start >= front.len() {
            let tag = seq!['<'] + "application"@;
            assert(content[start] == tag[start - front.len()]);
            assert(content[start + 0] == opening[0]);
            assert(content[start + 1] == opening[1]);
            assert(start == front.len());
            assert(content[start + 1] == tag[1]);
        } else {
            if start + 10 > front.len() {
                assert(content[front.len() as int] == '<');
                assert(content[start + (front.len() - start)] == opening[front.len() - start]);
                assert(false);
            }
            assert(front.subrange(start, start + opening.len()) == opening) by {
                assert forall|k: int| 0 <= k < 10 implies front[start + k] == opening[k] by {
                    assert(content[start + k] == front[start + k]);
                    assert(content[start + k] == opening[k]);
                }
            }
            assert(occurs_at(front, opening, start));
            let rest = front.skip(start);
            let g = choose|g: int| 0 <= g < rest.len() && rest[g] == '>';
            assert(content[start + g] == front[start + g]);
            assert(whole[g] == content[start + g]);
            assert(whole[g] == '>');
            if g < 10 {
                assert(whole[g] == opening[g]);
            } else if g < 10 + ga.len() {
                assert(whole[g] == ga[g - 10]);
            } else {
                assert(whole[g] == gs[g - 10 - ga.len()]);
            }
        }
        assert(false);
    }
}

/// What stands in the attributes of the tag stands in the manifest, whether keys are replaced or not.
proof fn lemma_attributes_stay(
    front: Seq<char>,
    attrs: Seq<char>,
    slash: Seq<char>,
    back: Seq<char>,
    key: Option<Seq<char>>,
    what: Seq<char>,
)
    requires
        is_inner(attrs, slash),
        contains_text(attrs, what),
        what.len() > 0,
        key is Some ==> keys_are_apart(front, attrs),
        key is Some ==> keys_are_found(tag_text("application"@, front, attrs, slash, back)),
    ensures
        contains_text(
            match key {
                Some(key) => with_maps_api_keys(
                    tag_text("application"@, front, attrs, slash, back),
                    key,
                ),
                None => tag_text("application"@, front, attrs, slash, back),
            },
            what,
        ),
{
    match key {
        Some(key) => {
            lemma_keys_keep_attributes(front, attrs, slash, back, key, what);
        },
        None => {
            lemma_attributes_in_text("application"@, front, attrs, slash, back, what);
        },
    }
}

// ---------------------------------------------------------------------------------------------
// Manifests
// ---------------------------------------------------------------------------------------------

/// The parts of a manifest of the usual form.
spec fn parts_of(content: Seq<char>, debuggable: bool, keyed: bool) -> (
    Seq<char>,
    Seq<char>,
    Seq<char>,
    Seq<char>,
) {
    choose|front: Seq<char>, attrs: Seq<char>, slash: Seq<char>, back: Seq<char>|
        {
            &&& content == #[trigger] tag_text("application"@, front, attrs, slash, back)
            &&& is_inner(attrs, slash)
            &&& forall|i: int| i < front.len() ==> !opens_tag(content, "application"@, i)
            &&& debuggable ==> marks_are_closed(attrs)
            &&& keyed ==> keys_are_apart(front, attrs)
        }
}

/// A manifest of the usual form has an `<application>` tag.
pub proof fn lemma_ordinary_has_tag(content: Seq<char>, debuggable: bool, keyed: bool)
    requires
        ordinary(content, debuggable, keyed),
        tag_is_first(content),
    ensures
        application_tag(content) is Some,
{
    let (front, attrs, slash, back) = parts_of(content, debuggable, keyed);
    lemma_tag_found(content, front, attrs, slash, back);
}

/// The settings of the patcher hold no angle brackets, begin with a space and end with a quote.
proof fn lemma_settings_are_plain()
    ensures
        ({
            let set = setting("android:networkSecurityConfig"@, "@xml/nsc_mitm"@);
            let mark = setting("android:debuggable"@, "true"@);
            &&& !set.contains('<') && !set.contains('>')
            &&& set.len() > 0 && set[0] == ' ' && set.last() == '"'
            &&& !mark.contains('<') && !mark.contains('>')
            &&& mark.len() > 0 && mark[0] == ' ' && mark.last() == '"'
        }),
{
    lemma_known_settings();
    reveal_strlit(" android:networkSecurityConfig=\"@xml/nsc_mitm\"");
    reveal_strlit(" android:debuggable=\"true\"");
}

/// In a manifest of the usual form every setting that is asked for stands in the end.
pub proof fn lemma_ordinary(content: Seq<char>, debuggable: bool, key: Option<Seq<char>>)
    requires
        ordinary(content, debuggable, key is Some),
        all_is_found(content, debuggable, key),
    ensures
        contains_text(
            modified(content, debuggable, key),
            " android:networkSecurityConfig=\"@xml/nsc_mitm\""@,
        ),
        debuggable ==> contains_text(
            modified(content, debuggable, key),
            " android:debuggable=\"true\""@,
        ),
{
    let (front, attrs, slash, back) = parts_of(content, debuggable, key is Some);
    let pattern = attribute_pattern("android:networkSecurityConfig"@);
    let set = setting("android:networkSecurityConfig"@, "@xml/nsc_mitm"@);
    lemma_known_settings();
    lemma_settings_are_plain();
    lemma_tag_found(content, front, attrs, slash, back);
    let new = with_setting(attrs, pattern, set);
    lemma_setting_in_attributes(attrs, pattern, set);
    lemma_setting_is_inner(attrs, slash, pattern, set);
    if key is Some {
        lemma_setting_mentions_none(attrs, pattern, set);
    }
    assert(with_config(content) == tag_text("application"@, front, new, slash, back));
    if debuggable {
        lemma_ordinary_mark(content, front, attrs, slash, back, key);
    } else {
        lemma_attributes_stay(front, new, slash, back, key, set);
    }
}

/// The second setting keeps the first.
proof fn lemma_ordinary_mark(
    content: Seq<char>,
    front: Seq<char>,
    attrs: Seq<char>,
    slash: Seq<char>,
    back: Seq<char>,
    key: Option<Seq<char>>,
)
    requires
        marks_are_closed(attrs),
        is_inner(attrs, slash),
        all_is_found(content, true, key),
        application_tag(content) matches Some(m) && m.groups[1] == Some(attrs) && m.groups[2] == Some(
            slash,
        ) && part(content, 0, m.start) == front && part(
            content,
            m.end,
            encode_utf8(content).len() as int,
        ) == back,
        key is Some ==> keys_are_apart(front, attrs),
    ensures
        contains_text(
            modified(content, true, key),
            " android:networkSecurityConfig=\"@xml/nsc_mitm\""@,
        ),
        contains_text(modified(content, true, key), " android:debuggable=\"true\""@),
{
    let pattern = attribute_pattern("android:networkSecurityConfig"@);
    let set = setting("android:networkSecurityConfig"@, "@xml/nsc_mitm"@);
    let mark_pattern = attribute_pattern("android:debuggable"@);
    let mark = setting("android:debuggable"@, "true"@);
    lemma_known_settings();
    lemma_settings_are_plain();
    let new = with_setting(attrs, pattern, set);
    lemma_setting_is_inner(attrs, slash, pattern, set);
    lemma_tag_again(content, new);
    let last = with_setting(new, mark_pattern, mark);
    lemma_reference_apart(attrs);
    lemma_apart_kept(new, mark_pattern, mark, set);
    lemma_setting_in_attributes(new, mark_pattern, mark);
    lemma_setting_is_inner(new, slash, mark_pattern, mark);
    if key is Some {
        lemma_setting_mentions_none(attrs, pattern, set);
        lemma_setting_mentions_none(new, mark_pattern, mark);
    }
    lemma_attributes_stay(front, last, slash, back, key, set);
    lemma_attributes_stay(front, last, slash, back, key, mark);
}

} // verus!
