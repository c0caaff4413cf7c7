//! What is set twice is what was set last.
use crate::attribute::is_name;
use crate::attribute::lemma_closed_is_attribute;
use crate::attribute::lemma_opened_before;
use crate::attribute::lemma_place;
use crate::attribute::lemma_same_attribute;
use crate::attribute::none_starts_before;
use crate::attribute::opens_value;
use crate::attribute::place_of;
use crate::manifest::after_setting;
use crate::manifest::apart;
use crate::manifest::application_tag;
use crate::manifest::attribute_is_first;
use crate::manifest::before_setting;
use crate::manifest::is_maps_tag;
use crate::manifest::keys_are_found;
use crate::manifest::law_setting_is_attribute;
use crate::manifest::lemma_apart_kept;
use crate::manifest::lemma_attributes_in_text;
use crate::manifest::lemma_setting_holds;
use crate::manifest::lemma_setting_is_inner;
use crate::manifest::lemma_setting_not_empty;
use crate::manifest::lemma_setting_parts;
use crate::manifest::meta_data_tags;
use crate::manifest::setting;
use crate::manifest::tag_is_first;
use crate::manifest::with_application_setting;
use crate::manifest::with_key;
use crate::manifest::with_keys;
use crate::manifest::with_maps_api_keys;
use crate::manifest::with_setting;
use crate::ordinary::lemma_tag_again;
use crate::pattern::Found;
use crate::pattern::META_DATA_VALUE;
use crate::pattern::attribute_pattern;
use crate::pattern::covered;
use crate::pattern::end_at;
use crate::pattern::end_of;
use crate::pattern::gap;
use crate::pattern::is_attribute;
use crate::pattern::is_first_attribute;
use crate::pattern::is_tag;
use crate::pattern::lemma_end_of;
use crate::pattern::lemma_gap_before;
use crate::pattern::lemma_match_place;
use crate::pattern::lemma_positions;
use crate::pattern::lie_in;
use crate::pattern::lies_in;
use crate::pattern::meta;
use crate::pattern::opens_tag;
use crate::pattern::regex_captures;
use crate::pattern::replaced;
use crate::pattern::replaced_front;
use crate::tag::is_inner;
use crate::tag::lemma_found_is_tag;
use crate::tag::lemma_found_tag;
use crate::tag::lemma_tag_is_open;
use crate::tag::start_tag;
use crate::tag::tag_text;
use crate::text::contains;
use crate::text::lemma_parts;
use crate::text::occurs_at;
use crate::text::part;
use vstd::prelude::*;
use vstd::utf8::encode_utf8;

verus! {

// ---------------------------------------------------------------------------------------------
// Attributes
// ---------------------------------------------------------------------------------------------

/// Wherever the value of an attribute with the given name is opened before the place of a setting, it is
/// closed; or the quote is an apostrophe and the first value to be set holds none.
pub open spec fn closes(attrs: Seq<char>, name: Seq<char>, first: Seq<char>) -> bool {
    forall|i: int, j: int, quote: char|
        0 <= i <= j <= place_of(attrs, name) && #[trigger] opens_value(
            attrs.subrange(i, j),
            name,
            quote,
        ) ==> attrs.skip(j).contains(quote) || quote == '\'' && !first.contains(quote)
}

/// No attribute with the name of a setting begins before the setting that was not there before.
proof fn lemma_none_earlier(
    attrs: Seq<char>,
    x: Seq<char>,
    y: Seq<char>,
    name: Seq<char>,
    first: Seq<char>,
    i: int,
    j: int,
)
    requires
        is_name(name),
        closes(attrs, name, first),
        x.len() == place_of(attrs, name),
        none_starts_before(attrs, name, x.len() as int),
        x.len() + y.len() <= attrs.len(),
        attrs.take(x.len() as int) == x,
        attrs.skip(attrs.len() - y.len()) == y,
        0 <= i <= j <= (x + setting(name, first) + y).len(),
        is_attribute((x + setting(name, first) + y).subrange(i, j), name),
    ensures
        i >= x.len(),
{
    let set = setting(name, first);
    let new = x + set + y;
    let p = x.len() as int;
    let from = attrs.len() - y.len();
    if i < p {
        lemma_setting_not_empty(name, first);
        let (q, quote) = lemma_opened_before(x, set, y, name, i, j);
        assert(attrs.subrange(i, q) == x.subrange(i, q)) by {
            assert forall|k: int| 0 <= k < p implies x[k] == attrs[k] by {
                assert(attrs.take(p)[k] == x[k]);
            }
        }
        assert(opens_value(attrs.subrange(i, q), name, quote));
        let rest = attrs.skip(q);
        if !rest.contains(quote) {
            let e = j - 1;
            assert(!name.contains(quote));
            lemma_setting_holds(name, first, '\'');
            if e < p {
                assert(attrs.take(p)[e] == x[e]);
                assert(rest[e - q] == x[e]);
            } else if e < p + set.len() {
                assert(new[e] == set[e - p]);
            } else {
                let k = e - p - set.len();
                assert(new[e] == y[k]);
                assert(attrs.skip(from)[k] == y[k]);
                assert(rest[from + k - q] == y[k]);
            }
            assert(false);
        }
        lemma_closed_is_attribute(attrs, i, q, name, quote);
        let e = choose|e: int|
            q <= e < attrs.len() && is_attribute(#[trigger] attrs.subrange(i, e + 1), name);
        assert(!is_attribute(attrs.subrange(i, e + 1), name));
    }
}

/// Of two settings of one attribute the last one wins.
proof fn lemma_last_setting(
    attrs: Seq<char>,
    pattern: Seq<char>,
    name: Seq<char>,
    first: Seq<char>,
    last: Seq<char>,
)
    requires
        is_name(name),
        closes(attrs, name, first),
        !first.contains('"'),
        is_first_attribute(regex_captures(pattern, attrs), attrs, name),
        ({
            let new = with_setting(attrs, pattern, setting(name, first));
            is_first_attribute(regex_captures(pattern, new), new, name)
        }),
    ensures
        with_setting(with_setting(attrs, pattern, setting(name, first)), pattern, last)
            == with_setting(attrs, pattern, last),
{
    let set = setting(name, first);
    let new = with_setting(attrs, pattern, set);
    let x = before_setting(attrs, pattern);
    let y = after_setting(attrs, pattern);
    lemma_setting_parts(attrs, pattern, set);
    lemma_setting_parts(attrs, pattern, last);
    lemma_place(regex_captures(pattern, attrs), attrs, name);
    law_setting_is_attribute(name, first);
    let at = x.len() as int;
    let end = at + set.len();
    assert(new.subrange(at, end) == set);
    assert(regex_captures(pattern, new) is Some);
    let m = regex_captures(pattern, new)->0;
    lemma_match_place(new, m);
    let i = part(new, 0, m.start).len() as int;
    let j = part(new, 0, m.end).len() as int;
    assert(i <= at);
    lemma_none_earlier(attrs, x, y, name, first, i, j);
    lemma_same_attribute(new, name, at, j, end);
    assert(part(new, 0, m.start) == x);
    assert(part(new, m.end, encode_utf8(new).len() as int) == y) by {
        assert(new.skip(end) == y);
    }
}

// ---------------------------------------------------------------------------------------------
// The `<application>` tag
// ---------------------------------------------------------------------------------------------

/// Of two values for one attribute of the `<application>` tag the last one wins, and a second setting to
/// the same value changes nothing. The value of the attribute is closed wherever it is opened before the
/// place of the setting, or opened with an apostrophe that the first value does not hold; and the first
/// value stays within its quotes and the tag. Both values are taken as they are, which
/// `set_application_attr` does with those without `$`.
pub proof fn law_last_value_wins(
    content: Seq<char>,
    name: Seq<char>,
    first: Seq<char>,
    last: Seq<char>,
)
    requires
        is_name(name),
        !first.contains('"'),
        !first.contains('>'),
        application_tag(content) is Some,
        closes(application_tag(content)->0.groups[1]->0, name, first),
        tag_is_first(content),
        attribute_is_first(content, name),
        ({
            let once = with_application_setting(
                content,
                application_tag(content)->0,
                name,
                first,
            );
            &&& tag_is_first(once)
            &&& attribute_is_first(once, name)
        }),
    ensures
        ({
            let m = application_tag(content)->0;
            let once = with_application_setting(content, m, name, first);
            &&& application_tag(once) is Some
            &&& with_application_setting(once, application_tag(once)->0, name, last)
                == with_application_setting(content, m, name, last)
            &&& with_application_setting(once, application_tag(once)->0, name, first) == once
        }),
{
    let m = application_tag(content)->0;
    let attrs = m.groups[1]->0;
    let pattern = attribute_pattern(name);
    let set = setting(name, first);
    let new = with_setting(attrs, pattern, set);
    let once = with_application_setting(content, m, name, first);
    lemma_setting_not_empty(name, first);
    lemma_setting_holds(name, first, '>');
    lemma_found_tag(content, m, "application"@);
    lemma_setting_is_inner(attrs, m.groups[2]->0, pattern, set);
    lemma_tag_again(content, new);
    lemma_last_setting(attrs, pattern, name, first, setting(name, last));
    lemma_last_setting(attrs, pattern, name, first, set);
}

// ---------------------------------------------------------------------------------------------
// The `<meta-data>` tags
// ---------------------------------------------------------------------------------------------

/// The attributes of a `<meta-data>` tag once the key is replaced.
pub open spec fn keyed_attrs(m: Found, key: Seq<char>) -> Seq<char> {
    if is_maps_tag(m.groups[0]->0) {
        with_setting(m.groups[1]->0, META_DATA_VALUE@, setting("android:value"@, key))
    } else {
        m.groups[1]->0
    }
}

/// The name by which a tag is known to hold an API key stands apart from its value.
pub open spec fn name_is_apart(attrs: Seq<char>) -> bool {
    ||| apart(attrs, META_DATA_VALUE@, "android:name=\"com.google.android.maps.v2.API_KEY\""@)
    ||| apart(attrs, META_DATA_VALUE@, "android:name='com.google.android.maps.v2.API_KEY'"@)
    ||| apart(attrs, META_DATA_VALUE@, "android:name=\"com.google.android.geo.API_KEY\""@)
    ||| apart(attrs, META_DATA_VALUE@, "android:name='com.google.android.geo.API_KEY'"@)
}

/// What becomes of a tag is a tag with the same slash.
proof fn lemma_keyed(content: Seq<char>, m: Found, key: Seq<char>)
    requires
        lies_in(m, content),
        is_tag(m, content, "meta-data"@),
        is_maps_tag(m.groups[0]->0) ==> is_first_attribute(
            regex_captures(META_DATA_VALUE@, m.groups[1]->0),
            m.groups[1]->0,
            "android:value"@,
        ),
        !key.contains('>'),
    ensures
        with_key(m, key) == start_tag("meta-data"@, keyed_attrs(m, key), m.groups[2]->0),
        is_inner(keyed_attrs(m, key), m.groups[2]->0),
{
    let set = setting("android:value"@, key);
    lemma_found_tag(content, m, "meta-data"@);
    if is_maps_tag(m.groups[0]->0) {
        lemma_value_name();
        lemma_setting_not_empty("android:value"@, key);
        lemma_setting_holds("android:value"@, key, '>');
        lemma_setting_is_inner(m.groups[1]->0, m.groups[2]->0, META_DATA_VALUE@, set);
    }
}

proof fn lemma_value_name()
    ensures
        is_name("android:value"@),
{
    reveal_strlit("android:value");
}

/// A tag with an API key is one after the key is replaced, if its name stands apart from its value.
proof fn lemma_still_maps(m: Found, key: Seq<char>)
    requires
        is_maps_tag(m.groups[0]->0),
        name_is_apart(m.groups[1]->0),
    ensures
        is_maps_tag(start_tag("meta-data"@, keyed_attrs(m, key), m.groups[2]->0)),
{
    let attrs = m.groups[1]->0;
    let set = setting("android:value"@, key);
    let what = if apart(
        attrs,
        META_DATA_VALUE@,
        "android:name=\"com.google.android.maps.v2.API_KEY\""@,
    ) {
        "android:name=\"com.google.android.maps.v2.API_KEY\""@
    } else if apart(
        attrs,
        META_DATA_VALUE@,
        "android:name='com.google.android.maps.v2.API_KEY'"@,
    ) {
        "android:name='com.google.android.maps.v2.API_KEY'"@
    } else if apart(attrs, META_DATA_VALUE@, "android:name=\"com.google.android.geo.API_KEY\""@) {
        "android:name=\"com.google.android.geo.API_KEY\""@
    } else {
        "android:name='com.google.android.geo.API_KEY'"@
    };
    let slash = m.groups[2]->0;
    let new = keyed_attrs(m, key);
    lemma_apart_kept(attrs, META_DATA_VALUE@, set, what);
    lemma_attributes_in_text("meta-data"@, Seq::empty(), new, slash, Seq::empty(), what);
}

/// What stands before a replacement, the replacement itself and what stands after it.
proof fn lemma_replaced_split(text: Seq<char>, list: Seq<Found>, with: Seq<Seq<char>>, k: int) -> (rest:
    Seq<char>)
    requires
        0 <= k < list.len(),
    ensures
        replaced(text, list, with) == replaced_front(text, list, with, k) + gap(text, list, k)
            + with[k] + rest,
    decreases list.len() - k,
{
    let all = replaced(text, list, with);
    if k + 1 < list.len() {
        let rest = lemma_replaced_split(text, list, with, k + 1);
        let tail = gap(text, list, k + 1) + with[k + 1] + rest;
        assert(all == replaced_front(text, list, with, k + 1) + tail);
        tail
    } else {
        let rest = gap(text, list, k + 1);
        assert(all == replaced_front(text, list, with, k + 1) + rest);
        rest
    }
}

/// The next match of a list stands where nothing has to be found before it.
proof fn lemma_next_tag(text: Seq<char>, list: Seq<Found>, k: int, from: int, at: int)
    requires
        lie_in(list, text),
        forall|i: int| 0 <= i < list.len() ==> is_tag(#[trigger] list[i], text, "meta-data"@),
        forall|i: int| opens_tag(text, "meta-data"@, i) ==> covered(text, list, i),
        0 <= k <= list.len(),
        end_at(text, list, k) == from,
        from <= at,
        forall|i: int| from <= i < at ==> !opens_tag(text, "meta-data"@, i),
        opens_tag(text, "meta-data"@, at),
    ensures
        k < list.len(),
        part(text, 0, list[k].start).len() == at,
{
    assert(covered(text, list, at));
    let j = choose|j: int|
        0 <= j < list.len() && part(text, 0, (#[trigger] list[j]).start).len() <= at < part(
            text,
            0,
            list[j].end,
        ).len();
    if j < k {
        if j < k - 1 {
            lemma_positions(text, list, j, k - 1);
            assert(lies_in(list[k - 1], text));
            lemma_match_place(text, list[k - 1]);
        }
        assert(false);
    }
    lemma_gap_before(text, list, k);
    assert(lies_in(list[k], text));
    assert(is_tag(list[k], text, "meta-data"@));
    lemma_found_tag(text, list[k], "meta-data"@);
    lemma_match_place(text, list[k]);
    if k < j {
        lemma_positions(text, list, k, j);
    }
}

/// In what stands between two tags nothing has to be found, whatever becomes of the tags.
proof fn lemma_gap_is_quiet(
    text: Seq<char>,
    list: Seq<Found>,
    k: int,
    front: Seq<char>,
    back: Seq<char>,
    i: int,
)
    requires
        lie_in(list, text),
        forall|i: int| 0 <= i < list.len() ==> is_tag(#[trigger] list[i], text, "meta-data"@),
        forall|i: int| opens_tag(text, "meta-data"@, i) ==> covered(text, list, i),
        0 <= k <= list.len(),
        k == list.len() ==> back.len() == 0,
        k < list.len() ==> back.len() > 0 && back[0] == '<',
        front.len() <= i < front.len() + gap(text, list, k).len(),
    ensures
        !opens_tag(front + gap(text, list, k) + back, "meta-data"@, i),
{
    let g = gap(text, list, k);
    let new = front + g + back;
    let start = end_at(text, list, k);
    let end = start + g.len();
    lemma_gap_place(text, list, k);
    if opens_tag(new, "meta-data"@, i) {
        reveal_strlit("meta-data");
        let opening = seq!['<'] + "meta-data"@;
        let n = i + 10;
        let at = front.len() + g.len() as int;
        assert(opening.len() == 10);
        assert forall|k: int| 0 <= k < 10 implies new[i + k] == #[trigger] opening[k] by {
            assert(new.subrange(i, i + opening.len())[k] == new[i + k]);
        }
        if n > at {
            assert(new[at] == back[0]);
            assert(new[i + (at - i)] == opening[at - i]);
            assert(false);
        }
        let i0 = start + (i - front.len());
        let n0 = i0 + 10;
        assert forall|j: int| 0 <= j < g.len() implies text[start + j] == #[trigger] g[j] && new[
            front.len() + j
        ] == g[j] by {
            assert(text.subrange(start, end)[j] == g[j]);
        }
        assert(text.subrange(i0, i0 + opening.len()) == opening) by {
            assert forall|k: int| 0 <= k < 10 implies text[i0 + k] == opening[k] by {
                let j = i - front.len() + k;
                assert(text[start + j] == g[j] && new[front.len() + j] == g[j]);
                assert(new[i + k] == opening[k]);
            }
        }
        assert(occurs_at(text, opening, i0));
        if k < list.len() {
            let m = list[k];
            assert(lies_in(m, text));
            assert(is_tag(m, text, "meta-data"@));
            lemma_match_place(text, m);
            lemma_found_tag(text, m, "meta-data"@);
            let whole = part(text, m.start, m.end);
            assert(whole.last() == '>');
            let e = part(text, 0, m.end).len() - 1;
            assert(text[e] == whole.last());
            assert(text.skip(n0)[e - n0] == '>');
            if n == at {
                assert(text[end] == whole[0]);
                assert(whole[0] == '<');
                assert(new[at] == back[0]);
            } else {
                let j = n - front.len();
                assert(text[start + j] == g[j] && new[front.len() + j] == g[j]);
            }
        } else {
            assert(n < at);
            let j = n - front.len();
            assert(text[start + j] == g[j] && new[front.len() + j] == g[j]);
            let tail = new.skip(n);
            let x = choose|x: int| 0 <= x < tail.len() && tail[x] == '>';
            let y = n - front.len() + x;
            assert(new[n + x] == '>');
            assert(text[start + y] == g[y] && new[front.len() + y] == g[y]);
            assert(text.skip(n0)[x] == '>');
        }
        assert(opens_tag(text, "meta-data"@, i0));
        assert(covered(text, list, i0));
        let j = choose|j: int|
            0 <= j < list.len() && part(text, 0, (#[trigger] list[j]).start).len() <= i0 < part(
                text,
                0,
                list[j].end,
            ).len();
        if j < k {
            if j < k - 1 {
                lemma_positions(text, list, j, k - 1);
                assert(lies_in(list[k - 1], text));
                lemma_match_place(text, list[k - 1]);
            }
        } else if k < j {
            lemma_positions(text, list, k, j);
            assert(lies_in(list[k], text));
            lemma_match_place(text, list[k]);
        }
        assert(false);
    }
}

/// Where a gap stands among the characters.
proof fn lemma_gap_place(text: Seq<char>, list: Seq<Found>, k: int)
    requires
        lie_in(list, text),
        0 <= k <= list.len(),
    ensures
        0 <= end_at(text, list, k),
        end_at(text, list, k) + gap(text, list, k).len() <= text.len(),
        gap(text, list, k) == text.subrange(
            end_at(text, list, k),
            end_at(text, list, k) + gap(text, list, k).len(),
        ),
        k < list.len() ==> end_at(text, list, k) + gap(text, list, k).len() == part(
            text,
            0,
            list[k].start,
        ).len(),
        k == list.len() ==> end_at(text, list, k) + gap(text, list, k).len() == text.len(),
{
    if k < list.len() {
        lemma_gap_before(text, list, k);
    } else {
        let total = encode_utf8(text).len() as int;
        lemma_end_of(text, list, k);
        vstd::utf8::encode_utf8_valid_utf8(text);
        vstd::utf8::is_char_boundary_start_end_of_seq(encode_utf8(text));
        lemma_parts(text, end_of(list, k), total);
        assert(encode_utf8(text).subrange(total, total) == Seq::<u8>::empty());
        let front = part(text, 0, end_of(list, k));
        let rest = gap(text, list, k);
        assert(text == front + rest);
        assert(rest == text.subrange(front.len() as int, text.len() as int));
    }
}

/// The tags of a manifest in which keys were replaced are what became of its tags, as far as the first
/// `k` go.
spec fn same_tags(
    content: Seq<char>,
    tags: Seq<Found>,
    key: Seq<char>,
    new: Seq<char>,
    found: Seq<Found>,
    k: int,
) -> bool {
    &&& k <= found.len()
    &&& end_at(new, found, k) == replaced_front(content, tags, with_keys(tags, key), k).len()
    &&& forall|i: int|
        0 <= i < k ==> {
            &&& (#[trigger] found[i]).groups[1] == Some(keyed_attrs(tags[i], key))
            &&& found[i].groups[2] == tags[i].groups[2]
            &&& found[i].groups[0] == Some(with_key(tags[i], key))
            &&& gap(new, found, i) == gap(content, tags, i)
        }
}

proof fn lemma_same_tags(content: Seq<char>, key: Seq<char>, k: int)
    requires
        keys_are_found(content),
        keys_are_found(with_maps_api_keys(content, key)),
        !key.contains('>'),
        0 <= k <= meta_data_tags(content).len(),
    ensures
        same_tags(
            content,
            meta_data_tags(content),
            key,
            with_maps_api_keys(content, key),
            meta_data_tags(with_maps_api_keys(content, key)),
            k,
        ),
    decreases k,
{
    let new = with_maps_api_keys(content, key);
    if k == 0 {
        assert(encode_utf8(new).subrange(0, 0) == Seq::<u8>::empty());
    } else {
        lemma_same_tags(content, key, k - 1);
        lemma_one_more_tag(content, key, k - 1);
    }
}

/// What becomes of a tag with new attributes, where the tags before it are found again.
#[verifier::rlimit(60)]
proof fn lemma_one_more_tag(content: Seq<char>, key: Seq<char>, j: int)
    requires
        keys_are_found(content),
        keys_are_found(with_maps_api_keys(content, key)),
        !key.contains('>'),
        0 <= j < meta_data_tags(content).len(),
        ({
            let tags = meta_data_tags(content);
            let new = with_maps_api_keys(content, key);
            let found = meta_data_tags(new);
            &&& j <= found.len()
            &&& end_at(new, found, j) == replaced_front(content, tags, with_keys(tags, key), j).len()
        }),
    ensures
        ({
            let tags = meta_data_tags(content);
            let new = with_maps_api_keys(content, key);
            let found = meta_data_tags(new);
            &&& j < found.len()
            &&& end_at(new, found, j + 1) == replaced_front(
                content,
                tags,
                with_keys(tags, key),
                j + 1,
            ).len()
            &&& found[j].groups[1] == Some(keyed_attrs(tags[j], key))
            &&& found[j].groups[2] == tags[j].groups[2]
            &&& found[j].groups[0] == Some(with_key(tags[j], key))
            &&& gap(new, found, j) == gap(content, tags, j)
        }),
{
    let tags = meta_data_tags(content);
    let with = with_keys(tags, key);
    let new = with_maps_api_keys(content, key);
    let found = meta_data_tags(new);
    let m = tags[j];
    assert(lies_in(m, content));
    assert(is_tag(m, content, "meta-data"@));
    lemma_keyed(content, m, key);
    let attrs = keyed_attrs(m, key);
    let slash = m.groups[2]->0;
    let front = replaced_front(content, tags, with, j);
    let between = gap(content, tags, j);
    let rest = lemma_replaced_split(content, tags, with, j);
    let text = start_tag("meta-data"@, attrs, slash);
    assert(with[j] == text);
    let back = text + rest;
    lemma_around(front, between, attrs, slash, rest);
    let from = front.len() as int;
    let at = from + between.len();
    assert forall|i: int| from <= i < at implies !opens_tag(new, "meta-data"@, i) by {
        lemma_gap_is_quiet(content, tags, j, front, back, i);
    }
    lemma_tag_is_open("meta-data"@, front + between, attrs, slash, rest);
    lemma_next_tag(new, found, j, from, at);
    assert(lies_in(found[j], new));
    assert(is_tag(found[j], new, "meta-data"@));
    lemma_found_is_tag(
        new,
        found[j],
        "meta-data"@,
        front + between,
        attrs,
        slash,
        rest,
    );
    lemma_gap_before(new, found, j);
}

/// A text around a tag, taken apart in two ways.
proof fn lemma_around(
    front: Seq<char>,
    between: Seq<char>,
    attrs: Seq<char>,
    slash: Seq<char>,
    rest: Seq<char>,
)
    ensures
        ({
            let text = start_tag("meta-data"@, attrs, slash);
            let all = front + between + text + rest;
            &&& all == front + between + (text + rest)
            &&& all == tag_text("meta-data"@, front + between, attrs, slash, rest)
            &&& (text + rest).len() > 0
            &&& (text + rest)[0] == '<'
            &&& all.subrange(front.len() as int, (front.len() + between.len()) as int) == between
        }),
{
    let text = start_tag("meta-data"@, attrs, slash);
    let all = front + between + text + rest;
    assert(all == front + between + (text + rest));
    assert(all.subrange(front.len() as int, (front.len() + between.len()) as int) == between);
}

/// There are as many tags as before the keys were replaced.
proof fn lemma_as_many_tags(content: Seq<char>, key: Seq<char>)
    requires
        keys_are_found(content),
        keys_are_found(with_maps_api_keys(content, key)),
        !key.contains('>'),
    ensures
        meta_data_tags(with_maps_api_keys(content, key)).len() == meta_data_tags(content).len(),
        gap(
            with_maps_api_keys(content, key),
            meta_data_tags(with_maps_api_keys(content, key)),
            meta_data_tags(content).len() as int,
        ) == gap(content, meta_data_tags(content), meta_data_tags(content).len() as int),
{
    let tags = meta_data_tags(content);
    let with = with_keys(tags, key);
    let new = with_maps_api_keys(content, key);
    let found = meta_data_tags(new);
    let n = tags.len() as int;
    lemma_same_tags(content, key, n);
    let front = replaced_front(content, tags, with, n);
    let rest = gap(content, tags, n);
    let nothing = Seq::<char>::empty();
    assert(new == front + rest);
    assert(new == front + rest + nothing);
    if n < found.len() {
        let m = found[n];
        assert(lies_in(m, new));
        assert(is_tag(m, new, "meta-data"@));
        lemma_found_tag(new, m, "meta-data"@);
        lemma_match_place(new, m);
        lemma_gap_before(new, found, n);
        let i = part(new, 0, m.start).len() as int;
        lemma_gap_is_quiet(content, tags, n, front, nothing, i);
    }
    lemma_gap_place(new, found, n);
    assert(new.subrange(front.len() as int, new.len() as int) == rest);
}

/// Texts with the same gaps and the same replacements come to the same.
proof fn lemma_same_replaced(
    a: Seq<char>,
    list: Seq<Found>,
    b: Seq<char>,
    other: Seq<Found>,
    with: Seq<Seq<char>>,
    k: int,
)
    requires
        0 <= k <= list.len(),
        list.len() == other.len(),
        forall|i: int| 0 <= i < list.len() ==> #[trigger] gap(a, list, i) == gap(b, other, i),
    ensures
        replaced_front(a, list, with, k) == replaced_front(b, other, with, k),
    decreases k,
{
    if k > 0 {
        lemma_same_replaced(a, list, b, other, with, k - 1);
        assert(gap(a, list, k - 1) == gap(b, other, k - 1));
    }
}

/// Of two API keys the last one wins, and a second replacement by the same key changes nothing. The first
/// key stays within its quotes and the tag. In each tag with a key the value is closed wherever it is
/// opened before the place of the setting, or opened with an apostrophe that the first key does not hold;
/// and the value stands apart from the name by which the tag is known.
pub proof fn law_last_key_wins(content: Seq<char>, first: Seq<char>, last: Seq<char>)
    requires
        !first.contains('"'),
        !first.contains('>'),
        forall|i: int|
            0 <= i < meta_data_tags(content).len() && is_maps_tag(
                (#[trigger] meta_data_tags(content)[i]).groups[0]->0,
            ) ==> {
                &&& closes(meta_data_tags(content)[i].groups[1]->0, "android:value"@, first)
                &&& name_is_apart(meta_data_tags(content)[i].groups[1]->0)
            },
        keys_are_found(content),
        keys_are_found(with_maps_api_keys(content, first)),
    ensures
        with_maps_api_keys(with_maps_api_keys(content, first), last) == with_maps_api_keys(
            content,
            last,
        ),
        with_maps_api_keys(with_maps_api_keys(content, first), first) == with_maps_api_keys(
            content,
            first,
        ),
{
    lemma_last_key(content, first, last);
    lemma_last_key(content, first, first);
}

proof fn lemma_last_key(content: Seq<char>, first: Seq<char>, last: Seq<char>)
    requires
        !first.contains('"'),
        !first.contains('>'),
        forall|i: int|
            0 <= i < meta_data_tags(content).len() && is_maps_tag(
                (#[trigger] meta_data_tags(content)[i]).groups[0]->0,
            ) ==> {
                &&& closes(meta_data_tags(content)[i].groups[1]->0, "android:value"@, first)
                &&& name_is_apart(meta_data_tags(content)[i].groups[1]->0)
            },
        keys_are_found(content),
        keys_are_found(with_maps_api_keys(content, first)),
    ensures
        with_maps_api_keys(with_maps_api_keys(content, first), last) == with_maps_api_keys(
            content,
            last,
        ),
{
    let tags = meta_data_tags(content);
    let n = tags.len() as int;
    let new = with_maps_api_keys(content, first);
    let found = meta_data_tags(new);
    lemma_same_tags(content, first, n);
    lemma_as_many_tags(content, first);
    let with = with_keys(tags, last);
    assert forall|i: int| 0 <= i < n implies #[trigger] with_keys(found, last)[i] == with[i] by {
        let m = tags[i];
        let f = found[i];
        assert(lies_in(m, content));
        assert(is_tag(m, content, "meta-data"@));
        lemma_keyed(content, m, first);
        if is_maps_tag(m.groups[0]->0) {
            lemma_still_maps(m, first);
            lemma_value_name();
            lemma_last_setting(
                m.groups[1]->0,
                META_DATA_VALUE@,
                "android:value"@,
                first,
                setting("android:value"@, last),
            );
        }
    }
    assert(with_keys(found, last) == with);
    assert forall|i: int| 0 <= i < n implies #[trigger] gap(content, tags, i) == gap(new, found, i) by {
        assert(found[i].groups[2] == tags[i].groups[2]);
    }
    lemma_same_replaced(content, tags, new, found, with, n);
}

} // verus!
