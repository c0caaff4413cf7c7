//! What becomes of a manifest: each change that is asked for is made, whatever else is asked for, and nothing
//! else changes.
use crate::attribute::none_starts_before;
use crate::manifest::all_is_found;
use crate::manifest::application_tag;
use crate::manifest::in_place;
use crate::manifest::is_maps_tag;
use crate::manifest::is_split;
use crate::manifest::keys_are_found;
use crate::manifest::law_key_present;
use crate::manifest::law_keys_in_manifest;
use crate::manifest::lemma_setting_holds;
use crate::manifest::lemma_setting_is_inner;
use crate::manifest::lemma_setting_not_empty;
use crate::manifest::meta_data_tags;
use crate::manifest::modified;
use crate::manifest::new_tag;
use crate::manifest::setting;
use crate::manifest::tag_is_first;
use crate::manifest::text_option;
use crate::manifest::with_application_attr;
use crate::manifest::with_application_setting;
use crate::manifest::with_attribute;
use crate::manifest::with_attributes;
use crate::manifest::with_config;
use crate::manifest::with_key;
use crate::manifest::with_keys;
use crate::manifest::with_maps_api_keys;
use crate::manifest::with_setting;
use crate::ordinary::lemma_tag_again;
use crate::pattern::attribute_pattern;
use crate::pattern::covered;
use crate::pattern::Found;
use crate::pattern::is_attribute;
use crate::pattern::is_first_attribute;
use crate::pattern::is_tag;
use crate::pattern::is_word;
use crate::pattern::lemma_match_place;
use crate::pattern::lemma_replaced_by_itself;
use crate::pattern::lie_in;
use crate::pattern::lies_in;
use crate::pattern::META_DATA_VALUE;
use crate::pattern::opens_tag;
use crate::pattern::regex_captures;
use crate::pattern::regex_replace;
use crate::pattern::replaced;
use crate::tag::lemma_found_tag;
use crate::tag::lemma_tag_is_open;
use crate::tag::lemma_tag_names;
use crate::tag::start_tag;
use crate::tag::tag_text;
use crate::text::contains_text;
use crate::text::lemma_parts;
use crate::text::lemma_within;
use crate::text::occurs_at;
use crate::text::part;
use vstd::prelude::*;
use vstd::utf8::encode_utf8;

verus! {

// ---------------------------------------------------------------------------------------------
// Settings
// ---------------------------------------------------------------------------------------------

/// How an attribute is written: a space, its name, an equals sign and its value between double quotes.
pub proof fn law_settings_are_written(name: Seq<char>, value: Seq<char>)
    ensures
        setting(name, value) == seq![' '] + name + seq!['=', '"'] + value + seq!['"'],
{
    reveal_strlit(" ");
    reveal_strlit("=\"");
    reveal_strlit("\"");
    assert(" "@ == seq![' ']);
    assert("=\""@ == seq!['=', '"']);
    assert("\""@ == seq!['"']);
}

/// A setting takes the place of the first attribute with its name, or follows the others if there is none;
/// all other attributes stay.
pub proof fn law_setting_takes_a_place(
    attrs: Seq<char>,
    pattern: Seq<char>,
    name: Seq<char>,
    set: Seq<char>,
)
    requires
        is_first_attribute(regex_captures(pattern, attrs), attrs, name),
    ensures
        ({
            let new = with_setting(attrs, pattern, set);
            ||| new == attrs + set && none_starts_before(attrs, name, attrs.len() as int + 1)
            ||| exists|i: int, j: int|
                {
                    &&& 0 <= i <= j <= attrs.len()
                    &&& is_attribute(#[trigger] attrs.subrange(i, j), name)
                    &&& none_starts_before(attrs, name, i)
                    &&& new == attrs.take(i) + set + attrs.skip(j)
                }
        }),
{
    if let Some(m) = regex_captures(pattern, attrs) {
        lemma_match_place(attrs, m);
        lemma_parts(attrs, m.start, m.end);
        let i = part(attrs, 0, m.start).len() as int;
        let j = part(attrs, 0, m.end).len() as int;
        let front = part(attrs, 0, m.start);
        let old = part(attrs, m.start, m.end);
        let back = part(attrs, m.end, encode_utf8(attrs).len() as int);
        assert(attrs == front + old + back);
        assert(attrs.take(i) == front);
        assert(attrs.subrange(i, i + old.len()) == old);
        assert(attrs.skip(i + old.len()) == back);
        let e = i + old.len();
        assert(is_attribute(attrs.subrange(i, e), name));
    }
}

/// Setting an attribute of the `<application>` tag changes that tag and nothing else: what stands before
/// it, what stands after it and whether it is empty stay.
pub proof fn law_one_tag_is_changed(content: Seq<char>, name: Seq<char>, value: Seq<char>)
    requires
        tag_is_first(content),
        application_tag(content) is Some,
    ensures
        ({
            let m = application_tag(content)->0;
            let front = part(content, 0, m.start);
            let attrs = m.groups[1]->0;
            let slash = m.groups[2]->0;
            let back = part(content, m.end, encode_utf8(content).len() as int);
            let new = with_setting(attrs, attribute_pattern(name), setting(name, value));
            &&& content == front + "<application"@ + attrs + slash + ">"@ + back
            &&& with_application_setting(content, m, name, value) == front + "<application"@ + new
                + slash + ">"@ + back
        }),
{
    let m = application_tag(content)->0;
    lemma_found_tag(content, m, "application"@);
    lemma_tag_names();
    let front = part(content, 0, m.start);
    let attrs = m.groups[1]->0;
    let slash = m.groups[2]->0;
    let back = part(content, m.end, encode_utf8(content).len() as int);
    let new = with_setting(attrs, attribute_pattern(name), setting(name, value));
    assert(front + start_tag("application"@, attrs, slash) + back == front + "<application"@ + attrs
        + slash + ">"@ + back);
    assert(front + start_tag("application"@, new, slash) + back == front + "<application"@ + new + slash
        + ">"@ + back);
}

// ---------------------------------------------------------------------------------------------
// Keys
// ---------------------------------------------------------------------------------------------

/// A tag holds an API key for Google Maps if and only if it has one of the two names, in either kind of
/// quotes.
pub proof fn law_names_of_keys(tag: Seq<char>)
    ensures
        is_maps_tag(tag) <==> {
            ||| contains_text(tag, "android:name=\"com.google.android.maps.v2.API_KEY\""@)
            ||| contains_text(tag, "android:name='com.google.android.maps.v2.API_KEY'"@)
            ||| contains_text(tag, "android:name=\"com.google.android.geo.API_KEY\""@)
            ||| contains_text(tag, "android:name='com.google.android.geo.API_KEY'"@)
        },
{
}

/// A tag with a key has its value set to the new key, and one without stays.
pub proof fn law_value_is_the_key(m: Found, key: Seq<char>)
    requires
        m.groups[0] is Some,
    ensures
        is_maps_tag(m.groups[0]->0) ==> with_key(m, key) == "<meta-data"@ + with_setting(
            m.groups[1]->0,
            META_DATA_VALUE@,
            " android:value=\""@ + key + "\""@,
        ) + m.groups[2]->0 + ">"@,
        !is_maps_tag(m.groups[0]->0) ==> with_key(m, key) == m.groups[0]->0,
{
    lemma_tag_names();
    lemma_key_setting(key);
}

proof fn lemma_key_setting(key: Seq<char>)
    ensures
        setting("android:value"@, key) == " android:value=\""@ + key + "\""@,
{
    reveal_strlit(" ");
    reveal_strlit("=\"");
    reveal_strlit("android:value");
    reveal_strlit(" android:value=\"");
    assert(" "@ + "android:value"@ + "=\""@ == " android:value=\""@);
}

/// A manifest without API keys stays as it is.
pub proof fn law_no_keys_no_change(content: Seq<char>, key: Seq<char>)
    requires
        lie_in(meta_data_tags(content), content),
        forall|k: int|
            0 <= k < meta_data_tags(content).len() ==> !is_maps_tag(
                (#[trigger] meta_data_tags(content)[k]).groups[0]->0,
            ),
    ensures
        with_maps_api_keys(content, key) == content,
{
    let list = meta_data_tags(content);
    let with = with_keys(list, key);
    assert forall|k: int| 0 <= k < list.len() implies with[k] == part(
        content,
        (#[trigger] list[k]).start,
        list[k].end,
    ) by {
        assert(lies_in(list[k], content));
    }
    lemma_replaced_by_itself(content, list, with);
}

/// The last character of a tag is its only `>`.
proof fn lemma_one_close(name: Seq<char>, attrs: Seq<char>, slash: Seq<char>)
    requires
        !name.contains('>'),
        !attrs.contains('>'),
        !slash.contains('>'),
    ensures
        start_tag(name, attrs, slash).last() == '>',
        forall|j: int|
            0 <= j < start_tag(name, attrs, slash).len() - 1 ==> #[trigger] start_tag(
                name,
                attrs,
                slash,
            )[j] != '>',
{
    let tag = start_tag(name, attrs, slash);
    let n = 1 + name.len();
    assert forall|j: int| 0 <= j < tag.len() - 1 implies #[trigger] tag[j] != '>' by {
        if 1 <= j < n {
            assert(tag[j] == name[j - 1]);
        } else if n <= j < n + attrs.len() {
            assert(tag[j] == attrs[j - n]);
        } else if n + attrs.len() <= j {
            assert(tag[j] == slash[j - n - attrs.len()]);
        }
    }
}

/// A tag that starts in another one ends with it.
proof fn lemma_same_end(text: Seq<char>, own: Seq<char>, i: int, whole: Seq<char>, at: int)
    requires
        0 <= at <= i < at + whole.len() <= text.len(),
        i + own.len() <= text.len(),
        text.subrange(i, i + own.len()) == own,
        text.subrange(at, at + whole.len()) == whole,
        own.len() > 0,
        whole.len() > 0,
        own.last() == '>',
        whole.last() == '>',
        forall|j: int| 0 <= j < own.len() - 1 ==> #[trigger] own[j] != '>',
        forall|j: int| 0 <= j < whole.len() - 1 ==> #[trigger] whole[j] != '>',
    ensures
        i + own.len() == at + whole.len(),
        whole.skip(i - at) == own,
{
    let p = i + own.len() - 1;
    let q = at + whole.len() - 1;
    assert(text[p] == own[own.len() - 1]);
    assert(text[q] == whole[whole.len() - 1]);
    if p < q {
        assert(text[p] == whole[p - at]);
    }
    if q < p {
        assert(text[q] == own[q - i]);
    }
    assert(whole.skip(i - at) == own) by {
        assert forall|j: int| 0 <= j < own.len() implies whole[i - at + j] == own[j] by {
            assert(text[i + j] == whole[i - at + j]);
            assert(text[i + j] == own[j]);
        }
    }
}

/// A tag in which a tag with an API key lies holds one.
proof fn lemma_maps_within(
    whole: Seq<char>,
    d: int,
    name: Seq<char>,
    attrs: Seq<char>,
    slash: Seq<char>,
)
    requires
        0 <= d <= whole.len(),
        whole.skip(d) == start_tag(name, attrs, slash),
        is_maps_tag(attrs),
    ensures
        is_maps_tag(whole),
{
    let before = whole.take(d) + seq!['<'] + name;
    let after = slash + seq!['>'];
    assert(whole == whole.take(d) + whole.skip(d));
    assert(whole == before + attrs + after);
    if contains_text(attrs, "android:name=\"com.google.android.maps.v2.API_KEY\""@) {
        lemma_within(
            before,
            attrs,
            after,
            "android:name=\"com.google.android.maps.v2.API_KEY\""@,
        );
    } else if contains_text(attrs, "android:name='com.google.android.maps.v2.API_KEY'"@) {
        lemma_within(
            before,
            attrs,
            after,
            "android:name='com.google.android.maps.v2.API_KEY'"@,
        );
    } else if contains_text(attrs, "android:name=\"com.google.android.geo.API_KEY\""@) {
        lemma_within(before, attrs, after, "android:name=\"com.google.android.geo.API_KEY\""@);
    } else {
        lemma_within(before, attrs, after, "android:name='com.google.android.geo.API_KEY'"@);
    }
}

/// A match in which a tag with an API key starts holds one.
#[verifier::spinoff_prover]
#[verifier::rlimit(40)]
proof fn lemma_key_in_match(
    text: Seq<char>,
    m: Found,
    front: Seq<char>,
    attrs: Seq<char>,
    slash: Seq<char>,
    back: Seq<char>,
)
    requires
        lies_in(m, text),
        is_tag(m, text, "meta-data"@),
        part(text, 0, m.start).len() <= front.len() < part(text, 0, m.end).len(),
        text == tag_text("meta-data"@, front, attrs, slash, back),
        !attrs.contains('>'),
        !slash.contains('>'),
        is_maps_tag(attrs),
    ensures
        is_maps_tag(m.groups[0]->0),
{
    let i = front.len() as int;
    let at = part(text, 0, m.start).len() as int;
    let whole = m.groups[0]->0;
    let own = start_tag("meta-data"@, attrs, slash);
    lemma_found_tag(text, m, "meta-data"@);
    lemma_match_place(text, m);
    assert(!"meta-data"@.contains('>')) by {
        reveal_strlit("meta-data");
    }
    lemma_one_close("meta-data"@, m.groups[1]->0, m.groups[2]->0);
    lemma_one_close("meta-data"@, attrs, slash);
    assert(text.subrange(i, i + own.len()) == own);
    lemma_same_end(text, own, i, whole, at);
    lemma_maps_within(whole, i - at, "meta-data"@, attrs, slash);
}

/// A `<meta-data>` tag that stands in a text is found, or lies in one that is found and ends where it ends.
#[verifier::spinoff_prover]
#[verifier::rlimit(40)]
proof fn lemma_key_is_found(
    text: Seq<char>,
    front: Seq<char>,
    attrs: Seq<char>,
    slash: Seq<char>,
    back: Seq<char>,
) -> (k: int)
    requires
        keys_are_found(text),
        text == tag_text("meta-data"@, front, attrs, slash, back),
        attrs.len() > 0 ==> !is_word(attrs[0]),
        !attrs.contains('>'),
        slash == Seq::<char>::empty() || slash == seq!['/'],
        is_maps_tag(attrs),
    ensures
        0 <= k < meta_data_tags(text).len(),
        is_maps_tag(meta_data_tags(text)[k].groups[0]->0),
{
    let tags = meta_data_tags(text);
    let i = front.len() as int;
    lemma_tag_is_open("meta-data"@, front, attrs, slash, back);
    assert(opens_tag(text, "meta-data"@, i));
    assert(covered(text, tags, i));
    let k = choose|k: int|
        0 <= k < tags.len() && part(text, 0, (#[trigger] tags[k]).start).len() <= i < part(
            text,
            0,
            tags[k].end,
        ).len();
    assert(lies_in(tags[k], text));
    assert(!slash.contains('>'));
    lemma_key_in_match(text, tags[k], front, attrs, slash, back);
    k
}

/// Whatever else is asked for, no more than the `<application>` tag changes before the keys are replaced.
#[verifier::spinoff_prover]
#[verifier::rlimit(40)]
proof fn lemma_around_tag(content: Seq<char>, debuggable: bool, key: Seq<char>) -> (tag: Seq<char>)
    requires
        all_is_found(content, debuggable, Some(key)),
        application_tag(content) is Some,
    ensures
        ({
            let m = application_tag(content)->0;
            with_attributes(content, debuggable) == part(content, 0, m.start) + tag + part(
                content,
                m.end,
                encode_utf8(content).len() as int,
            )
        }),
{
    let m = application_tag(content)->0;
    let attrs = m.groups[1]->0;
    let name = "android:networkSecurityConfig"@;
    let value = "@xml/nsc_mitm"@;
    let set = setting(name, value);
    let new = with_setting(attrs, attribute_pattern(name), set);
    let first = new_tag("application"@, m, new);
    let once = with_config(content);
    assert(once == in_place(content, m, first));
    if debuggable {
        lemma_found_tag(content, m, "application"@);
        lemma_setting_not_empty(name, value);
        assert(!name.contains('>') && !value.contains('>')) by {
            reveal_strlit("android:networkSecurityConfig");
            reveal_strlit("@xml/nsc_mitm");
        }
        lemma_setting_holds(name, value, '>');
        lemma_setting_is_inner(attrs, m.groups[2]->0, attribute_pattern(name), set);
        lemma_tag_again(content, new);
        let d = application_tag(once)->0;
        let mark = "android:debuggable"@;
        let last = with_setting(
            d.groups[1]->0,
            attribute_pattern(mark),
            setting(mark, "true"@),
        );
        new_tag("application"@, d, last)
    } else {
        first
    }
}

/// Whenever a key is given, whether the app is to be marked as debuggable or not, each `<meta-data>` tag
/// before or after the `<application>` tag that holds an API key for Google Maps leads to the new key in
/// the result.
#[verifier::spinoff_prover]
#[verifier::rlimit(40)]
pub proof fn law_every_key_is_replaced(
    content: Seq<char>,
    debuggable: bool,
    key: Seq<char>,
    before: Seq<char>,
    attrs: Seq<char>,
    slash: Seq<char>,
    after: Seq<char>,
)
    requires
        all_is_found(content, debuggable, Some(key)),
        application_tag(content) is Some,
        ({
            let m = application_tag(content)->0;
            let text = before + "<meta-data"@ + attrs + slash + ">"@ + after;
            ||| text == part(content, 0, m.start)
            ||| text == part(content, m.end, encode_utf8(content).len() as int)
        }),
        attrs.len() > 0 ==> !is_word(attrs[0]),
        !attrs.contains('>'),
        slash == Seq::<char>::empty() || slash == seq!['/'],
        ({
            ||| contains_text(attrs, "android:name=\"com.google.android.maps.v2.API_KEY\""@)
            ||| contains_text(attrs, "android:name='com.google.android.maps.v2.API_KEY'"@)
            ||| contains_text(attrs, "android:name=\"com.google.android.geo.API_KEY\""@)
            ||| contains_text(attrs, "android:name='com.google.android.geo.API_KEY'"@)
        }),
    ensures
        contains_text(
            modified(content, debuggable, Some(key)),
            " android:value=\""@ + key + "\""@,
        ),
{
    let m = application_tag(content)->0;
    let front = part(content, 0, m.start);
    let back = part(content, m.end, encode_utf8(content).len() as int);
    let tag = lemma_around_tag(content, debuggable, key);
    let text = with_attributes(content, debuggable);
    let own = before + "<meta-data"@ + attrs + slash + ">"@ + after;
    lemma_tag_names();
    assert(own == before + start_tag("meta-data"@, attrs, slash) + after);
    let (x, y) = if own == front {
        (before, after + tag + back)
    } else {
        (front + tag + before, after)
    };
    if own == front {
        assert(front + tag + back == x + start_tag("meta-data"@, attrs, slash) + y);
    } else {
        assert(front + tag + back == x + start_tag("meta-data"@, attrs, slash) + y);
    }
    let k = lemma_key_is_found(text, x, attrs, slash, y);
    let found = meta_data_tags(text)[k];
    let set = " android:value=\""@ + key + "\""@;
    lemma_key_setting(key);
    law_key_present(found, key);
    law_keys_in_manifest(text, key, k);
    let all = with_maps_api_keys(text, key);
    let new = with_key(found, key);
    let i = choose|i: int| occurs_at(all, new, i);
    lemma_within(all.take(i), new, all.skip(i + new.len()), set);
    assert(all.take(i) + new + all.skip(i + new.len()) == all) by {
        assert(all.subrange(i, i + new.len()) == new);
    }
}

// ---------------------------------------------------------------------------------------------
// Changes
// ---------------------------------------------------------------------------------------------

/// The changes do not depend on each other. The reference to the network security configuration is always
/// set; marking the app as debuggable is one more setting in what comes of that; and replacing the keys is
/// one more step after both, whether the app is marked or not.
pub proof fn law_changes_are_independent(content: Seq<char>, debuggable: bool, key: Seq<char>)
    ensures
        modified(content, false, None) == with_application_setting(
            content,
            application_tag(content)->0,
            "android:networkSecurityConfig"@,
            "@xml/nsc_mitm"@,
        ),
        modified(content, true, None) == with_application_setting(
            modified(content, false, None),
            application_tag(modified(content, false, None))->0,
            "android:debuggable"@,
            "true"@,
        ),
        modified(content, debuggable, Some(key)) == with_maps_api_keys(
            modified(content, debuggable, None),
            key,
        ),
{
}

/// An app is delivered as several packages if and only if its manifest names the splits, in either kind of
/// quotes.
pub proof fn law_split_apps(content: Seq<char>)
    ensures
        is_split(content) <==> {
            ||| contains_text(content, "android:name=\"com.android.vending.splits\""@)
            ||| contains_text(content, "android:name='com.android.vending.splits'"@)
        },
{
}

/// Where a value takes the place of an old one, what is put there is the expansion of the setting, and
/// where there is no old one the setting as it is. Without `$` there is no difference.
pub proof fn law_references_are_expanded(
    content: Seq<char>,
    m: Found,
    name: Seq<char>,
    value: Seq<char>,
)
    ensures
        ({
            let attrs = m.groups[1]->0;
            let pattern = attribute_pattern(name);
            let set = seq![' '] + name + seq!['=', '"'] + value + seq!['"'];
            let new = if regex_captures(pattern, attrs) is Some {
                regex_replace(pattern, attrs, set)
            } else {
                attrs + set
            };
            with_application_attr(content, m, name, value) == part(content, 0, m.start)
                + "<application"@ + new + m.groups[2]->0 + ">"@ + part(
                content,
                m.end,
                encode_utf8(content).len() as int,
            )
        }),
        regex_captures(attribute_pattern(name), m.groups[1]->0) is None ==> with_application_attr(
            content,
            m,
            name,
            value,
        ) == with_application_setting(content, m, name, value),
{
    law_settings_are_written(name, value);
    lemma_tag_names();
    let attrs = m.groups[1]->0;
    let new = with_attribute(attrs, attribute_pattern(name), setting(name, value));
    let front = part(content, 0, m.start);
    let back = part(content, m.end, encode_utf8(content).len() as int);
    assert(front + start_tag("application"@, new, m.groups[2]->0) + back == front + "<application"@
        + new + m.groups[2]->0 + ">"@ + back);
}

/// Each `<meta-data>` tag gives way to what becomes of it, in its place.
pub proof fn law_each_tag_in_its_place(content: Seq<char>, key: Seq<char>, news: Seq<Seq<char>>)
    requires
        news.len() == meta_data_tags(content).len(),
        forall|i: int|
            0 <= i < news.len() ==> #[trigger] news[i] == with_key(meta_data_tags(content)[i], key),
    ensures
        with_maps_api_keys(content, key) == replaced(content, meta_data_tags(content), news),
{
    assert(news == with_keys(meta_data_tags(content), key));
}

/// A key is given if and only if there is one.
pub proof fn law_keys_are_passed_on(key: Option<&str>)
    ensures
        key matches Some(k) ==> text_option(key) == Some(k@),
        key is None ==> text_option(key) is None,
{
}

} // verus!
