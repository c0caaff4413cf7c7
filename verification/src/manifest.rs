//! The changes to `AndroidManifest.xml`.
use crate::pattern::all_found;
use crate::pattern::attribute_pattern;
use crate::pattern::attribute_regex;
use crate::pattern::captures;
use crate::pattern::captures_iter;
use crate::pattern::covered;
use crate::pattern::all_white;
use crate::pattern::attribute_text;
use crate::pattern::gap;
use crate::pattern::group;
use crate::pattern::is_attribute;
use crate::pattern::is_expansion;
use crate::pattern::is_first_attribute;
use crate::pattern::is_first_tag;
use crate::pattern::is_match;
use crate::pattern::is_tag;
use crate::pattern::known_pattern;
use crate::pattern::lemma_replaced_contains;
use crate::pattern::lemma_replaced_keeps_gaps;
use crate::pattern::lie_in;
use crate::pattern::lies_in;
use crate::pattern::made_of;
use crate::pattern::opens_tag;
use crate::pattern::regex_captures;
use crate::pattern::regex_captures_iter;
use crate::pattern::regex_replace;
use crate::pattern::replace;
use crate::pattern::replace_literally;
use crate::pattern::replace_matches;
use crate::pattern::replaced;
use crate::pattern::short;
use crate::pattern::Found;
use crate::pattern::Match;
use crate::pattern::APPLICATION_TAG;
use crate::pattern::META_DATA_TAG;
use crate::pattern::META_DATA_VALUE;
use crate::ordinary::lemma_ordinary;
use crate::ordinary::lemma_ordinary_has_tag;
use crate::ordinary::lemma_tag_is_there;
use crate::ordinary::ordinary;
use crate::tag::is_inner;
use crate::tag::lemma_tag_is_open;
use crate::tag::lemma_tag_names;
use crate::tag::start_tag;
use crate::tag::tag_text;
use crate::text::contains;
use crate::text::contains_text;
use crate::text::lemma_find_from;
use crate::text::lemma_parts;
use crate::text::lemma_within;
use crate::text::occurs_at;
use crate::text::part;
use crate::text::replace_first;
use crate::text::replace_once;
use crate::text::texts;
use vstd::prelude::*;
use vstd::utf8::encode_utf8;

verus! {

/// Why a manifest could not be changed.
#[derive(Debug)]
pub enum ManifestError {
    /// There is no `<application>` tag.
    NoApplicationTag,
    /// The pattern of an attribute was refused.
    Pattern(String),
}

impl ManifestError {
    /// What the user is told.
    pub fn message(&self) -> (r: String)
        ensures
            r@ == match *self {
                ManifestError::NoApplicationTag => "AndroidManifest.xml has no <application> tag"@,
                ManifestError::Pattern(reason) => reason@,
            },
    {
        match self {
            ManifestError::NoApplicationTag => {
                "AndroidManifest.xml has no <application> tag".to_string()
            },
            ManifestError::Pattern(reason) => reason.clone(),
        }
    }
}

// ---------------------------------------------------------------------------------------------
// Model
// ---------------------------------------------------------------------------------------------

/// An attribute with its value, as it is written into a tag.
pub open spec fn setting(name: Seq<char>, value: Seq<char>) -> Seq<char> {
    " "@ + name + "=\""@ + value + "\""@
}

/// `attrs` with the attribute that `pattern` stands for set: the one that is there gives way to the
/// setting as it is, or the setting is appended.
pub open spec fn with_setting(attrs: Seq<char>, pattern: Seq<char>, setting: Seq<char>) -> Seq<
    char,
> {
    match regex_captures(pattern, attrs) {
        Some(m) => in_place(attrs, m, setting),
        None => attrs + setting,
    }
}

/// What stands before the place of a setting.
pub open spec fn before_setting(attrs: Seq<char>, pattern: Seq<char>) -> Seq<char> {
    match regex_captures(pattern, attrs) {
        Some(m) => part(attrs, 0, m.start),
        None => attrs,
    }
}

/// What stands after the place of a setting, without the attribute that gives way to it.
pub open spec fn after_setting(attrs: Seq<char>, pattern: Seq<char>) -> Seq<char> {
    match regex_captures(pattern, attrs) {
        Some(m) => part(attrs, m.end, encode_utf8(attrs).len() as int),
        None => Seq::empty(),
    }
}

/// `attrs` with the attribute that `pattern` stands for set: the one that is there gives way to the
/// setting, in which references to the match are expanded, or the setting is appended as it is.
pub open spec fn with_attribute(attrs: Seq<char>, pattern: Seq<char>, setting: Seq<char>) -> Seq<
    char,
> {
    if regex_captures(pattern, attrs) is Some {
        regex_replace(pattern, attrs, setting)
    } else {
        attrs + setting
    }
}

/// The tag `m` with new attributes; an empty tag stays one.
pub open spec fn new_tag(name: Seq<char>, m: Found, attrs: Seq<char>) -> Seq<char> {
    start_tag(name, attrs, m.groups[2]->0)
}

/// The match has the two groups of a tag.
pub open spec fn has_tag_groups(m: Found) -> bool {
    &&& m.groups.len() == 3
    &&& m.groups[0] is Some
    &&& m.groups[1] is Some
    &&& m.groups[2] is Some
}

/// `content` with the text of the match replaced by `new`.
pub open spec fn in_place(content: Seq<char>, m: Found, new: Seq<char>) -> Seq<char> {
    part(content, 0, m.start) + new + part(content, m.end, encode_utf8(content).len() as int)
}

/// `content` with an attribute of the `<application>` tag `m` set, references to an old value expanded.
pub open spec fn with_application_attr(
    content: Seq<char>,
    m: Found,
    name: Seq<char>,
    value: Seq<char>,
) -> Seq<char> {
    let attrs = with_attribute(m.groups[1]->0, attribute_pattern(name), setting(name, value));
    in_place(content, m, new_tag("application"@, m, attrs))
}

/// What `with_application_attr` comes to for a setting without `$`.
pub open spec fn with_application_setting(
    content: Seq<char>,
    m: Found,
    name: Seq<char>,
    value: Seq<char>,
) -> Seq<char> {
    let attrs = with_setting(m.groups[1]->0, attribute_pattern(name), setting(name, value));
    in_place(content, m, new_tag("application"@, m, attrs))
}

/// The `<application>` tag of a manifest.
pub open spec fn application_tag(content: Seq<char>) -> Option<Found> {
    regex_captures(APPLICATION_TAG@, content)
}

/// The `<meta-data>` tags of a manifest.
pub open spec fn meta_data_tags(content: Seq<char>) -> Seq<Found> {
    regex_captures_iter(META_DATA_TAG@, content)
}

/// There is an `<application>` tag.
pub open spec fn has_tag(content: Seq<char>) -> bool {
    exists|i: int| opens_tag(content, "application"@, i)
}

/// The `<application>` tag that is found is the first there is.
pub open spec fn tag_is_first(content: Seq<char>) -> bool {
    &&& is_first_tag(application_tag(content), content, "application"@)
    &&& application_tag(content) matches Some(m) ==> lies_in(m, content)
}

/// The attribute that is found in the `<application>` tag is the first there is.
pub open spec fn attribute_is_first(content: Seq<char>, name: Seq<char>) -> bool {
    application_tag(content) matches Some(m) ==> is_first_attribute(
        regex_captures(attribute_pattern(name), m.groups[1]->0),
        m.groups[1]->0,
        name,
    )
}

/// The `<meta-data>` tags that are found are all there are, and the value that is found in one with an
/// API key is the first there is.
pub open spec fn keys_are_found(content: Seq<char>) -> bool {
    let tags = meta_data_tags(content);
    &&& lie_in(tags, content)
    &&& forall|i: int| 0 <= i < tags.len() ==> is_tag(#[trigger] tags[i], content, "meta-data"@)
    &&& forall|i: int| opens_tag(content, "meta-data"@, i) ==> covered(content, tags, i)
    &&& forall|i: int|
        0 <= i < tags.len() && is_maps_tag((#[trigger] tags[i]).groups[0]->0)
            ==> is_first_attribute(
            regex_captures(META_DATA_VALUE@, tags[i].groups[1]->0),
            tags[i].groups[1]->0,
            "android:value"@,
        )
}

/// The tag holds an API key for Google Maps.
pub open spec fn is_maps_tag(tag: Seq<char>) -> bool {
    ||| contains_text(tag, "android:name=\"com.google.android.maps.v2.API_KEY\""@)
    ||| contains_text(tag, "android:name='com.google.android.maps.v2.API_KEY'"@)
    ||| contains_text(tag, "android:name=\"com.google.android.geo.API_KEY\""@)
    ||| contains_text(tag, "android:name='com.google.android.geo.API_KEY'"@)
}

/// What becomes of a `<meta-data>` tag: one with an API key gets the new key, others stay.
pub open spec fn with_key(m: Found, key: Seq<char>) -> Seq<char> {
    if is_maps_tag(m.groups[0]->0) {
        new_tag(
            "meta-data"@,
            m,
            with_setting(m.groups[1]->0, META_DATA_VALUE@, setting("android:value"@, key)),
        )
    } else {
        m.groups[0]->0
    }
}

/// What becomes of each `<meta-data>` tag.
pub open spec fn with_keys(list: Seq<Found>, key: Seq<char>) -> Seq<Seq<char>> {
    Seq::new(list.len(), |i: int| with_key(list[i], key))
}

/// `content` with the API keys for Google Maps replaced.
pub open spec fn with_maps_api_keys(content: Seq<char>, key: Seq<char>) -> Seq<char> {
    replaced(content, meta_data_tags(content), with_keys(meta_data_tags(content), key))
}

/// The manifest belongs to an app that is delivered as several packages.
pub open spec fn is_split(content: Seq<char>) -> bool {
    ||| contains_text(content, "android:name=\"com.android.vending.splits\""@)
    ||| contains_text(content, "android:name='com.android.vending.splits'"@)
}

// ---------------------------------------------------------------------------------------------
// Operations
// ---------------------------------------------------------------------------------------------

/// An attribute with its value, as it is written into a tag.
fn write_setting(name: &str, value: &str) -> (r: String)
    ensures
        r@ == setting(name@, value@),
{
    " ".to_string().concat(name).concat("=\"").concat(value).concat("\"")
}

/// Sets the attribute that `pattern` stands for, expanding references to the one that is there.
fn set_attribute(attrs: &str, pattern: &str, setting: &str) -> (r: Result<String, regex::Error>)
    requires
        setting@.len() > 0,
        setting@[0] != '$',
    ensures
        known_pattern(pattern@) ==> r is Ok,
        r matches Ok(s) ==> {
            &&& s@ == with_attribute(attrs@, pattern@, setting@)
            &&& !setting@.contains('$') ==> s@ == with_setting(attrs@, pattern@, setting@)
            &&& s@.len() > 0
            &&& s@[0] == setting@[0] || attrs@.len() > 0 && s@[0] == attrs@[0]
            &&& forall|name: Seq<char>| #[trigger]
                attribute_pattern(name) == pattern@ ==> is_first_attribute(
                    regex_captures(pattern@, attrs@),
                    attrs@,
                    name,
                )
        },
{
    match is_match(pattern, attrs) {
        Ok(true) => {
            let r = replace(pattern, attrs, setting);
            proof {
                if let Ok(s) = &r {
                    let m = regex_captures(pattern@, attrs@)->0;
                    let front = part(attrs@, 0, m.start);
                    let back = part(attrs@, m.end, encode_utf8(attrs@).len() as int);
                    lemma_parts(attrs@, m.start, m.end);
                    let x = choose|x: Seq<char>| #[trigger]
                        is_expansion(x, setting@) && s@ == front + x + back;
                    assert(setting@.take(1) == seq![setting@[0]]);
                    assert(!setting@.take(1).contains('$'));
                    assert(x.take(1)[0] == x[0]);
                    if front.len() > 0 {
                        assert(attrs@[0] == front[0]);
                    }
                }
            }
            r
        },
        Ok(false) => Ok(attrs.to_string().concat(setting)),
        Err(e) => Err(e),
    }
}

/// Sets the value of a `<meta-data>` tag as it is.
fn set_value(attrs: &str, setting: &str) -> (r: Result<String, regex::Error>)
    ensures
        r matches Ok(s) && s@ == with_setting(attrs@, META_DATA_VALUE@, setting@),
        is_first_attribute(
            regex_captures(META_DATA_VALUE@, attrs@),
            attrs@,
            "android:value"@,
        ),
{
    match is_match(META_DATA_VALUE, attrs) {
        Ok(true) => replace_literally(META_DATA_VALUE, attrs, setting),
        Ok(false) => Ok(attrs.to_string().concat(setting)),
        Err(e) => Err(e),
    }
}

/// The attributes around the place of a setting.
pub proof fn lemma_setting_parts(attrs: Seq<char>, pattern: Seq<char>, set: Seq<char>)
    requires
        regex_captures(pattern, attrs) matches Some(m) ==> lies_in(m, attrs),
    ensures
        ({
            let x = before_setting(attrs, pattern);
            let y = after_setting(attrs, pattern);
            &&& with_setting(attrs, pattern, set) == x + set + y
            &&& x.len() + y.len() <= attrs.len()
            &&& attrs.take(x.len() as int) == x
            &&& attrs.skip(attrs.len() - y.len()) == y
        }),
{
    if let Some(m) = regex_captures(pattern, attrs) {
        lemma_parts(attrs, m.start, m.end);
    }
    let x = before_setting(attrs, pattern);
    let y = after_setting(attrs, pattern);
    assert(with_setting(attrs, pattern, set) == x + set + y);
    assert(attrs.take(x.len() as int) == x);
    assert(attrs.skip(attrs.len() - y.len()) == y);
}

/// What a setting makes of the attributes of a tag are attributes of a tag.
pub proof fn lemma_setting_is_inner(
    attrs: Seq<char>,
    slash: Seq<char>,
    pattern: Seq<char>,
    set: Seq<char>,
)
    requires
        is_inner(attrs, slash),
        regex_captures(pattern, attrs) matches Some(m) ==> lies_in(m, attrs),
        set.len() > 0,
        set[0] == ' ',
        set.last() == '"',
        !set.contains('>'),
    ensures
        is_inner(with_setting(attrs, pattern, set), slash),
{
    let x = before_setting(attrs, pattern);
    let y = after_setting(attrs, pattern);
    let new = with_setting(attrs, pattern, set);
    lemma_setting_parts(attrs, pattern, set);
    assert forall|k: int| 0 <= k < x.len() implies #[trigger] x[k] == attrs[k] by {
        assert(attrs.take(x.len() as int)[k] == x[k]);
    }
    let from = attrs.len() - y.len();
    assert forall|k: int| 0 <= k < y.len() implies #[trigger] y[k] == attrs[from + k] by {
        assert(attrs.skip(from)[k] == y[k]);
    }
    assert forall|k: int| 0 <= k < new.len() implies new[k] != '>' by {
        if k < x.len() {
            assert(new[k] == x[k]);
        } else if k < x.len() + set.len() {
            assert(new[k] == set[k - x.len()]);
        } else {
            assert(new[k] == y[k - x.len() - set.len()]);
        }
    }
    if x.len() > 0 {
        assert(new[0] == x[0]);
    } else {
        assert(new[0] == set[0]);
    }
    if y.len() > 0 {
        assert(new.last() == y[y.len() - 1]);
    } else {
        assert(new.last() == set.last());
    }
}

/// Puts a tag with new attributes in the place of the `<application>` tag `tag` of `content`.
pub fn replace_application_tag(content: &str, tag: &Match, attrs: &str) -> (r: String)
    requires
        has_tag_groups(tag@),
    ensures
        r@ == replace_first(
            content@,
            tag@.groups[0]->0,
            new_tag("application"@, tag@, attrs@),
        ),
{
    proof {
        lemma_tag_names();
    }
    let whole = group(tag, 0);
    let slash = group(tag, 2);
    let replacement = "<application".to_string().concat(attrs).concat(slash.as_str()).concat(">");
    replace_once(content, whole.as_str(), replacement.as_str())
}

/// Replacing the first occurrence of a match's text replaces the match, if nothing like it stands
/// before it.
proof fn lemma_first_is_match(content: Seq<char>, m: Found, new: Seq<char>)
    requires
        lies_in(m, content),
        forall|i: int|
            i < part(content, 0, m.start).len() ==> !occurs_at(
                content,
                part(content, m.start, m.end),
                i,
            ),
    ensures
        replace_first(content, part(content, m.start, m.end), new) == in_place(content, m, new),
{
    let front = part(content, 0, m.start);
    let whole = part(content, m.start, m.end);
    let back = part(content, m.end, encode_utf8(content).len() as int);
    let at = front.len() as int;
    lemma_parts(content, m.start, m.end);
    assert(content == front + whole + back);
    assert(content.subrange(at, at + whole.len()) == whole);
    assert(occurs_at(content, whole, at));
    lemma_find_from(content, whole, 0);
    let i = crate::text::find_from(content, whole, 0)->0;
    assert(i == at);
    assert(content.take(at) == front);
    assert(content.skip(at + whole.len()) == back);
}

/// Sets an attribute of the `<application>` tag of a manifest.
///
/// All that stands outside the tag stays, and the tag is found again in the result. In a value with `$`
/// that takes the place of an old one references to the old attribute are expanded. It fails for want of
/// a tag; the pattern of the attribute is refused for an overlong name only.
pub fn set_application_attr(content: &str, name: &str, value: &str) -> (r: Result<
    String,
    ManifestError,
>)
    ensures
        application_tag(content@) is Some <==> has_tag(content@),
        short(name@) ==> (r is Ok <==> has_tag(content@)),
        is_first_tag(application_tag(content@), content@, "application"@),
        match application_tag(content@) {
            Some(m) => {
                &&& lies_in(m, content@)
                &&& match r {
                    Ok(s) => {
                        &&& s@ == with_application_attr(content@, m, name@, value@)
                        &&& !setting(name@, value@).contains('$') ==> s@
                            == with_application_setting(content@, m, name@, value@)
                        &&& is_first_attribute(
                            regex_captures(attribute_pattern(name@), m.groups[1]->0),
                            m.groups[1]->0,
                            name@,
                        )
                        &&& opens_tag(
                            s@,
                            "application"@,
                            part(content@, 0, m.start).len() as int,
                        )
                    },
                    Err(e) => e is Pattern && !short(name@),
                }
            },
            None => r == Err::<String, ManifestError>(ManifestError::NoApplicationTag),
        },
{
    let tag = match captures(APPLICATION_TAG, content) {
        Ok(Some(tag)) => tag,
        Ok(None) => {
            proof {
                lemma_tag_is_there(content@);
            }
            return Err(ManifestError::NoApplicationTag);
        },
        Err(e) => {
            return Err(ManifestError::Pattern(e.to_string()));
        },
    };
    let ghost m = tag@;
    proof {
        lemma_tag_is_there(content@);
    }
    let attrs = group(&tag, 1);
    let pattern = attribute_regex(name);
    let set = write_setting(name, value);
    proof {
        lemma_setting_not_empty(name@, value@);
        assert(attribute_pattern(name@) == pattern@);
    }
    match set_attribute(attrs.as_str(), pattern.as_str(), set.as_str()) {
        Ok(new_attrs) => {
            let s = replace_application_tag(content, &tag, new_attrs.as_str());
            proof {
                lemma_first_is_match(content@, m, new_tag("application"@, m, new_attrs@));
                lemma_tag_is_open(
                    "application"@,
                    part(content@, 0, m.start),
                    new_attrs@,
                    m.groups[2]->0,
                    part(content@, m.end, encode_utf8(content@).len() as int),
                );
            }
            Ok(s)
        },
        Err(e) => Err(ManifestError::Pattern(e.to_string())),
    }
}

/// A setting begins with a space and ends with a quote.
pub proof fn lemma_setting_not_empty(name: Seq<char>, value: Seq<char>)
    ensures
        setting(name, value).len() > 1,
        setting(name, value)[0] == ' ',
        name.len() > 0 ==> setting(name, value)[1] == name[0],
        setting(name, value).last() == '"',
{
    reveal_strlit(" ");
    reveal_strlit("\"");
}

/// A setting holds a character only if its name or its value does, or the quotes and the equals sign.
pub proof fn lemma_setting_holds(name: Seq<char>, value: Seq<char>, c: char)
    requires
        c != ' ',
        c != '=',
        c != '"',
        !name.contains(c),
        !value.contains(c),
    ensures
        !setting(name, value).contains(c),
{
    reveal_strlit(" ");
    reveal_strlit("=\"");
    reveal_strlit("\"");
    let all = setting(name, value);
    assert forall|k: int| 0 <= k < all.len() implies all[k] != c by {
        if 1 <= k < 1 + name.len() {
            assert(all[k] == name[k - 1]);
        } else if 3 + name.len() <= k < 3 + name.len() + value.len() {
            assert(all[k] == value[k - 3 - name.len()]);
        }
    }
}

/// Whether a tag holds an API key for Google Maps.
fn holds_maps_key(tag: &str) -> (r: bool)
    ensures
        r == is_maps_tag(tag@),
{
    contains(tag, "android:name=\"com.google.android.maps.v2.API_KEY\"") || contains(
        tag,
        "android:name='com.google.android.maps.v2.API_KEY'",
    ) || contains(tag, "android:name=\"com.google.android.geo.API_KEY\"") || contains(
        tag,
        "android:name='com.google.android.geo.API_KEY'",
    )
}

/// What becomes of one `<meta-data>` tag.
pub fn replace_key(tag: &Match, key: &str) -> (r: String)
    requires
        has_tag_groups(tag@),
    ensures
        r@ == with_key(tag@, key@),
        is_maps_tag(tag@.groups[0]->0) ==> is_first_attribute(
            regex_captures(META_DATA_VALUE@, tag@.groups[1]->0),
            tag@.groups[1]->0,
            "android:value"@,
        ),
{
    let whole = group(tag, 0);
    if !holds_maps_key(whole.as_str()) {
        return whole;
    }
    let attrs = group(tag, 1);
    let slash = group(tag, 2);
    let set = write_setting("android:value", key);
    proof {
        lemma_tag_names();
    }
    match set_value(attrs.as_str(), set.as_str()) {
        Ok(new_attrs) => {
            "<meta-data".to_string().concat(new_attrs.as_str()).concat(slash.as_str()).concat(">")
        },
        Err(_) => {
            assert(false);
            whole
        },
    }
}

/// Replaces the API keys for Google Maps in a manifest.
///
/// No `<meta-data>` tag is missed, and the key stands in the result as it is.
pub fn replace_maps_api_keys(content: &str, key: &str) -> (r: Result<String, ManifestError>)
    ensures
        r matches Ok(s) && s@ == with_maps_api_keys(content@, key@),
        keys_are_found(content@),
{
    let tags = match captures_iter(META_DATA_TAG, content) {
        Ok(tags) => tags,
        Err(e) => {
            return Err(ManifestError::Pattern(e.to_string()));
        },
    };
    let ghost found = all_found(tags@);
    assert forall|k: int| 0 <= k < found.len() implies {
        &&& lies_in(#[trigger] found[k], content@)
        &&& is_tag(found[k], content@, "meta-data"@)
    } by {
        assert(found[k] == tags@[k]@);
    }
    let mut with: Vec<String> = Vec::new();
    for k in 0..tags.len()
        invariant
            found == all_found(tags@),
            forall|k: int|
                0 <= k < found.len() ==> lies_in(#[trigger] found[k], content@) && is_tag(
                    found[k],
                    content@,
                    "meta-data"@,
                ),
            with@.len() == k,
            forall|i: int| 0 <= i < k ==> (#[trigger] with@[i])@ == with_key(found[i], key@),
            forall|i: int|
                0 <= i < k && is_maps_tag((#[trigger] found[i]).groups[0]->0)
                    ==> is_first_attribute(
                    regex_captures(META_DATA_VALUE@, found[i].groups[1]->0),
                    found[i].groups[1]->0,
                    "android:value"@,
                ),
    {
        assert(lies_in(found[k as int], content@));
        with.push(replace_key(&tags[k], key));
    }
    assert(texts(with@) == with_keys(found, key@));
    Ok(replace_matches(content, &tags, &with))
}

/// The first change: the manifest refers to the new network security configuration.
pub open spec fn with_config(content: Seq<char>) -> Seq<char> {
    with_application_setting(
        content,
        application_tag(content)->0,
        "android:networkSecurityConfig"@,
        "@xml/nsc_mitm"@,
    )
}

/// The second change: the app can be debugged.
pub open spec fn with_debuggable(content: Seq<char>) -> Seq<char> {
    with_application_setting(
        content,
        application_tag(content)->0,
        "android:debuggable"@,
        "true"@,
    )
}

/// The manifest before the API keys are replaced.
pub open spec fn with_attributes(content: Seq<char>, debuggable: bool) -> Seq<char> {
    if debuggable {
        with_debuggable(with_config(content))
    } else {
        with_config(content)
    }
}

/// The changed manifest.
pub open spec fn modified(content: Seq<char>, debuggable: bool, key: Option<Seq<char>>) -> Seq<
    char,
> {
    match key {
        Some(key) => with_maps_api_keys(with_attributes(content, debuggable), key),
        None => with_attributes(content, debuggable),
    }
}

/// What the searches find on the way to the changed manifest is the first there is each time.
pub open spec fn all_is_found(content: Seq<char>, debuggable: bool, key: Option<Seq<char>>) -> bool {
    &&& tag_is_first(content)
    &&& application_tag(content) is Some ==> {
        &&& attribute_is_first(content, "android:networkSecurityConfig"@)
        &&& debuggable ==> {
            &&& application_tag(with_config(content)) is Some
            &&& tag_is_first(with_config(content))
            &&& attribute_is_first(with_config(content), "android:debuggable"@)
        }
        &&& key is Some ==> keys_are_found(with_attributes(content, debuggable))
    }
}

/// The views of an optional text.
pub open spec fn text_option(s: Option<&str>) -> Option<Seq<char>> {
    match s {
        Some(s) => Some(s@),
        None => None,
    }
}

/// Changes a manifest: it refers to the new network security configuration, is marked as debuggable
/// if asked for, and gets a new API key for Google Maps if there is one. The flag tells whether the
/// manifest, as it was, belongs to an app that is delivered as several packages.
///
/// It fails for want of an `<application>` tag only. All that was asked for stands in the result of a
/// manifest of the usual form.
pub fn modify_manifest(content: &str, debuggable: bool, maps_api_key: Option<&str>) -> (r: Result<
    (String, bool),
    ManifestError,
>)
    ensures
        match application_tag(content@) {
            Some(_) => r matches Ok((s, split)) && s@ == modified(
                content@,
                debuggable,
                text_option(maps_api_key),
            ) && split == is_split(content@),
            None => r == Err::<(String, bool), ManifestError>(ManifestError::NoApplicationTag),
        },
        r is Ok <==> has_tag(content@),
        is_first_tag(application_tag(content@), content@, "application"@),
        all_is_found(content@, debuggable, text_option(maps_api_key)),
        ordinary(content@, debuggable, maps_api_key is Some) ==> (r matches Ok((s, _)) && {
            &&& contains_text(s@, " android:networkSecurityConfig=\"@xml/nsc_mitm\""@)
            &&& debuggable ==> contains_text(s@, " android:debuggable=\"true\""@)
        }),
{
    let uses_app_bundle = contains(content, "android:name=\"com.android.vending.splits\"")
        || contains(content, "android:name='com.android.vending.splits'");
    proof {
        lemma_known_settings();
    }
    let changed = match set_application_attr(
        content,
        "android:networkSecurityConfig",
        "@xml/nsc_mitm",
    ) {
        Ok(s) => s,
        Err(e) => {
            proof {
                if ordinary(content@, debuggable, maps_api_key is Some) {
                    lemma_ordinary_has_tag(content@, debuggable, maps_api_key is Some);
                }
            }
            return Err(e);
        },
    };
    let changed = if debuggable {
        match set_application_attr(changed.as_str(), "android:debuggable", "true") {
            Ok(s) => s,
            Err(e) => {
                return Err(e);
            },
        }
    } else {
        changed
    };
    let changed = match maps_api_key {
        Some(key) => match replace_maps_api_keys(changed.as_str(), key) {
            Ok(s) => s,
            Err(e) => {
                return Err(e);
            },
        },
        None => changed,
    };
    proof {
        if ordinary(content@, debuggable, maps_api_key is Some) {
            lemma_ordinary(content@, debuggable, text_option(maps_api_key));
        }
    }
    Ok((changed, uses_app_bundle))
}

/// The settings that the patcher itself makes.
pub proof fn lemma_known_settings()
    ensures
        short("android:networkSecurityConfig"@),
        short("android:debuggable"@),
        setting("android:networkSecurityConfig"@, "@xml/nsc_mitm"@)
            == " android:networkSecurityConfig=\"@xml/nsc_mitm\""@,
        setting("android:debuggable"@, "true"@) == " android:debuggable=\"true\""@,
        !setting("android:networkSecurityConfig"@, "@xml/nsc_mitm"@).contains('$'),
        !setting("android:debuggable"@, "true"@).contains('$'),
{
    reveal_strlit(" ");
    reveal_strlit("=\"");
    reveal_strlit("\"");
    reveal_strlit("android:networkSecurityConfig");
    reveal_strlit("@xml/nsc_mitm");
    reveal_strlit(" android:networkSecurityConfig=\"@xml/nsc_mitm\"");
    reveal_strlit("android:debuggable");
    reveal_strlit("true");
    reveal_strlit(" android:debuggable=\"true\"");
    assert(setting("android:networkSecurityConfig"@, "@xml/nsc_mitm"@)
        == " android:networkSecurityConfig=\"@xml/nsc_mitm\""@);
    assert(setting("android:debuggable"@, "true"@) == " android:debuggable=\"true\""@);
}

// ---------------------------------------------------------------------------------------------
// Laws
// ---------------------------------------------------------------------------------------------

/// The setting itself is a part of the attributes.
pub proof fn lemma_setting_in_attributes(attrs: Seq<char>, pattern: Seq<char>, set: Seq<char>)
    ensures
        contains_text(with_setting(attrs, pattern, set), set),
{
    assert(set.subrange(0, set.len() as int) == set);
    assert(occurs_at(set, set, 0));
    match regex_captures(pattern, attrs) {
        Some(m) => {
            lemma_within(
                part(attrs, 0, m.start),
                set,
                part(attrs, m.end, encode_utf8(attrs).len() as int),
                set,
            );
        },
        None => {
            lemma_within(attrs, set, Seq::empty(), set);
            assert(attrs + set + Seq::<char>::empty() == attrs + set);
        },
    }
}

/// What stands in the attributes of a tag stands in the text around it.
pub proof fn lemma_attributes_in_text(
    name: Seq<char>,
    front: Seq<char>,
    attrs: Seq<char>,
    slash: Seq<char>,
    back: Seq<char>,
    what: Seq<char>,
)
    requires
        contains_text(attrs, what),
    ensures
        contains_text(tag_text(name, front, attrs, slash, back), what),
        contains_text(start_tag(name, attrs, slash), what),
{
    let rest = slash + seq!['>'];
    lemma_within(seq!['<'] + name, attrs, rest, what);
    assert(seq!['<'] + name + attrs + rest == start_tag(name, attrs, slash));
    lemma_within(front, start_tag(name, attrs, slash), back, what);
}

/// After an attribute of the `<application>` tag is set, the setting stands in the manifest.
pub proof fn law_setting_present(content: Seq<char>, m: Found, name: Seq<char>, value: Seq<char>)
    ensures
        contains_text(with_application_setting(content, m, name, value), setting(name, value)),
{
    let set = setting(name, value);
    let attrs = with_setting(m.groups[1]->0, attribute_pattern(name), set);
    lemma_setting_in_attributes(m.groups[1]->0, attribute_pattern(name), set);
    lemma_attributes_in_text(
        "application"@,
        part(content, 0, m.start),
        attrs,
        m.groups[2]->0,
        part(content, m.end, encode_utf8(content).len() as int),
        set,
    );
}

/// A setting is an attribute of its name, unless the value breaks out of its quotes.
pub proof fn law_setting_is_attribute(name: Seq<char>, value: Seq<char>)
    requires
        !value.contains('"'),
    ensures
        is_attribute(setting(name, value), name),
{
    reveal_strlit(" ");
    reveal_strlit("=\"");
    reveal_strlit("\"");
    let nothing = Seq::<char>::empty();
    assert(all_white(nothing));
    assert(setting(name, value) == attribute_text(' ', name, nothing, nothing, '"', value));
    assert(made_of(setting(name, value), ' ', name, nothing, nothing, '"', value));
}

/// What stands before or after the match of `pattern` in `attrs`, or anywhere if there is none.
pub open spec fn apart(attrs: Seq<char>, pattern: Seq<char>, what: Seq<char>) -> bool {
    match regex_captures(pattern, attrs) {
        Some(m) => contains_text(part(attrs, 0, m.start), what) || contains_text(
            part(attrs, m.end, encode_utf8(attrs).len() as int),
            what,
        ),
        None => contains_text(attrs, what),
    }
}

/// Setting one attribute keeps what stands apart from it among the attributes.
pub proof fn lemma_apart_kept(attrs: Seq<char>, pattern: Seq<char>, set: Seq<char>, what: Seq<char>)
    requires
        apart(attrs, pattern, what),
    ensures
        contains_text(with_setting(attrs, pattern, set), what),
{
    let new = with_setting(attrs, pattern, set);
    match regex_captures(pattern, attrs) {
        Some(d) => {
            let front = part(attrs, 0, d.start);
            let back = part(attrs, d.end, encode_utf8(attrs).len() as int);
            if contains_text(front, what) {
                lemma_within(Seq::empty(), front, set + back, what);
                assert(Seq::<char>::empty() + front + (set + back) == new);
            } else {
                lemma_within(front + set, back, Seq::empty(), what);
                assert(front + set + back + Seq::<char>::empty() == new);
            }
        },
        None => {
            lemma_within(Seq::empty(), attrs, set, what);
            assert(Seq::<char>::empty() + attrs + set == new);
        },
    }
}

/// Setting one attribute keeps what stands apart from it in the tag, such as another setting.
pub proof fn law_other_attributes_kept(
    content: Seq<char>,
    m: Found,
    name: Seq<char>,
    value: Seq<char>,
    what: Seq<char>,
)
    requires
        apart(m.groups[1]->0, attribute_pattern(name), what),
    ensures
        contains_text(with_application_setting(content, m, name, value), what),
{
    let set = setting(name, value);
    let attrs = with_setting(m.groups[1]->0, attribute_pattern(name), set);
    lemma_apart_kept(m.groups[1]->0, attribute_pattern(name), set, what);
    lemma_attributes_in_text(
        "application"@,
        part(content, 0, m.start),
        attrs,
        m.groups[2]->0,
        part(content, m.end, encode_utf8(content).len() as int),
        what,
    );
}

/// A tag that had an API key for Google Maps has the new one.
pub proof fn law_key_present(m: Found, key: Seq<char>)
    requires
        is_maps_tag(m.groups[0]->0),
    ensures
        contains_text(with_key(m, key), setting("android:value"@, key)),
{
    let set = setting("android:value"@, key);
    let attrs = with_setting(m.groups[1]->0, META_DATA_VALUE@, set);
    lemma_setting_in_attributes(m.groups[1]->0, META_DATA_VALUE@, set);
    lemma_attributes_in_text(
        "meta-data"@,
        Seq::empty(),
        attrs,
        m.groups[2]->0,
        Seq::empty(),
        set,
    );
}

/// What becomes of a `<meta-data>` tag stands in the manifest.
pub proof fn law_keys_in_manifest(content: Seq<char>, key: Seq<char>, k: int)
    requires
        0 <= k < meta_data_tags(content).len(),
    ensures
        contains_text(
            with_maps_api_keys(content, key),
            with_key(meta_data_tags(content)[k], key),
        ),
{
    let list = meta_data_tags(content);
    lemma_replaced_contains(content, list, with_keys(list, key), k);
}

/// Replacing the API keys keeps whatever stands between two neighbouring `<meta-data>` tags, before
/// the first or after the last.
pub proof fn law_keys_keep_the_rest(content: Seq<char>, key: Seq<char>, k: int, what: Seq<char>)
    requires
        0 <= k <= meta_data_tags(content).len(),
        contains_text(gap(content, meta_data_tags(content), k), what),
    ensures
        contains_text(with_maps_api_keys(content, key), what),
{
    let list = meta_data_tags(content);
    lemma_replaced_keeps_gaps(content, list, with_keys(list, key), k, what);
}

} // verus!
