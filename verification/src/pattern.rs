//! The regular expressions of the patcher and the calls into the `regex` crate.
use crate::text::boundary;
use crate::text::contains_text;
use crate::text::count;
use crate::text::lemma_count_add;
use crate::text::lemma_parts;
use crate::text::occurs_at;
use crate::text::part;
use crate::text::slice;
use crate::text::slice_from;
use crate::text::texts;
use crate::text::white;
use vstd::prelude::*;
use vstd::utf8::encode_utf8;

verus! {

/// The quoted version number that `java -version` prints; group 1 is the major version.
pub const JAVA_VERSION: &'static str = r#""(?:1\.)?(\d+).*?""#;

/// An `<application>` start tag; group 1 holds its attributes, group 2 the slash of an empty tag.
pub const APPLICATION_TAG: &'static str = r#"(?s)<application\b(?P<attrs>.*?)(?P<self>/?)>"#;

/// A `<meta-data>` start tag; its groups are those of `APPLICATION_TAG`.
pub const META_DATA_TAG: &'static str = r#"(?s)<meta-data\b(?P<attrs>.*?)(?P<self>/?)>"#;

/// The attribute `android:value` among the attributes of a tag.
pub const META_DATA_VALUE: &'static str = r#"\sandroid:value\s*=\s*(?:\"[^\"]*\"|'[^']*')"#;

/// A character that can be part of a word.
pub const WORD: &'static str = r#"\w"#;

/// A decimal digit of any script.
pub const DIGIT: &'static str = r#"\d"#;

/// What precedes an attribute's name in the pattern of that attribute.
pub const ATTRIBUTE_BEFORE: &'static str = r#"\s"#;

/// What follows an attribute's name in the pattern of that attribute.
pub const ATTRIBUTE_AFTER: &'static str = r#"\s*=\s*(?:\"[^\"]*\"|'[^']*')"#;

/// What precedes a signature in the pattern of a Smali method.
pub const METHOD_BEFORE: &'static str = r#"(?s)(\.method public (?:final )?"#;

/// What follows a signature in the pattern of a Smali method; group 1 is the line that opens the
/// method, group 2 its body, group 3 the line that closes it.
pub const METHOD_AFTER: &'static str = r#")\n(.+?)\n(\.end method)"#;

// ---------------------------------------------------------------------------------------------
// Model
// ---------------------------------------------------------------------------------------------

/// One match: its byte offsets in the text and the text of each group, group 0 being all of it.
pub struct Found {
    pub start: int,
    pub end: int,
    pub groups: Seq<Option<Seq<char>>>,
}

/// One match as the program holds it.
pub struct Match {
    pub start: usize,
    pub end: usize,
    pub groups: Vec<Option<String>>,
}

impl View for Match {
    type V = Found;

    open spec fn view(&self) -> Found {
        Found {
            start: self.start as int,
            end: self.end as int,
            groups: Seq::new(
                self.groups@.len(),
                |i: int|
                    match self.groups@[i] {
                        Some(s) => Some(s@),
                        None => None,
                    },
            ),
        }
    }
}

/// The view of an optional match.
pub open spec fn view_of(found: Option<Match>) -> Option<Found> {
    match found {
        Some(m) => Some(m@),
        None => None,
    }
}

/// The views of a list of matches.
pub open spec fn all_found(list: Seq<Match>) -> Seq<Found> {
    Seq::new(list.len(), |i: int| list[i]@)
}

/// The characters that stand for something else than themselves in a regular expression.
pub open spec fn meta(c: char) -> bool {
    ||| c == '\\'
    ||| c == '.'
    ||| c == '+'
    ||| c == '*'
    ||| c == '?'
    ||| c == '('
    ||| c == ')'
    ||| c == '|'
    ||| c == '['
    ||| c == ']'
    ||| c == '{'
    ||| c == '}'
    ||| c == '^'
    ||| c == '$'
    ||| c == '#'
    ||| c == '&'
    ||| c == '-'
    ||| c == '~'
}

/// `s` with a backslash before each of its meta characters.
pub open spec fn escaped(s: Seq<char>) -> Seq<char>
    decreases s.len(),
{
    if s.len() == 0 {
        s
    } else if meta(s[0]) {
        seq!['\\', s[0]] + escaped(s.skip(1))
    } else {
        seq![s[0]] + escaped(s.skip(1))
    }
}

/// The pattern of the attribute called `name`, with its value.
pub open spec fn attribute_pattern(name: Seq<char>) -> Seq<char> {
    ATTRIBUTE_BEFORE@ + escaped(name) + ATTRIBUTE_AFTER@
}

/// The pattern of the Smali methods with the given signature.
pub open spec fn method_pattern(signature: Seq<char>) -> Seq<char> {
    METHOD_BEFORE@ + escaped(signature) + METHOD_AFTER@
}

/// A text that is short enough to stand in a pattern: names of attributes and signatures of methods are.
pub open spec fn short(s: Seq<char>) -> bool {
    s.len() <= 10000
}

/// The signatures of the methods that the patcher itself replaces.
pub open spec fn known_signature(signature: Seq<char>) -> bool {
    ||| signature
        == "checkClientTrusted([Ljava/security/cert/X509Certificate;Ljava/lang/String;)V"@
    ||| signature
        == "checkServerTrusted([Ljava/security/cert/X509Certificate;Ljava/lang/String;)V"@
    ||| signature == "getAcceptedIssuers()[Ljava/security/cert/X509Certificate;"@
    ||| signature == "verify(Ljava/lang/String;Ljavax/net/ssl/SSLSession;)Z"@
    ||| signature == "check(Ljava/lang/String;Ljava/util/List;)V"@
    ||| signature == "check$okhttp(Ljava/lang/String;Lkotlin/jvm/functions/Function0;)V"@
}

/// The signatures of the methods that the patcher itself replaces are short.
pub proof fn lemma_known_signature_is_short(signature: Seq<char>)
    requires
        known_signature(signature),
    ensures
        short(signature),
{
    reveal_strlit("checkClientTrusted([Ljava/security/cert/X509Certificate;Ljava/lang/String;)V");
    reveal_strlit("checkServerTrusted([Ljava/security/cert/X509Certificate;Ljava/lang/String;)V");
    reveal_strlit("getAcceptedIssuers()[Ljava/security/cert/X509Certificate;");
    reveal_strlit("verify(Ljava/lang/String;Ljavax/net/ssl/SSLSession;)Z");
    reveal_strlit("check(Ljava/lang/String;Ljava/util/List;)V");
    reveal_strlit("check$okhttp(Ljava/lang/String;Lkotlin/jvm/functions/Function0;)V");
}

/// The patterns that the patcher itself searches for, with any short name or signature.
pub open spec fn known_pattern(pattern: Seq<char>) -> bool {
    ||| pattern == JAVA_VERSION@
    ||| pattern == APPLICATION_TAG@
    ||| pattern == META_DATA_TAG@
    ||| pattern == META_DATA_VALUE@
    ||| exists|name: Seq<char>| #[trigger] attribute_pattern(name) == pattern && short(name)
    ||| exists|signature: Seq<char>| #[trigger]
        method_pattern(signature) == pattern && short(signature)
}

/// The offsets of `m` are boundaries of `text`, in order, and group 0 is the text between them.
pub open spec fn lies_in(m: Found, text: Seq<char>) -> bool {
    &&& 0 <= m.start <= m.end <= encode_utf8(text).len()
    &&& boundary(text, m.start)
    &&& boundary(text, m.end)
    &&& m.groups.len() > 0
    &&& m.groups[0] == Some(part(text, m.start, m.end))
}

/// Each match ends before the next one starts.
pub open spec fn in_order(list: Seq<Found>) -> bool {
    forall|i: int, j: int| 0 <= i < j < list.len() ==> #[trigger] list[i].end <= #[trigger] list[j].start
}

/// The character at position `i` of `text` belongs to one of the matches.
pub open spec fn covered(text: Seq<char>, list: Seq<Found>, i: int) -> bool {
    exists|k: int|
        0 <= k < list.len() && part(text, 0, (#[trigger] list[k]).start).len() <= i < part(
            text,
            0,
            list[k].end,
        ).len()
}

/// An ASCII character.
pub open spec fn is_ascii(c: char) -> bool {
    c <= '\u{7f}'
}

/// A character that can be part of a word: of ASCII the letters, the digits and `_`, of the rest those
/// that the pattern of such a character finds.
pub open spec fn is_word(c: char) -> bool {
    if is_ascii(c) {
        ||| 'a' <= c <= 'z'
        ||| 'A' <= c <= 'Z'
        ||| '0' <= c <= '9'
        ||| c == '_'
    } else {
        regex_captures(WORD@, seq![c]) is Some
    }
}

/// `m` is a start tag: `<`, the tag's name, the attributes, a slash or nothing, and the first `>`. The
/// name is a whole word, and a slash before the `>` is no part of the attributes.
pub open spec fn is_tag(m: Found, text: Seq<char>, name: Seq<char>) -> bool {
    &&& m.groups.len() == 3
    &&& m.groups[1] is Some
    &&& m.groups[2] is Some
    &&& part(text, m.start, m.end) == seq!['<'] + name + m.groups[1]->0 + m.groups[2]->0 + seq!['>']
    &&& m.groups[1]->0.len() > 0 ==> !is_word(m.groups[1]->0[0])
    &&& !m.groups[1]->0.contains('>')
    &&& m.groups[2]->0 == Seq::<char>::empty() || m.groups[2]->0 == seq!['/']
    &&& m.groups[2]->0.len() == 0 && m.groups[1]->0.len() > 0 ==> m.groups[1]->0.last() != '/'
}

/// A start tag with the given name stands at position `i` of `text`: `<`, the name, a character that is
/// no part of a word, and somewhere after the name a `>`.
pub open spec fn opens_tag(text: Seq<char>, name: Seq<char>, i: int) -> bool {
    let n = i + 1 + name.len();
    &&& occurs_at(text, seq!['<'] + name, i)
    &&& n < text.len()
    &&& !is_word(text[n])
    &&& text.skip(n).contains('>')
}

/// `found` is the first start tag with the given name in `text`: before it no such tag starts and
/// nowhere do the same characters stand; there is no such tag if it is absent.
pub open spec fn is_first_tag(found: Option<Found>, text: Seq<char>, name: Seq<char>) -> bool {
    match found {
        Some(m) => {
            &&& is_tag(m, text, name)
            &&& forall|i: int| i < part(text, 0, m.start).len() ==> !opens_tag(text, name, i)
            &&& forall|i: int|
                i < part(text, 0, m.start).len() ==> !occurs_at(
                    text,
                    part(text, m.start, m.end),
                    i,
                )
        },
        None => forall|i: int| !opens_tag(text, name, i),
    }
}

/// The text of an attribute: a character of white space, the name, an equals sign that may have white
/// space around it, and a value between quotes.
pub open spec fn attribute_text(
    space: char,
    name: Seq<char>,
    before: Seq<char>,
    after: Seq<char>,
    quote: char,
    value: Seq<char>,
) -> Seq<char> {
    seq![space] + name + before + seq!['='] + after + seq![quote] + value + seq![quote]
}

/// Every character of `s` is white space.
pub open spec fn all_white(s: Seq<char>) -> bool {
    forall|i: int| 0 <= i < s.len() ==> white(#[trigger] s[i])
}

/// `s` is the text of an attribute that is made of the given pieces.
pub open spec fn made_of(
    s: Seq<char>,
    space: char,
    name: Seq<char>,
    before: Seq<char>,
    after: Seq<char>,
    quote: char,
    value: Seq<char>,
) -> bool {
    &&& s == attribute_text(space, name, before, after, quote, value)
    &&& white(space)
    &&& all_white(before)
    &&& all_white(after)
    &&& quote == '"' || quote == '\''
    &&& !value.contains(quote)
}

/// `s` is the text of an attribute with the given name.
pub open spec fn is_attribute(s: Seq<char>, name: Seq<char>) -> bool {
    exists|space: char, before: Seq<char>, after: Seq<char>, quote: char, value: Seq<char>|
        made_of(s, space, name, before, after, quote, value)
}

/// `found` is the first attribute with the given name in `text`; there is none if it is absent.
pub open spec fn is_first_attribute(found: Option<Found>, text: Seq<char>, name: Seq<char>) -> bool {
    match found {
        Some(m) => {
            &&& lies_in(m, text)
            &&& is_attribute(part(text, m.start, m.end), name)
            &&& forall|i: int, j: int|
                0 <= i <= j <= text.len() && i < part(text, 0, m.start).len() ==> !is_attribute(
                    #[trigger] text.subrange(i, j),
                    name,
                )
        },
        None => forall|i: int, j: int|
            0 <= i <= j <= text.len() ==> !is_attribute(#[trigger] text.subrange(i, j), name),
    }
}

/// What `java -version` prints around a version: text without quotes, a quote, the old prefix `1.` or
/// nothing, and after the version the rest, in which another quote stands on the same line.
pub open spec fn version_text(
    front: Seq<char>,
    prefix: Seq<char>,
    version: Seq<char>,
    rest: Seq<char>,
) -> Seq<char> {
    front + seq!['"'] + prefix + version + rest
}

/// The first quoted text is a version with the given major version: ASCII digits with an ASCII
/// character after them that is none, `1.` before them being no part of it.
pub open spec fn quotes_version(text: Seq<char>, version: Seq<char>) -> bool {
    exists|front: Seq<char>, prefix: Seq<char>, rest: Seq<char>, end: int|
        {
            &&& text == #[trigger] version_text(front, prefix, version, rest)
            &&& !front.contains('"')
            &&& prefix == Seq::<char>::empty() || prefix == seq!['1', '.']
            &&& version.len() > 0
            &&& forall|i: int| 0 <= i < version.len() ==> '0' <= #[trigger] version[i] <= '9'
            &&& 0 <= end < rest.len()
            &&& #[trigger] rest[end] == '"'
            &&& !rest.take(end).contains('\n')
            &&& rest[0] < '\u{80}' && !('0' <= rest[0] <= '9')
            &&& prefix.len() == 0 && version == seq!['1'] ==> rest[0] != '.'
        }
}

/// A decimal digit: of ASCII the ten, of the rest those that the pattern of a digit finds.
pub open spec fn is_digit(c: char) -> bool {
    if is_ascii(c) {
        '0' <= c <= '9'
    } else {
        regex_captures(DIGIT@, seq![c]) is Some
    }
}

/// `s` is a version between quotes on one line: the old prefix `1.` or nothing, the digits of the major
/// version, and anything else.
pub open spec fn is_quoted(
    s: Seq<char>,
    prefix: Seq<char>,
    version: Seq<char>,
    middle: Seq<char>,
) -> bool {
    &&& s == seq!['"'] + prefix + version + middle + seq!['"']
    &&& prefix == Seq::<char>::empty() || prefix == seq!['1', '.']
    &&& version.len() > 0
    &&& forall|i: int| 0 <= i < version.len() ==> is_digit(#[trigger] version[i])
    &&& !middle.contains('\n')
}

/// `found` is a version between quotes, its group being the major version; there is none if it is
/// absent. Where the first quoted text is a version in the usual form, that is the one.
pub open spec fn is_version(found: Option<Found>, text: Seq<char>) -> bool {
    &&& match found {
        Some(m) => {
            &&& m.groups.len() == 2
            &&& m.groups[1] is Some
            &&& exists|prefix: Seq<char>, middle: Seq<char>|
                is_quoted(part(text, m.start, m.end), prefix, m.groups[1]->0, middle)
        },
        None => forall|i: int, j: int, prefix: Seq<char>, version: Seq<char>, middle: Seq<char>|
            0 <= i <= j <= text.len() ==> !#[trigger] is_quoted(
                text.subrange(i, j),
                prefix,
                version,
                middle,
            ),
    }
    &&& forall|version: Seq<char>| #[trigger]
        quotes_version(text, version) ==> found is Some && found->0.groups[1] == Some(version)
}

/// `m` is a method with the given signature: the line that opens it, a body of at least one
/// character that ends at the first possible place, and the line that closes it.
pub open spec fn is_method(m: Found, text: Seq<char>, signature: Seq<char>) -> bool {
    &&& m.groups.len() == 4
    &&& m.groups[1] == Some(".method public "@ + signature) || m.groups[1] == Some(
        ".method public final "@ + signature,
    )
    &&& m.groups[2] is Some
    &&& m.groups[2]->0.len() > 0
    &&& m.groups[3] == Some(".end method"@)
    &&& part(text, m.start, m.end) == m.groups[1]->0 + seq!['\n'] + m.groups[2]->0
        + "\n.end method"@
    &&& forall|k: int|
        0 < k < m.groups[2]->0.len() ==> !occurs_at(
            m.groups[2]->0 + "\n.end method"@,
            "\n.end method"@,
            k,
        )
}

/// A method with the given signature and a body that is not empty starts at position `i`.
pub open spec fn opens_method(text: Seq<char>, signature: Seq<char>, i: int) -> bool {
    exists|opening: Seq<char>, end: int|
        {
            &&& opening == ".method public "@ + signature || opening == ".method public final "@
                + signature
            &&& #[trigger] occurs_at(text, opening + seq!['\n'], i)
            &&& i + opening.len() + 1 < end
            &&& #[trigger] occurs_at(text, "\n.end method"@, end)
        }
}

/// `x` is `replacement` up to its first `$`, and all of it where it has none.
pub open spec fn is_expansion(x: Seq<char>, replacement: Seq<char>) -> bool {
    &&& forall|k: int|
        0 <= k <= replacement.len() && !(#[trigger] replacement.take(k)).contains('$') ==> k
            <= x.len() && x.take(k) == replacement.take(k)
    &&& !replacement.contains('$') ==> x == replacement
}

/// `s` is `text` with an expansion of `replacement` in the place of the match, if there is one.
pub open spec fn is_expanded(
    s: Seq<char>,
    text: Seq<char>,
    found: Option<Found>,
    replacement: Seq<char>,
) -> bool {
    match found {
        Some(m) => {
            &&& lies_in(m, text)
            &&& exists|x: Seq<char>| #[trigger]
                is_expansion(x, replacement) && s == part(text, 0, m.start) + x + part(
                    text,
                    m.end,
                    encode_utf8(text).len() as int,
                )
        },
        None => s == text,
    }
}

// ---------------------------------------------------------------------------------------------
// Names for the results of the `regex` crate
// ---------------------------------------------------------------------------------------------

/// What `Regex::captures` finds in `text` for a pattern that compiles.
pub uninterp spec fn regex_captures(pattern: Seq<char>, text: Seq<char>) -> Option<Found>;

/// What `Regex::captures_iter` finds in `text` for a pattern that compiles.
pub uninterp spec fn regex_captures_iter(pattern: Seq<char>, text: Seq<char>) -> Seq<Found>;

/// What `Regex::replace` makes of `text` for a pattern that compiles, with references in the
/// replacement expanded.
pub uninterp spec fn regex_replace(
    pattern: Seq<char>,
    text: Seq<char>,
    replacement: Seq<char>,
) -> Seq<char>;

// ---------------------------------------------------------------------------------------------
// Calls into the `regex` crate
// ---------------------------------------------------------------------------------------------

/// The error of `regex::Regex::new`.
#[verifier::external_type_specification]
#[verifier::external_body]
pub struct ExRegexError(regex::Error);

/// `regex::escape`: puts a backslash before each meta character.
pub assume_specification[ regex::escape ](pattern: &str) -> (r: String)
    ensures
        r@ == escaped(pattern@),
;

/// `regex::Regex::captures`: the leftmost match of `pattern`, if there is one, with its groups.
///
/// The result is named. Beyond the name: the offsets lie between characters. The pattern of an
/// `<application>` tag matches a whole start tag up to its first `>`, no such tag starts earlier in
/// the text and nowhere there do the same characters stand (they would match there as well), and a
/// text with such a tag has a match. The pattern of the Java version matches a version between quotes,
/// its group is the major version, a text with such a version has a match, and where a version in the
/// usual form is the first thing in quotes, that is the match. The patterns of this module compile with
/// any short name or signature; of others nothing is said about when they do, which depends on the size
/// that a compiled pattern has on the machine.
#[verifier::external_body]
pub(crate) fn captures(pattern: &str, text: &str) -> (r: Result<Option<Match>, regex::Error>)
    ensures
        known_pattern(pattern@) ==> r is Ok,
        r matches Ok(found) ==> regex_captures(pattern@, text@) == view_of(found),
        r matches Ok(Some(m)) ==> lies_in(m@, text@),
        pattern@ == APPLICATION_TAG@ ==> (r matches Ok(found) ==> is_first_tag(
            view_of(found),
            text@,
            "application"@,
        )),
        pattern@ == JAVA_VERSION@ ==> (r matches Ok(found) ==> is_version(view_of(found), text@)),
{
    let regex = regex::Regex::new(pattern)?;
    Ok(
        regex.captures(text).map(
            |c|
                Match {
                    start: c.get_match().start(),
                    end: c.get_match().end(),
                    groups: c.iter().map(|g| g.map(|m| m.as_str().to_string())).collect(),
                },
        ),
    )
}

/// `regex::Regex::captures_iter`: the successive matches of `pattern`, each with its groups.
///
/// The result is named. Beyond the name: the offsets lie between characters and the matches do not
/// overlap. The pattern of a `<meta-data>` tag matches whole start tags up to their first `>`, that
/// of a Smali method whole methods up to the first line that closes them, and neither misses one.
/// As with `captures`, the patterns of this module compile with any short name or signature.
#[verifier::external_body]
pub(crate) fn captures_iter(pattern: &str, text: &str) -> (r: Result<Vec<Match>, regex::Error>)
    ensures
        known_pattern(pattern@) ==> r is Ok,
        r matches Ok(list) ==> {
            &&& all_found(list@) == regex_captures_iter(pattern@, text@)
            &&& in_order(all_found(list@))
            &&& forall|k: int| 0 <= k < list@.len() ==> lies_in(#[trigger] list@[k]@, text@)
        },
        pattern@ == META_DATA_TAG@ ==> (r matches Ok(list) ==> {
            &&& forall|k: int| 0 <= k < list@.len() ==> is_tag(#[trigger] list@[k]@, text@, "meta-data"@)
            &&& forall|i: int|
                opens_tag(text@, "meta-data"@, i) ==> covered(text@, all_found(list@), i)
        }),
        forall|signature: Seq<char>| #[trigger]
            method_pattern(signature) == pattern@ ==> (r matches Ok(list) ==> {
                &&& forall|k: int|
                    0 <= k < list@.len() ==> is_method(#[trigger] list@[k]@, text@, signature)
                &&& forall|i: int|
                    opens_method(text@, signature, i) ==> covered(text@, all_found(list@), i)
            }),
{
    let regex = regex::Regex::new(pattern)?;
    Ok(
        regex.captures_iter(text).map(
            |c|
                Match {
                    start: c.get_match().start(),
                    end: c.get_match().end(),
                    groups: c.iter().map(|g| g.map(|m| m.as_str().to_string())).collect(),
                },
        ).collect(),
    )
}

/// `regex::Regex::is_match`: whether `pattern` has a match in `text`.
///
/// Beyond the name of the match: the pattern of an attribute matches the whole of it, with its value,
/// and the first one that there is. As with `captures`, the patterns of this module compile with any
/// short name or signature.
#[verifier::external_body]
pub(crate) fn is_match(pattern: &str, text: &str) -> (r: Result<bool, regex::Error>)
    ensures
        known_pattern(pattern@) ==> r is Ok,
        r matches Ok(found) ==> found == (regex_captures(pattern@, text@) is Some),
        r is Ok ==> forall|name: Seq<char>| #[trigger]
            attribute_pattern(name) == pattern@ ==> is_first_attribute(
                regex_captures(pattern@, text@),
                text@,
                name,
            ),
        r is Ok && pattern@ == META_DATA_VALUE@ ==> is_first_attribute(
            regex_captures(pattern@, text@),
            text@,
            "android:value"@,
        ),
{
    Ok(regex::Regex::new(pattern)?.is_match(text))
}

/// `regex::Regex::replace`: `text` with its leftmost match, which is the one that `captures` finds,
/// replaced; without a match the text stays.
///
/// The result is named. Beyond the name: what stands around the match stays, and what takes its place
/// is the replacement up to its first `$` and, where it has none, all of it. What a `$` and what follows
/// it come to is not said. As with `captures`, the patterns of this module compile with any short name
/// or signature.
#[verifier::external_body]
pub(crate) fn replace(pattern: &str, text: &str, replacement: &str) -> (r: Result<
    String,
    regex::Error,
>)
    ensures
        known_pattern(pattern@) ==> r is Ok,
        r matches Ok(s) ==> s@ == regex_replace(pattern@, text@, replacement@),
        r matches Ok(s) ==> is_expanded(
            s@,
            text@,
            regex_captures(pattern@, text@),
            replacement@,
        ),
{
    Ok(regex::Regex::new(pattern)?.replace(text, replacement).into_owned())
}

/// `regex::Regex::replace` with `regex::NoExpand`: `text` with its leftmost match, which is the one that
/// `captures` finds, replaced by `replacement` as it is; without a match the text stays. As with
/// `captures`, the patterns of this module compile with any short name or signature.
#[verifier::external_body]
pub(crate) fn replace_literally(pattern: &str, text: &str, replacement: &str) -> (r: Result<
    String,
    regex::Error,
>)
    ensures
        known_pattern(pattern@) ==> r is Ok,
        r matches Ok(s) ==> match regex_captures(pattern@, text@) {
            Some(m) => {
                &&& lies_in(m, text@)
                &&& s@ == part(text@, 0, m.start) + replacement@ + part(
                    text@,
                    m.end,
                    encode_utf8(text@).len() as int,
                )
            },
            None => s@ == text@,
        },
{
    Ok(regex::Regex::new(pattern)?.replace(text, regex::NoExpand(replacement)).into_owned())
}

// ---------------------------------------------------------------------------------------------
// Patterns made at run time
// ---------------------------------------------------------------------------------------------

/// The pattern of the Smali methods with the given signature.
pub fn smali_method_regex(signature: &str) -> (r: String)
    ensures
        r@ == method_pattern(signature@),
{
    METHOD_BEFORE.to_string().concat(regex::escape(signature).as_str()).concat(METHOD_AFTER)
}

/// The pattern of the attribute called `name`.
pub fn attribute_regex(name: &str) -> (r: String)
    ensures
        r@ == attribute_pattern(name@),
{
    ATTRIBUTE_BEFORE.to_string().concat(regex::escape(name).as_str()).concat(ATTRIBUTE_AFTER)
}

/// The text of a group that took part in the match.
pub fn group(m: &Match, i: usize) -> (r: String)
    requires
        i < m@.groups.len(),
        m@.groups[i as int] is Some,
    ensures
        r@ == m@.groups[i as int]->0,
{
    match &m.groups[i] {
        Some(s) => s.clone(),
        None => String::new(),
    }
}

// ---------------------------------------------------------------------------------------------
// Putting text in the place of matches
// ---------------------------------------------------------------------------------------------

/// Where the first `k` matches end.
pub open spec fn end_of(list: Seq<Found>, k: int) -> int {
    if k <= 0 {
        0
    } else {
        list[k - 1].end
    }
}

/// `text` up to the end of the first `k` matches, each of them replaced.
pub open spec fn replaced_front(
    text: Seq<char>,
    list: Seq<Found>,
    with: Seq<Seq<char>>,
    k: int,
) -> Seq<char>
    decreases k,
{
    if k <= 0 {
        Seq::empty()
    } else {
        replaced_front(text, list, with, k - 1) + part(
            text,
            end_of(list, k - 1),
            list[k - 1].start,
        ) + with[k - 1]
    }
}

/// `text` with each match of `list` replaced by the entry of `with` at the same position, and all
/// that stands between the matches kept.
pub open spec fn replaced(text: Seq<char>, list: Seq<Found>, with: Seq<Seq<char>>) -> Seq<char> {
    replaced_front(text, list, with, list.len() as int) + part(
        text,
        end_of(list, list.len() as int),
        encode_utf8(text).len() as int,
    )
}

/// The matches lie in `text` one after the other.
pub open spec fn lie_in(list: Seq<Found>, text: Seq<char>) -> bool {
    &&& in_order(list)
    &&& forall|k: int| 0 <= k < list.len() ==> lies_in(#[trigger] list[k], text)
}

/// The end of the first `k` matches is a boundary of the text.
pub proof fn lemma_end_of(text: Seq<char>, list: Seq<Found>, k: int)
    requires
        lie_in(list, text),
        0 <= k <= list.len(),
    ensures
        boundary(text, end_of(list, k)),
        0 <= end_of(list, k) <= encode_utf8(text).len(),
        k < list.len() ==> end_of(list, k) <= list[k].start,
{
    vstd::utf8::encode_utf8_valid_utf8(text);
    vstd::utf8::is_char_boundary_start_end_of_seq(encode_utf8(text));
    if k > 0 {
        assert(lies_in(list[k - 1], text));
    }
    if k < list.len() {
        assert(lies_in(list[k], text));
    }
}

/// Replaces each match by the entry of `with` at the same position.
pub fn replace_matches(text: &str, list: &Vec<Match>, with: &Vec<String>) -> (r: String)
    requires
        lie_in(all_found(list@), text@),
        with@.len() == list@.len(),
    ensures
        r@ == replaced(text@, all_found(list@), texts(with@)),
{
    let ghost found = all_found(list@);
    let mut out = String::new();
    let mut last: usize = 0;
    proof {
        lemma_end_of(text@, found, 0);
    }
    for k in 0..list.len()
        invariant
            found == all_found(list@),
            lie_in(found, text@),
            with@.len() == list@.len(),
            last == end_of(found, k as int),
            out@ == replaced_front(text@, found, texts(with@), k as int),
    {
        proof {
            lemma_end_of(text@, found, k as int);
            assert(lies_in(found[k as int], text@));
        }
        out.append(slice(text, last, list[k].start));
        out.append(with[k].as_str());
        last = list[k].end;
    }
    proof {
        lemma_end_of(text@, found, list@.len() as int);
    }
    out.append(slice_from(text, last));
    out
}

proof fn lemma_replaced_by_itself_front(
    text: Seq<char>,
    list: Seq<Found>,
    with: Seq<Seq<char>>,
    k: int,
)
    requires
        lie_in(list, text),
        with.len() == list.len(),
        0 <= k <= list.len(),
        forall|i: int| 0 <= i < k ==> with[i] == part(text, (#[trigger] list[i]).start, list[i].end),
    ensures
        replaced_front(text, list, with, k) == part(text, 0, end_of(list, k)),
    decreases k,
{
    lemma_end_of(text, list, k);
    if k == 0 {
        assert(encode_utf8(text).subrange(0, 0) == Seq::<u8>::empty());
    } else {
        let m = list[k - 1];
        lemma_replaced_by_itself_front(text, list, with, k - 1);
        lemma_end_of(text, list, k - 1);
        assert(lies_in(m, text));
        lemma_parts(text, end_of(list, k - 1), m.start);
        lemma_parts(text, m.start, m.end);
    }
}

/// A text stays as it is where each match is replaced by itself; so it does where there is none.
pub proof fn lemma_replaced_by_itself(text: Seq<char>, list: Seq<Found>, with: Seq<Seq<char>>)
    requires
        lie_in(list, text),
        with.len() == list.len(),
        forall|i: int|
            0 <= i < list.len() ==> with[i] == part(text, (#[trigger] list[i]).start, list[i].end),
    ensures
        replaced(text, list, with) == text,
{
    let k = list.len() as int;
    lemma_replaced_by_itself_front(text, list, with, k);
    lemma_end_of(text, list, k);
    lemma_parts(text, end_of(list, k), end_of(list, k));
    assert(encode_utf8(text).subrange(end_of(list, k), end_of(list, k)) == Seq::<u8>::empty());
}

proof fn lemma_replaced_front_keeps(
    text: Seq<char>,
    list: Seq<Found>,
    with: Seq<Seq<char>>,
    i: int,
    k: int,
)
    requires
        0 <= i < k <= list.len(),
    ensures
        contains_text(replaced_front(text, list, with, k), with[i]),
    decreases k,
{
    let before = replaced_front(text, list, with, k - 1);
    let gap = part(text, end_of(list, k - 1), list[k - 1].start);
    let all = replaced_front(text, list, with, k);
    if i == k - 1 {
        let at = (before + gap).len() as int;
        assert(all.subrange(at, at + with[i].len()) == with[i]);
        assert(occurs_at(all, with[i], at));
    } else {
        lemma_replaced_front_keeps(text, list, with, i, k - 1);
        let at = choose|at: int| occurs_at(before, with[i], at);
        assert(all.subrange(at, at + with[i].len()) == before.subrange(at, at + with[i].len()));
        assert(occurs_at(all, with[i], at));
    }
}

/// What replaces a match stands in the result.
pub proof fn lemma_replaced_contains(
    text: Seq<char>,
    list: Seq<Found>,
    with: Seq<Seq<char>>,
    i: int,
)
    requires
        0 <= i < list.len(),
    ensures
        contains_text(replaced(text, list, with), with[i]),
{
    let k = list.len() as int;
    lemma_replaced_front_keeps(text, list, with, i, k);
    let front = replaced_front(text, list, with, k);
    let all = replaced(text, list, with);
    let at = choose|at: int| occurs_at(front, with[i], at);
    assert(all.subrange(at, at + with[i].len()) == front.subrange(at, at + with[i].len()));
    assert(occurs_at(all, with[i], at));
}

/// What stands before match `k` and after the one before it; for `k` past the last match, what
/// stands after that.
pub open spec fn gap(text: Seq<char>, list: Seq<Found>, k: int) -> Seq<char> {
    part(
        text,
        end_of(list, k),
        if k < list.len() {
            list[k].start
        } else {
            encode_utf8(text).len() as int
        },
    )
}

proof fn lemma_replaced_front_keeps_gaps(
    text: Seq<char>,
    list: Seq<Found>,
    with: Seq<Seq<char>>,
    i: int,
    k: int,
    what: Seq<char>,
)
    requires
        0 <= i < k <= list.len(),
        contains_text(gap(text, list, i), what),
    ensures
        contains_text(replaced_front(text, list, with, k), what),
    decreases k,
{
    let before = replaced_front(text, list, with, k - 1);
    let all = replaced_front(text, list, with, k);
    if i == k - 1 {
        let j = choose|j: int| occurs_at(gap(text, list, i), what, j);
        let at = before.len() + j;
        assert(all.subrange(at, at + what.len()) == gap(text, list, i).subrange(j, j + what.len()));
        assert(occurs_at(all, what, at));
    } else {
        lemma_replaced_front_keeps_gaps(text, list, with, i, k - 1, what);
        let at = choose|at: int| occurs_at(before, what, at);
        assert(all.subrange(at, at + what.len()) == before.subrange(at, at + what.len()));
        assert(occurs_at(all, what, at));
    }
}

/// What stands between the matches stands in the result.
pub proof fn lemma_replaced_keeps_gaps(
    text: Seq<char>,
    list: Seq<Found>,
    with: Seq<Seq<char>>,
    k: int,
    what: Seq<char>,
)
    requires
        0 <= k <= list.len(),
        contains_text(gap(text, list, k), what),
    ensures
        contains_text(replaced(text, list, with), what),
{
    let n = list.len() as int;
    let front = replaced_front(text, list, with, n);
    let all = replaced(text, list, with);
    if k < n {
        lemma_replaced_front_keeps_gaps(text, list, with, k, n, what);
        let at = choose|at: int| occurs_at(front, what, at);
        assert(all.subrange(at, at + what.len()) == front.subrange(at, at + what.len()));
        assert(occurs_at(all, what, at));
    } else {
        let j = choose|j: int| occurs_at(gap(text, list, k), what, j);
        let at = front.len() + j;
        assert(all.subrange(at, at + what.len()) == gap(text, list, k).subrange(j, j + what.len()));
        assert(occurs_at(all, what, at));
    }
}

proof fn lemma_replaced_keeps_apart_from(
    text: Seq<char>,
    list: Seq<Found>,
    with: Seq<Seq<char>>,
    what: Seq<char>,
    at: int,
    k: int,
)
    requires
        lie_in(list, text),
        occurs_at(text, what, at),
        0 <= k <= list.len(),
        part(text, 0, end_of(list, k)).len() <= at,
        forall|i: int|
            k <= i < list.len() ==> part(text, 0, (#[trigger] list[i]).end).len() <= at || at
                + what.len() <= part(text, 0, list[i].start).len(),
    ensures
        contains_text(replaced(text, list, with), what),
    decreases list.len() - k,
{
    lemma_end_of(text, list, k);
    let total = encode_utf8(text).len() as int;
    if k < list.len() && part(text, 0, list[k].end).len() <= at {
        lemma_replaced_keeps_apart_from(text, list, with, what, at, k + 1);
    } else {
        let front = part(text, 0, end_of(list, k));
        let j = at - front.len();
        if k < list.len() {
            assert(lies_in(list[k], text));
            lemma_parts(text, end_of(list, k), list[k].start);
        } else {
            vstd::utf8::encode_utf8_valid_utf8(text);
            vstd::utf8::is_char_boundary_start_end_of_seq(encode_utf8(text));
            lemma_parts(text, end_of(list, k), total);
            assert(encode_utf8(text).subrange(total, total) == Seq::<u8>::empty());
        }
        assert(gap(text, list, k).subrange(j, j + what.len()) == text.subrange(
            at,
            at + what.len(),
        ));
        assert(occurs_at(gap(text, list, k), what, j));
        lemma_replaced_keeps_gaps(text, list, with, k, what);
    }
}

/// What stands apart from all matches stands in the result.
pub proof fn lemma_replaced_keeps_apart(
    text: Seq<char>,
    list: Seq<Found>,
    with: Seq<Seq<char>>,
    what: Seq<char>,
    at: int,
)
    requires
        lie_in(list, text),
        occurs_at(text, what, at),
        forall|i: int|
            0 <= i < list.len() ==> part(text, 0, (#[trigger] list[i]).end).len() <= at || at
                + what.len() <= part(text, 0, list[i].start).len(),
    ensures
        contains_text(replaced(text, list, with), what),
{
    assert(encode_utf8(text).subrange(0, 0) == Seq::<u8>::empty());
    lemma_replaced_keeps_apart_from(text, list, with, what, at, 0);
}

proof fn lemma_replaced_front_grows(
    text: Seq<char>,
    list: Seq<Found>,
    with: Seq<Seq<char>>,
    c: char,
    k: int,
)
    requires
        lie_in(list, text),
        0 <= k <= list.len(),
        forall|i: int|
            0 <= i < list.len() ==> count(with[i], c) > count(
                part(text, (#[trigger] list[i]).start, list[i].end),
                c,
            ),
    ensures
        count(replaced_front(text, list, with, k), c) >= count(part(text, 0, end_of(list, k)), c) + k,
    decreases k,
{
    lemma_end_of(text, list, k);
    if k == 0 {
        assert(encode_utf8(text).subrange(0, 0) == Seq::<u8>::empty());
    } else {
        let m = list[k - 1];
        lemma_replaced_front_grows(text, list, with, c, k - 1);
        lemma_end_of(text, list, k - 1);
        assert(lies_in(m, text));
        lemma_parts(text, end_of(list, k - 1), m.start);
        lemma_parts(text, m.start, m.end);
        let before = replaced_front(text, list, with, k - 1);
        let between = part(text, end_of(list, k - 1), m.start);
        lemma_count_add(before, between, c);
        lemma_count_add(before + between, with[k - 1], c);
        lemma_count_add(part(text, 0, end_of(list, k - 1)), between, c);
        lemma_count_add(part(text, 0, m.start), part(text, m.start, m.end), c);
    }
}

/// Where what replaces each match holds a character more often, so does the result.
pub proof fn lemma_replaced_grows(text: Seq<char>, list: Seq<Found>, with: Seq<Seq<char>>, c: char)
    requires
        lie_in(list, text),
        forall|i: int|
            0 <= i < list.len() ==> count(with[i], c) > count(
                part(text, (#[trigger] list[i]).start, list[i].end),
                c,
            ),
    ensures
        count(replaced(text, list, with), c) >= count(text, c) + list.len(),
{
    let k = list.len() as int;
    let total = encode_utf8(text).len() as int;
    lemma_replaced_front_grows(text, list, with, c, k);
    lemma_end_of(text, list, k);
    vstd::utf8::encode_utf8_valid_utf8(text);
    vstd::utf8::is_char_boundary_start_end_of_seq(encode_utf8(text));
    lemma_parts(text, end_of(list, k), total);
    assert(encode_utf8(text).subrange(total, total) == Seq::<u8>::empty());
    let front = part(text, 0, end_of(list, k));
    let rest = part(text, end_of(list, k), total);
    assert(text == front + rest);
    lemma_count_add(front, rest, c);
    lemma_count_add(replaced_front(text, list, with, k), rest, c);
}

// ---------------------------------------------------------------------------------------------
// Matches among the characters
// ---------------------------------------------------------------------------------------------

/// Offsets that follow each other in bytes follow each other in characters.
pub proof fn lemma_positions(text: Seq<char>, list: Seq<Found>, i: int, j: int)
    requires
        lie_in(list, text),
        0 <= i < j < list.len(),
    ensures
        part(text, 0, list[i].end).len() <= part(text, 0, list[j].start).len(),
{
    assert(lies_in(list[i], text));
    assert(lies_in(list[j], text));
    lemma_parts(text, list[i].end, list[j].start);
}

/// Where the end of the first `k` matches stands among the characters.
pub open spec fn end_at(text: Seq<char>, list: Seq<Found>, k: int) -> int {
    part(text, 0, end_of(list, k)).len() as int
}

/// What stands between the end of the first `k` matches and the start of the next.
pub proof fn lemma_gap_before(text: Seq<char>, list: Seq<Found>, k: int)
    requires
        lie_in(list, text),
        0 <= k < list.len(),
    ensures
        0 <= end_at(text, list, k) <= part(text, 0, list[k].start).len() <= text.len(),
        part(text, end_of(list, k), list[k].start) == text.subrange(
            end_at(text, list, k),
            part(text, 0, list[k].start).len() as int,
        ),
{
    lemma_end_of(text, list, k);
    assert(lies_in(list[k], text));
    lemma_parts(text, end_of(list, k), list[k].start);
    let front = part(text, 0, end_of(list, k));
    let gap = part(text, end_of(list, k), list[k].start);
    assert(gap == text.subrange(front.len() as int, (front.len() + gap.len()) as int));
}

/// The text of a match lies between its offsets.
pub proof fn lemma_match_place(text: Seq<char>, m: Found)
    requires
        lies_in(m, text),
    ensures
        part(text, 0, m.end).len() == part(text, 0, m.start).len() + part(text, m.start, m.end).len(),
        part(text, 0, m.end).len() <= text.len(),
        part(text, 0, m.start) == text.take(part(text, 0, m.start).len() as int),
        part(text, m.start, m.end) == text.subrange(
            part(text, 0, m.start).len() as int,
            part(text, 0, m.end).len() as int,
        ),
        part(text, m.end, encode_utf8(text).len() as int) == text.skip(
            part(text, 0, m.end).len() as int,
        ),
{
    lemma_parts(text, m.start, m.end);
    let front = part(text, 0, m.start);
    let whole = part(text, m.start, m.end);
    assert(front == text.take(front.len() as int));
    assert(whole == text.subrange(front.len() as int, (front.len() + whole.len()) as int));
    assert(part(text, m.end, encode_utf8(text).len() as int) == text.skip(
        (front.len() + whole.len()) as int,
    ));
}

// ---------------------------------------------------------------------------------------------
// Laws
// ---------------------------------------------------------------------------------------------

proof fn lemma_same_front(
    text: Seq<char>,
    list: Seq<Found>,
    with: Seq<Seq<char>>,
    m: Found,
    w: Seq<char>,
    k: int,
)
    requires
        0 <= k <= list.len(),
        list.len() == with.len(),
    ensures
        replaced_front(text, list.push(m), with.push(w), k) == replaced_front(text, list, with, k),
        end_of(list.push(m), k) == end_of(list, k),
    decreases k,
{
    if k > 0 {
        lemma_same_front(text, list, with, m, w, k - 1);
        assert(list.push(m)[k - 1] == list[k - 1]);
        assert(with.push(w)[k - 1] == with[k - 1]);
    }
}

/// Replacing one more match, the last of a text, puts the new text in its place and changes nothing else;
/// without a match nothing changes at all.
#[verifier::spinoff_prover]
#[verifier::rlimit(40)]
pub proof fn law_one_more_match(
    text: Seq<char>,
    list: Seq<Found>,
    with: Seq<Seq<char>>,
    m: Found,
    w: Seq<char>,
) -> (front: Seq<char>)
    requires
        lie_in(list.push(m), text),
        list.len() == with.len(),
    ensures
        ({
            let back = part(text, m.end, encode_utf8(text).len() as int);
            &&& replaced(text, list, with) == front + part(text, m.start, m.end) + back
            &&& replaced(text, list.push(m), with.push(w)) == front + w + back
        }),
        replaced(text, Seq::empty(), Seq::empty()) == text,
{
    let all = list.push(m);
    let k = list.len() as int;
    assert(lies_in(all[k], text));
    assert forall|i: int| 0 <= i < list.len() implies lies_in(#[trigger] list[i], text) by {
        assert(lies_in(all[i], text));
    }
    assert(in_order(list)) by {
        assert forall|i: int, j: int| 0 <= i < j < list.len() implies #[trigger] list[i].end
            <= #[trigger] list[j].start by {
            assert(all[i].end <= all[j].start);
        }
    }
    if k > 0 {
        assert(all[k - 1].end <= all[k].start);
    }
    lemma_same_front(text, list, with, m, w, k);
    lemma_replaced_by_itself(text, Seq::empty(), Seq::empty());
    lemma_end_of(text, list, k);
    let e = end_of(list, k);
    let total = encode_utf8(text).len() as int;
    lemma_parts(text, e, m.start);
    lemma_parts(text, m.start, m.end);
    let back = part(text, m.end, total);
    let old = part(text, m.start, m.end);
    let gap = part(text, e, m.start);
    assert(part(text, e, total) == gap + (old + back));
    let front = replaced_front(text, list, with, k) + gap;
    assert(replaced(text, list, with) == front + old + back);
    assert(replaced(text, all, with.push(w)) == front + w + back);
    front
}

/// The patterns made at run time: a name or a signature stands for itself in them, with a backslash before
/// each of its characters that would not.
pub proof fn law_patterns(a: Seq<char>, b: Seq<char>, c: char)
    ensures
        attribute_pattern(a) == r#"\s"#@ + escaped(a) + r#"\s*=\s*(?:\"[^\"]*\"|'[^']*')"#@,
        method_pattern(a) == r#"(?s)(\.method public (?:final )?"#@ + escaped(a)
            + r#")\n(.+?)\n(\.end method)"#@,
        escaped(a + b) == escaped(a) + escaped(b),
        escaped(seq![c]) == if meta(c) {
            seq!['\\', c]
        } else {
            seq![c]
        },
        escaped(Seq::empty()) == Seq::<char>::empty(),
    decreases a.len(),
{
    let one = seq![c];
    assert(one.skip(1) == Seq::<char>::empty());
    assert(escaped(Seq::empty()) == Seq::<char>::empty());
    if a.len() == 0 {
        assert(a + b == b);
    } else {
        assert((a + b).skip(1) == a.skip(1) + b);
        law_patterns(a.skip(1), b, c);
    }
}

} // verus!
