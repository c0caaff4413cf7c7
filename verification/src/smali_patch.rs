//! The methods that check certificates, and their replacement in Smali text.
use crate::pattern::all_found;
use crate::pattern::captures_iter;
use crate::pattern::covered;
use crate::pattern::gap;
use crate::pattern::group;
use crate::pattern::is_method;
use crate::pattern::known_signature;
use crate::pattern::lemma_replaced_by_itself;
use crate::pattern::lemma_replaced_contains;
use crate::pattern::lemma_replaced_grows;
use crate::pattern::lemma_replaced_keeps_gaps;
use crate::pattern::lie_in;
use crate::pattern::lies_in;
use crate::pattern::method_pattern;
use crate::pattern::opens_method;
use crate::pattern::regex_captures_iter;
use crate::pattern::replace_matches;
use crate::pattern::replaced;
use crate::pattern::short;
use crate::pattern::smali_method_regex;
use crate::pattern::Found;
use crate::pattern::Match;
use crate::smali_head::Head;
use crate::smali_head::SmaliError;
use crate::smali_head::SmaliHead;
use crate::smali_tidy::fits;
use crate::smali_tidy::lemma_tidy_replaced;
use crate::smali_tidy::new_methods;
use crate::smali_tidy::new_pieces;
use crate::smali_tidy::tidy_lines;
use crate::smali_tidy::whole_text;
use crate::smali_tidy::Piece;
use crate::text::contains_text;
use crate::text::count;
use crate::text::drop_white;
use crate::text::from_chars;
use crate::text::has_prefix;
use crate::text::join;
use crate::text::join_pieces;
use crate::text::lemma_count_add;
use crate::text::lemma_count_join;
use crate::text::lemma_count_split;
use crate::text::lemma_split_of_join;
use crate::text::lemma_split_on_pieces;
use crate::text::part;
use crate::text::same;
use crate::text::split_on;
use crate::text::split_pieces;
use crate::text::starts_with;
use crate::text::texts;
use crate::text::to_chars;
use crate::text::trim_end;
use crate::text::white;
use vstd::prelude::*;
use vstd::slice::slice_subrange;

verus! {

/// How a patch selects the classes that it is for.
#[derive(Debug, Clone, Copy, PartialEq, Eq, Structural)]
pub enum SelectorType {
    /// By the name of the class.
    Class,
    /// By an interface that the class implements.
    Interface,
}

/// The replacement of one method.
#[derive(Debug)]
pub struct SmaliMethodPatch {
    pub name: &'static str,
    pub signature: &'static str,
    pub replacement_lines: Vec<&'static str>,
}

/// The replacements for the classes of one kind.
#[derive(Debug)]
pub struct SmaliPatch {
    pub selector_type: SelectorType,
    pub selector_name: &'static str,
    pub methods: Vec<SmaliMethodPatch>,
}

/// The model of a `SmaliMethodPatch`.
pub struct MethodPatch {
    pub name: Seq<char>,
    pub signature: Seq<char>,
    pub lines: Seq<Seq<char>>,
}

/// The model of a `SmaliPatch`.
pub struct ClassPatch {
    pub selector_type: SelectorType,
    pub selector_name: Seq<char>,
    pub methods: Seq<MethodPatch>,
}

/// The views of a list of string slices.
pub open spec fn strs(list: Seq<&'static str>) -> Seq<Seq<char>> {
    Seq::new(list.len(), |i: int| list[i]@)
}

impl View for SmaliMethodPatch {
    type V = MethodPatch;

    open spec fn view(&self) -> MethodPatch {
        MethodPatch {
            name: self.name@,
            signature: self.signature@,
            lines: strs(self.replacement_lines@),
        }
    }
}

/// The views of a list of method patches.
pub open spec fn method_views(list: Seq<SmaliMethodPatch>) -> Seq<MethodPatch> {
    Seq::new(list.len(), |i: int| list[i]@)
}

impl View for SmaliPatch {
    type V = ClassPatch;

    open spec fn view(&self) -> ClassPatch {
        ClassPatch {
            selector_type: self.selector_type,
            selector_name: self.selector_name@,
            methods: method_views(self.methods@),
        }
    }
}

/// The views of a list of patches.
pub open spec fn patch_views(list: Seq<SmaliPatch>) -> Seq<ClassPatch> {
    Seq::new(list.len(), |i: int| list[i]@)
}

// ---------------------------------------------------------------------------------------------
// The table of patches
// ---------------------------------------------------------------------------------------------

/// A body that returns nothing.
pub open spec fn void_body() -> Seq<Seq<char>> {
    seq![".locals 0"@, "return-void"@]
}

/// A body that returns true.
pub open spec fn true_body() -> Seq<Seq<char>> {
    seq![".locals 1"@, "const/4 v0, 0x1"@, "return v0"@]
}

/// A body that returns an array of no certificates.
pub open spec fn no_certificates_body() -> Seq<Seq<char>> {
    seq![
        ".locals 1"@,
        "const/4 v0, 0x0"@,
        "new-array v0, v0, [Ljava/security/cert/X509Certificate;"@,
        "return-object v0"@,
    ]
}

/// The methods of a trust manager.
pub open spec fn x509_model() -> Seq<MethodPatch> {
    seq![
        MethodPatch {
            name: "X509TrustManager#checkClientTrusted (javax)"@,
            signature:
                "checkClientTrusted([Ljava/security/cert/X509Certificate;Ljava/lang/String;)V"@,
            lines: void_body(),
        },
        MethodPatch {
            name: "X509TrustManager#checkServerTrusted (javax)"@,
            signature:
                "checkServerTrusted([Ljava/security/cert/X509Certificate;Ljava/lang/String;)V"@,
            lines: void_body(),
        },
        MethodPatch {
            name: "X509TrustManager#getAcceptedIssuers (javax)"@,
            signature: "getAcceptedIssuers()[Ljava/security/cert/X509Certificate;"@,
            lines: no_certificates_body(),
        },
    ]
}

/// The methods of a hostname verifier.
pub open spec fn hostname_model() -> Seq<MethodPatch> {
    seq![
        MethodPatch {
            name: "HostnameVerifier#verify (javax)"@,
            signature: "verify(Ljava/lang/String;Ljavax/net/ssl/SSLSession;)Z"@,
            lines: true_body(),
        },
    ]
}

/// The methods of the certificate pinner of OkHttp 2.
pub open spec fn okhttp2_model() -> Seq<MethodPatch> {
    seq![
        MethodPatch {
            name: "CertificatePinner#check (OkHttp 2.5)"@,
            signature: "check(Ljava/lang/String;Ljava/util/List;)V"@,
            lines: void_body(),
        },
    ]
}

/// The methods of the certificate pinner of OkHttp 3 and 4.
pub open spec fn okhttp3_model() -> Seq<MethodPatch> {
    seq![
        MethodPatch {
            name: "CertificatePinner#check (OkHttp 3.x)"@,
            signature: "check(Ljava/lang/String;Ljava/util/List;)V"@,
            lines: void_body(),
        },
        MethodPatch {
            name: "CertificatePinner#check (OkHttp 4.2)"@,
            signature: "check$okhttp(Ljava/lang/String;Lkotlin/jvm/functions/Function0;)V"@,
            lines: void_body(),
        },
    ]
}

/// All patches, in the order in which they are applied.
pub open spec fn patches_model() -> Seq<ClassPatch> {
    seq![
        ClassPatch {
            selector_type: SelectorType::Interface,
            selector_name: "javax/net/ssl/X509TrustManager"@,
            methods: x509_model(),
        },
        ClassPatch {
            selector_type: SelectorType::Interface,
            selector_name: "javax/net/ssl/HostnameVerifier"@,
            methods: hostname_model(),
        },
        ClassPatch {
            selector_type: SelectorType::Class,
            selector_name: "com/squareup/okhttp/CertificatePinner"@,
            methods: okhttp2_model(),
        },
        ClassPatch {
            selector_type: SelectorType::Class,
            selector_name: "okhttp3/CertificatePinner"@,
            methods: okhttp3_model(),
        },
    ]
}

/// The lines of a body that returns nothing.
pub fn return_void() -> (r: Vec<&'static str>)
    ensures
        strs(r@) == void_body(),
{
    let r: Vec<&'static str> = vec![".locals 0", "return-void"];
    assert(strs(r@) == void_body());
    r
}

/// The lines of a body that returns true.
pub fn return_true() -> (r: Vec<&'static str>)
    ensures
        strs(r@) == true_body(),
{
    let r: Vec<&'static str> = vec![".locals 1", "const/4 v0, 0x1", "return v0"];
    assert(strs(r@) == true_body());
    r
}

/// The lines of a body that returns an array of no certificates.
pub fn return_empty_cert_array() -> (r: Vec<&'static str>)
    ensures
        strs(r@) == no_certificates_body(),
{
    let r: Vec<&'static str> =
        vec![
        ".locals 1",
        "const/4 v0, 0x0",
        "new-array v0, v0, [Ljava/security/cert/X509Certificate;",
        "return-object v0",
    ];
    assert(strs(r@) == no_certificates_body());
    r
}

/// The replacements for trust managers.
pub fn x509_methods() -> (r: Vec<SmaliMethodPatch>)
    ensures
        method_views(r@) == x509_model(),
{
    let r: Vec<SmaliMethodPatch> =
        vec![
        SmaliMethodPatch {
            name: "X509TrustManager#checkClientTrusted (javax)",
            signature:
                "checkClientTrusted([Ljava/security/cert/X509Certificate;Ljava/lang/String;)V",
            replacement_lines: return_void(),
        },
        SmaliMethodPatch {
            name: "X509TrustManager#checkServerTrusted (javax)",
            signature:
                "checkServerTrusted([Ljava/security/cert/X509Certificate;Ljava/lang/String;)V",
            replacement_lines: return_void(),
        },
        SmaliMethodPatch {
            name: "X509TrustManager#getAcceptedIssuers (javax)",
            signature: "getAcceptedIssuers()[Ljava/security/cert/X509Certificate;",
            replacement_lines: return_empty_cert_array(),
        },
    ];
    assert(method_views(r@) == x509_model());
    r
}

/// The replacements for hostname verifiers.
pub fn hostname_methods() -> (r: Vec<SmaliMethodPatch>)
    ensures
        method_views(r@) == hostname_model(),
{
    let r: Vec<SmaliMethodPatch> =
        vec![
        SmaliMethodPatch {
            name: "HostnameVerifier#verify (javax)",
            signature: "verify(Ljava/lang/String;Ljavax/net/ssl/SSLSession;)Z",
            replacement_lines: return_true(),
        },
    ];
    assert(method_views(r@) == hostname_model());
    r
}

/// The replacements for the certificate pinner of OkHttp 2.
pub fn okhttp2_methods() -> (r: Vec<SmaliMethodPatch>)
    ensures
        method_views(r@) == okhttp2_model(),
{
    let r: Vec<SmaliMethodPatch> =
        vec![
        SmaliMethodPatch {
            name: "CertificatePinner#check (OkHttp 2.5)",
            signature: "check(Ljava/lang/String;Ljava/util/List;)V",
            replacement_lines: return_void(),
        },
    ];
    assert(method_views(r@) == okhttp2_model());
    r
}

/// The replacements for the certificate pinner of OkHttp 3 and 4.
pub fn okhttp3_methods() -> (r: Vec<SmaliMethodPatch>)
    ensures
        method_views(r@) == okhttp3_model(),
{
    let r: Vec<SmaliMethodPatch> =
        vec![
        SmaliMethodPatch {
            name: "CertificatePinner#check (OkHttp 3.x)",
            signature: "check(Ljava/lang/String;Ljava/util/List;)V",
            replacement_lines: return_void(),
        },
        SmaliMethodPatch {
            name: "CertificatePinner#check (OkHttp 4.2)",
            signature: "check$okhttp(Ljava/lang/String;Lkotlin/jvm/functions/Function0;)V",
            replacement_lines: return_void(),
        },
    ];
    assert(method_views(r@) == okhttp3_model());
    r
}

/// All patches, in the order in which they are applied.
pub fn smali_patches() -> (r: Vec<SmaliPatch>)
    ensures
        patch_views(r@) == patches_model(),
{
    let r: Vec<SmaliPatch> =
        vec![
        SmaliPatch {
            selector_type: SelectorType::Interface,
            selector_name: "javax/net/ssl/X509TrustManager",
            methods: x509_methods(),
        },
        SmaliPatch {
            selector_type: SelectorType::Interface,
            selector_name: "javax/net/ssl/HostnameVerifier",
            methods: hostname_methods(),
        },
        SmaliPatch {
            selector_type: SelectorType::Class,
            selector_name: "com/squareup/okhttp/CertificatePinner",
            methods: okhttp2_methods(),
        },
        SmaliPatch {
            selector_type: SelectorType::Class,
            selector_name: "okhttp3/CertificatePinner",
            methods: okhttp3_methods(),
        },
    ];
    assert(patch_views(r@) == patches_model());
    r
}

/// A patch is for a class by its name, or by one of the interfaces that the class implements.
pub open spec fn selects(patch: ClassPatch, head: Head) -> bool {
    match patch.selector_type {
        SelectorType::Class => patch.selector_name == head.name,
        SelectorType::Interface => head.implements.contains(patch.selector_name),
    }
}

/// Whether `name` is among the interfaces of `head`.
fn implements_interface(head: &SmaliHead, name: &str) -> (r: bool)
    ensures
        r == head@.implements.contains(name@),
{
    for i in 0..head.implements.len()
        invariant
            forall|j: int| 0 <= j < i ==> texts(head.implements@)[j] != name@,
    {
        if same(head.implements[i].as_str(), name) {
            assert(texts(head.implements@)[i as int] == name@);
            return true;
        }
    }
    false
}

/// Whether `patch` is for the class of `head`.
pub fn selector_matches(patch: &SmaliPatch, head: &SmaliHead) -> (r: bool)
    ensures
        r == selects(patch@, head@),
{
    match patch.selector_type {
        SelectorType::Class => same(patch.selector_name, head.name.as_str()),
        SelectorType::Interface => implements_interface(head, patch.selector_name),
    }
}

// ---------------------------------------------------------------------------------------------
// The new text of a method
// ---------------------------------------------------------------------------------------------

/// A line of a method body: indented, and without white space at its end.
pub open spec fn body_line(line: Seq<char>) -> Seq<char> {
    trim_end("    "@ + line)
}

/// `line` without one step of indentation.
pub open spec fn outdented(line: Seq<char>) -> Seq<char> {
    if has_prefix(line, "    "@) {
        line.skip("    "@.len() as int)
    } else {
        line
    }
}

/// A line of the old body, turned into a comment.
pub open spec fn commented(line: Seq<char>) -> Seq<char> {
    body_line("# "@ + outdented(line))
}

/// The lines before the old body: a note, the new body, an empty line and another note.
pub open spec fn new_lines(lines: Seq<Seq<char>>) -> Seq<Seq<char>> {
    seq![body_line("# inserted by apk-mitm to disable certificate pinning"@)] + Seq::new(
        lines.len(),
        |i: int| body_line(lines[i]),
    ) + seq![
        body_line(""@),
        body_line("# commented out by apk-mitm to disable old method body"@),
        body_line("# "@),
    ]
}

/// The lines of the old body, each turned into a comment.
pub open spec fn old_lines(body: Seq<char>) -> Seq<Seq<char>> {
    let list = split_on(body, '\n');
    Seq::new(list.len(), |i: int| commented(list[i]))
}

/// The text of a method whose body is replaced by `lines`: the line that opens it and the line that
/// closes it stay.
pub open spec fn new_method(m: Found, lines: Seq<Seq<char>>) -> Seq<char> {
    m.groups[1]->0 + seq!['\n'] + join(new_lines(lines) + old_lines(m.groups[2]->0), '\n') + seq![
        '\n',
    ] + m.groups[3]->0
}

/// `text` with the methods in `list` replaced.
pub open spec fn with_new_methods(text: Seq<char>, list: Seq<Found>, lines: Seq<Seq<char>>) -> Seq<
    char,
> {
    replaced(text, list, Seq::new(list.len(), |i: int| new_method(list[i], lines)))
}

/// Each match has the three groups of a method.
pub open spec fn are_methods(list: Seq<Found>) -> bool {
    forall|k: int|
        0 <= k < list.len() ==> {
            &&& (#[trigger] list[k]).groups.len() == 4
            &&& list[k].groups[1] is Some
            &&& list[k].groups[2] is Some
            &&& list[k].groups[3] is Some
        }
}

/// The methods that a patch replaces in `text`.
pub open spec fn targets(text: Seq<char>, method: MethodPatch) -> Seq<Found> {
    regex_captures_iter(method_pattern(method.signature), text)
}

/// `text` with the methods that a patch is for replaced.
pub open spec fn patched(text: Seq<char>, method: MethodPatch) -> Seq<char> {
    with_new_methods(text, targets(text, method), method.lines)
}

/// Indents a line and drops white space at its end.
fn indent(line: &str) -> (r: String)
    ensures
        r@ == body_line(line@),
{
    let whole = to_chars("    ".to_string().concat(line).as_str());
    from_chars(drop_white(whole.as_slice()))
}

/// Turns a line of the old body into a comment.
fn comment_out(line: &str) -> (r: String)
    ensures
        r@ == commented(line@),
{
    let prefix = "    ";
    if starts_with(line, prefix) {
        let chars = to_chars(line);
        let n: usize = to_chars(prefix).len();
        assert(line@.skip(n as int) == line@.subrange(n as int, line@.len() as int));
        let rest = from_chars(slice_subrange(chars.as_slice(), n, chars.len()));
        indent("# ".to_string().concat(rest.as_str()).as_str())
    } else {
        indent("# ".to_string().concat(line).as_str())
    }
}

/// The lines of the new body of a method.
pub fn patched_body(replacement_lines: &Vec<&'static str>, body: &str) -> (r: Vec<String>)
    ensures
        texts(r@) == new_lines(strs(replacement_lines@)) + old_lines(body@),
{
    let ghost lines = strs(replacement_lines@);
    let ghost head = seq![body_line("# inserted by apk-mitm to disable certificate pinning"@)];
    let ghost middle = Seq::new(lines.len(), |i: int| body_line(lines[i]));
    let mut r: Vec<String> = Vec::new();
    r.push(indent("# inserted by apk-mitm to disable certificate pinning"));
    assert(texts(r@) == head + middle.take(0));
    for i in 0..replacement_lines.len()
        invariant
            lines == strs(replacement_lines@),
            middle == Seq::new(lines.len(), |i: int| body_line(lines[i])),
            texts(r@) == head + middle.take(i as int),
    {
        let ghost before = r@;
        r.push(indent(replacement_lines[i]));
        assert(texts(r@) == texts(before).push(body_line(lines[i as int])));
        assert(head + middle.take(i + 1) == (head + middle.take(i as int)).push(middle[i as int]));
    }
    assert(middle.take(lines.len() as int) == middle);
    let ghost before = r@;
    r.push(indent(""));
    r.push(indent("# commented out by apk-mitm to disable old method body"));
    r.push(indent("# "));
    assert(texts(r@) == new_lines(lines));
    let chars = to_chars(body);
    let list = split_pieces(chars.as_slice(), '\n');
    let ghost pieces = split_on(body@, '\n');
    let ghost old = old_lines(body@);
    assert(new_lines(lines) + old.take(0) == new_lines(lines));
    for i in 0..list.len()
        invariant
            pieces == texts(list@),
            old == Seq::new(pieces.len(), |i: int| commented(pieces[i])),
            texts(r@) == new_lines(lines) + old.take(i as int),
    {
        let ghost before = r@;
        r.push(comment_out(list[i].as_str()));
        assert(texts(r@) == texts(before).push(commented(pieces[i as int])));
        assert(new_lines(lines) + old.take(i + 1) == (new_lines(lines) + old.take(i as int)).push(
            old[i as int],
        ));
    }
    assert(old.take(pieces.len() as int) == old);
    r
}

/// Replaces the methods in `list`, which were found in `content`. The flag tells whether there was
/// one.
pub fn replace_methods(
    content: &str,
    list: &Vec<Match>,
    replacement_lines: &Vec<&'static str>,
) -> (r: (String, bool))
    requires
        lie_in(all_found(list@), content@),
        are_methods(all_found(list@)),
    ensures
        r.0@ == with_new_methods(content@, all_found(list@), strs(replacement_lines@)),
        r.1 == (list@.len() > 0),
{
    let ghost found = all_found(list@);
    let ghost lines = strs(replacement_lines@);
    let mut with: Vec<String> = Vec::new();
    for k in 0..list.len()
        invariant
            found == all_found(list@),
            lines == strs(replacement_lines@),
            are_methods(found),
            with@.len() == k,
            forall|i: int| 0 <= i < k ==> (#[trigger] with@[i])@ == new_method(found[i], lines),
    {
        assert(found[k as int].groups.len() == 4);
        let opening = group(&list[k], 1);
        let body = group(&list[k], 2);
        let closing = group(&list[k], 3);
        let lines = patched_body(replacement_lines, body.as_str());
        let mut method = opening;
        method.push('\n');
        method.append(join_pieces(&lines, '\n').as_str());
        method.push('\n');
        method.append(closing.as_str());
        assert(method@ == new_method(found[k as int], strs(replacement_lines@)));
        with.push(method);
    }
    assert(texts(with@) == Seq::new(found.len(), |i: int| new_method(found[i], lines)));
    (replace_matches(content, list, &with), list.len() > 0)
}

/// The new text of a method has more lines than the old one.
proof fn lemma_new_method_is_longer(m: Found, text: Seq<char>, method: MethodPatch)
    requires
        is_method(m, text, method.signature),
    ensures
        count(new_method(m, method.lines), '\n') > count(part(text, m.start, m.end), '\n'),
{
    reveal_strlit(".end method");
    reveal_strlit("\n.end method");
    let c = '\n';
    let g1 = m.groups[1]->0;
    let g2 = m.groups[2]->0;
    let g3 = m.groups[3]->0;
    let pieces = new_lines(method.lines) + old_lines(g2);
    let body = join(pieces, c);
    lemma_count_split(g2, c);
    lemma_count_join(pieces, c);
    assert(pieces.len() >= 5 + count(g2, c));
    assert("\n.end method"@ == seq![c] + g3);
    lemma_count_add(g1, seq![c], c);
    lemma_count_add(g1 + seq![c], g2, c);
    lemma_count_add(g1 + seq![c] + g2, "\n.end method"@, c);
    lemma_count_add(seq![c], g3, c);
    lemma_count_add(g1 + seq![c], body, c);
    lemma_count_add(g1 + seq![c] + body, seq![c], c);
    lemma_count_add(g1 + seq![c] + body + seq![c], g3, c);
}

/// Replaces the methods of `content` that `method` is for. The flag tells whether there was one.
///
/// In a text of the usual form the methods with the signature get new bodies and all else stays.
pub fn patch_smali_method(content: &str, method: &SmaliMethodPatch) -> (r: Result<
    (String, bool),
    SmaliError,
>)
    ensures
        short(method.signature@) ==> r is Ok,
        r matches Ok((text, changed)) ==> {
            &&& text@ == patched(content@, method@)
            &&& lie_in(targets(content@, method@), content@)
            &&& changed == (targets(content@, method@).len() > 0)
            &&& !changed ==> text@ == content@
            &&& changed ==> text@ != content@ && count(text@, '\n') > count(content@, '\n')
            &&& forall|k: int|
                0 <= k < targets(content@, method@).len() ==> is_method(
                    #[trigger] targets(content@, method@)[k],
                    content@,
                    method.signature@,
                )
            &&& forall|i: int|
                opens_method(content@, method.signature@, i) ==> covered(
                    content@,
                    targets(content@, method@),
                    i,
                )
            &&& known_signature(method.signature@) ==> forall|pieces: Seq<Piece>| #[trigger]
                fits(pieces, content@) ==> text@ == whole_text(new_pieces(pieces, method@))
        },
        r matches Err(e) ==> e is Pattern,
{
    let pattern = smali_method_regex(method.signature);
    assert(method_pattern(method.signature@) == pattern@);
    match captures_iter(pattern.as_str(), content) {
        Ok(list) => {
            let ghost found = all_found(list@);
            assert forall|k: int| 0 <= k < found.len() implies {
                &&& lies_in(#[trigger] found[k], content@)
                &&& is_method(found[k], content@, method.signature@)
            } by {
                assert(found[k] == list@[k]@);
            }
            let r = replace_methods(content, &list, &method.replacement_lines);
            proof {
                if found.len() == 0 {
                    lemma_replaced_by_itself(content@, found, Seq::empty());
                    assert(Seq::new(
                        found.len(),
                        |i: int| new_method(found[i], method@.lines),
                    ) == Seq::<Seq<char>>::empty());
                }
                assert forall|i: int| 0 <= i < found.len() implies count(
                    new_method(found[i], method@.lines),
                    '\n',
                ) > count(part(content@, (#[trigger] found[i]).start, found[i].end), '\n') by {
                    lemma_new_method_is_longer(found[i], content@, method@);
                }
                lemma_replaced_grows(
                    content@,
                    found,
                    Seq::new(found.len(), |i: int| new_method(found[i], method@.lines)),
                    '\n',
                );
                if known_signature(method.signature@) {
                    assert forall|pieces: Seq<Piece>| #[trigger] fits(pieces, content@) implies r.0@
                        == whole_text(new_pieces(pieces, method@)) by {
                        lemma_tidy_replaced(pieces, found, method@);
                        assert(new_methods(found, method@.lines) == Seq::new(
                            found.len(),
                            |i: int| new_method(found[i], method@.lines),
                        ));
                    }
                }
            }
            Ok(r)
        },
        Err(e) => Err(SmaliError::Pattern(e.to_string())),
    }
}

// ---------------------------------------------------------------------------------------------
// Laws
// ---------------------------------------------------------------------------------------------

/// White space at the end is all that `trim_end` takes away.
pub proof fn lemma_trim_end_keeps(front: Seq<char>, rest: Seq<char>)
    requires
        front.len() > 0,
        !white(front.last()),
    ensures
        trim_end(front + rest).len() >= front.len(),
        trim_end(front + rest).take(front.len() as int) == front,
    decreases rest.len(),
{
    let whole = front + rest;
    if rest.len() == 0 {
        assert(whole == front);
        assert(whole.take(front.len() as int) == front);
    } else if white(whole.last()) {
        assert(whole.drop_last() == front + rest.drop_last());
        lemma_trim_end_keeps(front, rest.drop_last());
    } else {
        assert(whole.take(front.len() as int) == front);
    }
}

/// Every line of the old body becomes a comment.
pub proof fn law_old_line_is_comment(line: Seq<char>)
    ensures
        has_prefix(commented(line), "    #"@),
{
    reveal_strlit("    ");
    reveal_strlit("# ");
    reveal_strlit("    #");
    let front = "    #"@;
    let rest = seq![' '] + outdented(line);
    assert("    "@ + ("# "@ + outdented(line)) == front + rest);
    lemma_trim_end_keeps(front, rest);
    let all = commented(line);
    assert(all.subrange(0, front.len() as int) == all.take(front.len() as int));
}

proof fn lemma_trim_end_contains(s: Seq<char>, c: char)
    requires
        !s.contains(c),
    ensures
        !trim_end(s).contains(c),
    decreases s.len(),
{
    if s.len() > 0 && white(s.last()) {
        let front = s.drop_last();
        assert forall|i: int| 0 <= i < front.len() implies front[i] != c by {
            assert(s[i] != c);
        }
        lemma_trim_end_contains(front, c);
    }
}

proof fn lemma_body_line_is_one_line(line: Seq<char>)
    requires
        !line.contains('\n'),
    ensures
        !body_line(line).contains('\n'),
{
    reveal_strlit("    ");
    let whole = "    "@ + line;
    assert forall|i: int| 0 <= i < whole.len() implies whole[i] != '\n' by {
        if i >= 4 {
            assert(whole[i] == line[i - 4]);
        }
    }
    lemma_trim_end_contains(whole, '\n');
}

proof fn lemma_commented_is_one_line(line: Seq<char>)
    requires
        !line.contains('\n'),
    ensures
        !commented(line).contains('\n'),
{
    reveal_strlit("    ");
    reveal_strlit("# ");
    let text = "# "@ + outdented(line);
    assert forall|i: int| 0 <= i < text.len() implies text[i] != '\n' by {
        if i >= 2 {
            if has_prefix(line, "    "@) {
                assert(text[i] == line[i - 2 + 4]);
            } else {
                assert(text[i] == line[i - 2]);
            }
        }
    }
    lemma_body_line_is_one_line(text);
}

/// The body of a replaced method, read line by line, is the note, the given lines and the second
/// note, followed by the lines of the old body, in order and each of them a comment.
pub proof fn law_new_body(lines: Seq<Seq<char>>, body: Seq<char>)
    requires
        forall|i: int| 0 <= i < lines.len() ==> !(#[trigger] lines[i]).contains('\n'),
    ensures
        split_on(join(new_lines(lines) + old_lines(body), '\n'), '\n') == new_lines(lines)
            + old_lines(body),
        old_lines(body).len() == split_on(body, '\n').len(),
        forall|i: int|
            0 <= i < old_lines(body).len() ==> {
                &&& #[trigger] old_lines(body)[i] == commented(split_on(body, '\n')[i])
                &&& has_prefix(old_lines(body)[i], "    #"@)
            },
{
    let all = new_lines(lines) + old_lines(body);
    let n = new_lines(lines).len() as int;
    assert forall|i: int| 0 <= i < all.len() implies !(#[trigger] all[i]).contains('\n') by {
        if i == 0 {
            reveal_strlit("# inserted by apk-mitm to disable certificate pinning");
            lemma_body_line_is_one_line("# inserted by apk-mitm to disable certificate pinning"@);
        } else if i <= lines.len() {
            assert(all[i] == body_line(lines[i - 1]));
            lemma_body_line_is_one_line(lines[i - 1]);
        } else if i == n - 3 {
            reveal_strlit("");
            lemma_body_line_is_one_line(""@);
        } else if i == n - 2 {
            reveal_strlit("# commented out by apk-mitm to disable old method body");
            lemma_body_line_is_one_line("# commented out by apk-mitm to disable old method body"@);
        } else if i == n - 1 {
            reveal_strlit("# ");
            lemma_body_line_is_one_line("# "@);
        } else {
            let old = split_on(body, '\n');
            assert(all[i] == commented(old[i - n]));
            lemma_split_on_pieces(body, '\n', i - n);
            lemma_commented_is_one_line(old[i - n]);
        }
    }
    lemma_split_of_join(all, '\n');
    assert forall|i: int| 0 <= i < old_lines(body).len() implies {
        &&& #[trigger] old_lines(body)[i] == commented(split_on(body, '\n')[i])
        &&& has_prefix(old_lines(body)[i], "    #"@)
    } by {
        law_old_line_is_comment(split_on(body, '\n')[i]);
    }
}

/// The new text of every method that is replaced stands in the result.
pub proof fn law_methods_replaced(text: Seq<char>, method: MethodPatch, k: int)
    requires
        0 <= k < targets(text, method).len(),
    ensures
        contains_text(patched(text, method), new_method(targets(text, method)[k], method.lines)),
{
    let list = targets(text, method);
    lemma_replaced_contains(
        text,
        list,
        Seq::new(list.len(), |i: int| new_method(list[i], method.lines)),
        k,
    );
}

/// Whatever stands between two neighbouring methods that are replaced, before the first or after the
/// last stays.
pub proof fn law_rest_kept(text: Seq<char>, method: MethodPatch, k: int, what: Seq<char>)
    requires
        0 <= k <= targets(text, method).len(),
        contains_text(gap(text, targets(text, method), k), what),
    ensures
        contains_text(patched(text, method), what),
{
    let list = targets(text, method);
    lemma_replaced_keeps_gaps(
        text,
        list,
        Seq::new(list.len(), |i: int| new_method(list[i], method.lines)),
        k,
        what,
    );
}

/// The signatures of the table are known, and its bodies hold no line feed, so that `law_new_body` speaks
/// of each of them.
pub proof fn law_table_bodies(i: int, k: int)
    requires
        0 <= i < patches_model().len(),
        0 <= k < patches_model()[i].methods.len(),
    ensures
        known_signature(patches_model()[i].methods[k].signature),
        tidy_lines(patches_model()[i].methods[k].lines),
        forall|j: int|
            0 <= j < patches_model()[i].methods[k].lines.len()
                ==> !(#[trigger] patches_model()[i].methods[k].lines[j]).contains('\n'),
{
    reveal_strlit(".locals 0");
    reveal_strlit("return-void");
    reveal_strlit(".locals 1");
    reveal_strlit("const/4 v0, 0x1");
    reveal_strlit("return v0");
    reveal_strlit("const/4 v0, 0x0");
    reveal_strlit("new-array v0, v0, [Ljava/security/cert/X509Certificate;");
    reveal_strlit("return-object v0");
}

} // verus!
