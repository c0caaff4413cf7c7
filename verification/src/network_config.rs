//! The network security configuration that the patched app uses.
use crate::place::inside;
use crate::place::Location;
use crate::text::contains_text;
use crate::text::from_chars;
use crate::text::occurs_at;
use crate::text::same;
use crate::text::to_chars;
use vstd::prelude::*;
use vstd::slice::slice_subrange;

verus! {

/// A certificate that the user wants trusted. The name of its file is absent if it is not valid
/// Unicode.
#[derive(Debug)]
pub struct Certificate {
    pub file_name: Option<String>,
}

/// What stands before the permission for traffic without encryption.
pub const CONFIG_HEAD: &'static str =
    "<?xml version=\"1.0\" encoding=\"utf-8\"?>\n  <!-- Intentionally lax Network Security Configuration (generated by apk-mitm) -->\n  <network-security-config>\n    <!-- Allow cleartext traffic -->\n    ";

/// The permission for traffic without encryption.
pub const CLEARTEXT: &'static str = "<base-config cleartextTrafficPermitted=\"true\">";

/// What stands between that permission and the certificates that the user added.
pub const CONFIG_ANCHORS: &'static str =
    "\n      <trust-anchors>\n        <!-- Allow user-added (proxy) certificates -->\n        ";

/// Trust in the certificates that the user added.
pub const TRUST_USER: &'static str = "<certificates src=\"user\" />";

/// What stands before the certificates of the system.
pub const CONFIG_INDENT: &'static str = "        ";

/// Trust in the certificates of the system.
pub const TRUST_SYSTEM: &'static str = "<certificates src=\"system\" />";

/// What stands after the certificates of the system.
pub const CONFIG_TAIL: &'static str =
    "\n      </trust-anchors>\n    </base-config>\n  </network-security-config>";

/// What stands before the name of the certificate's resource.
pub const CERTIFICATE_HEAD: &'static str =
    "\n\n        <!-- Allow specific certificate -->\n        <certificates src=\"@raw/";

/// What stands after the name of the certificate's resource.
pub const CERTIFICATE_TAIL: &'static str = "\" />\n";

// ---------------------------------------------------------------------------------------------
// Model
// ---------------------------------------------------------------------------------------------

/// What stands before the last `c` of `s`.
pub open spec fn before_last(s: Seq<char>, c: char) -> Option<Seq<char>>
    decreases s.len(),
{
    if s.len() == 0 {
        None
    } else if s.last() == c {
        Some(s.drop_last())
    } else {
        before_last(s.drop_last(), c)
    }
}

/// The name under which Android knows a raw resource: the name of its file without the extension.
pub open spec fn resource_of(file_name: Seq<char>) -> Seq<char> {
    match before_last(file_name, '.') {
        Some(name) => name,
        None => file_name,
    }
}

/// The name of the certificate's file, or what stands for one that is not valid Unicode.
pub open spec fn certificate_file(certificate: Certificate) -> Seq<char> {
    match certificate.file_name {
        Some(name) => name@,
        None => "certificate"@,
    }
}

/// The lines that trust a certificate of the user in a file with the given name, if there is one.
pub open spec fn certificate_block(file: Option<Seq<char>>) -> Seq<char> {
    match file {
        Some(name) => CERTIFICATE_HEAD@ + resource_of(name) + CERTIFICATE_TAIL@,
        None => Seq::empty(),
    }
}

/// The whole configuration.
pub open spec fn config_of(file: Option<Seq<char>>) -> Seq<char> {
    CONFIG_HEAD@ + CLEARTEXT@ + CONFIG_ANCHORS@ + TRUST_USER@ + certificate_block(file)
        + CONFIG_INDENT@ + TRUST_SYSTEM@ + CONFIG_TAIL@
}

// ---------------------------------------------------------------------------------------------
// Operations
// ---------------------------------------------------------------------------------------------

/// Whether a file with this extension is taken for a certificate. The extension is absent if there is
/// none or it is not valid Unicode.
pub fn is_certificate_extension(extension: Option<&str>) -> (r: bool)
    ensures
        r == (extension matches Some(e) && (e@ == "pem"@ || e@ == "der"@)),
{
    match extension {
        Some(e) => same(e, "pem") || same(e, "der"),
        None => false,
    }
}

/// What the user is told of a certificate with another extension.
pub fn certificate_refusal() -> (r: String)
    ensures
        r@ == "Only .pem and .der certificate files are supported."@,
{
    "Only .pem and .der certificate files are supported.".to_string()
}

/// The name under which Android knows the raw resource with this file name.
pub fn resource_name(file_name: &str) -> (r: String)
    ensures
        r@ == resource_of(file_name@),
{
    let chars = to_chars(file_name);
    let mut n: usize = chars.len();
    assert(file_name@.take(n as int) == file_name@);
    while n > 0
        invariant
            chars@ == file_name@,
            n <= chars@.len(),
            before_last(file_name@, '.') == before_last(file_name@.take(n as int), '.'),
        decreases n,
    {
        assert(file_name@.take(n as int).drop_last() == file_name@.take(n - 1));
        n = n - 1;
        if chars[n] == '.' {
            assert(file_name@.take(n as int) == file_name@.subrange(0, n as int));
            return from_chars(slice_subrange(chars.as_slice(), 0, n));
        }
    }
    file_name.to_string()
}

/// The directory for a certificate of the user in the decoded app.
pub fn copy_certificate_file(decode_dir: &Location) -> (r: Location)
    ensures
        r@ == inside(decode_dir@, "res/raw"@),
{
    decode_dir.join("res/raw")
}

/// Writes the configuration.
pub fn create_network_security_config(certificate: Option<&Certificate>) -> (r: String)
    ensures
        r@ == config_of(
            match certificate {
                Some(c) => Some(certificate_file(*c)),
                None => None,
            },
        ),
{
    let block = match certificate {
        Some(c) => {
            let name = match &c.file_name {
                Some(name) => resource_name(name.as_str()),
                None => resource_name("certificate"),
            };
            CERTIFICATE_HEAD.to_string().concat(name.as_str()).concat(CERTIFICATE_TAIL)
        },
        None => String::new(),
    };
    CONFIG_HEAD.to_string().concat(CLEARTEXT).concat(CONFIG_ANCHORS).concat(TRUST_USER).concat(
        block.as_str(),
    ).concat(CONFIG_INDENT).concat(TRUST_SYSTEM).concat(CONFIG_TAIL)
}

// ---------------------------------------------------------------------------------------------
// Laws
// ---------------------------------------------------------------------------------------------

proof fn lemma_between(front: Seq<char>, what: Seq<char>, back: Seq<char>)
    ensures
        contains_text(front + what + back, what),
{
    let all = front + what + back;
    let at = front.len() as int;
    assert(all.subrange(at, at + what.len()) == what);
    assert(occurs_at(all, what, at));
}

/// Every configuration permits traffic without encryption and trusts both the certificates that the
/// user added and those of the system; with a certificate of the user it trusts that one too.
pub proof fn law_config_trusts(file: Option<Seq<char>>)
    ensures
        contains_text(config_of(file), CLEARTEXT@),
        contains_text(config_of(file), TRUST_USER@),
        contains_text(config_of(file), TRUST_SYSTEM@),
        contains_text(config_of(file), certificate_block(file)),
{
    let block = certificate_block(file);
    let all = config_of(file);
    let a = CONFIG_HEAD@;
    let b = a + CLEARTEXT@ + CONFIG_ANCHORS@;
    let c = b + TRUST_USER@;
    let d = c + block + CONFIG_INDENT@;
    lemma_between(
        a,
        CLEARTEXT@,
        CONFIG_ANCHORS@ + TRUST_USER@ + block + CONFIG_INDENT@ + TRUST_SYSTEM@ + CONFIG_TAIL@,
    );
    assert(a + CLEARTEXT@ + (CONFIG_ANCHORS@ + TRUST_USER@ + block + CONFIG_INDENT@ + TRUST_SYSTEM@
        + CONFIG_TAIL@) == all);
    lemma_between(b, TRUST_USER@, block + CONFIG_INDENT@ + TRUST_SYSTEM@ + CONFIG_TAIL@);
    assert(b + TRUST_USER@ + (block + CONFIG_INDENT@ + TRUST_SYSTEM@ + CONFIG_TAIL@) == all);
    lemma_between(c, block, CONFIG_INDENT@ + TRUST_SYSTEM@ + CONFIG_TAIL@);
    assert(c + block + (CONFIG_INDENT@ + TRUST_SYSTEM@ + CONFIG_TAIL@) == all);
    lemma_between(d, TRUST_SYSTEM@, CONFIG_TAIL@);
    assert(d + TRUST_SYSTEM@ + CONFIG_TAIL@ == all);
}

/// Of the name of a file the last dot and what follows it are no part of the resource; a name without a
/// dot is the resource.
pub proof fn law_resource_is_stem(stem: Seq<char>, extension: Seq<char>)
    requires
        !extension.contains('.'),
    ensures
        resource_of(stem + seq!['.'] + extension) == stem,
        resource_of(extension) == extension,
{
    lemma_before_last(stem, extension);
    lemma_no_dot(extension);
}

proof fn lemma_before_last(stem: Seq<char>, extension: Seq<char>)
    requires
        !extension.contains('.'),
    ensures
        before_last(stem + seq!['.'] + extension, '.') == Some(stem),
    decreases extension.len(),
{
    let all = stem + seq!['.'] + extension;
    if extension.len() == 0 {
        assert(all.last() == '.');
        assert(all.drop_last() == stem);
    } else {
        let front = extension.drop_last();
        assert(all.last() == extension.last());
        assert(extension[extension.len() - 1] != '.');
        assert forall|i: int| 0 <= i < front.len() implies front[i] != '.' by {
            assert(extension[i] != '.');
        }
        assert(all.drop_last() == stem + seq!['.'] + front);
        lemma_before_last(stem, front);
    }
}

proof fn lemma_no_dot(s: Seq<char>)
    requires
        !s.contains('.'),
    ensures
        before_last(s, '.') is None,
    decreases s.len(),
{
    if s.len() > 0 {
        let front = s.drop_last();
        assert(s[s.len() - 1] != '.');
        assert forall|i: int| 0 <= i < front.len() implies front[i] != '.' by {
            assert(s[i] != '.');
        }
        lemma_no_dot(front);
    }
}

/// What a configuration says: traffic without encryption is permitted, and the trust anchors are the
/// certificates that the user added, the certificate that is given, if one is, and those of the system,
/// in this order and each once.
#[verifier::spinoff_prover]
#[verifier::rlimit(40)]
pub proof fn law_config_says(name: Seq<char>)
    ensures
        config_of(None)
            == "<?xml version=\"1.0\" encoding=\"utf-8\"?>\n  <!-- Intentionally lax Network Security Configuration (generated by apk-mitm) -->\n  <network-security-config>\n    <!-- Allow cleartext traffic -->\n    <base-config cleartextTrafficPermitted=\"true\">\n      <trust-anchors>\n        <!-- Allow user-added (proxy) certificates -->\n        <certificates src=\"user\" />        <certificates src=\"system\" />\n      </trust-anchors>\n    </base-config>\n  </network-security-config>"@,
        config_of(Some(name))
            == "<?xml version=\"1.0\" encoding=\"utf-8\"?>\n  <!-- Intentionally lax Network Security Configuration (generated by apk-mitm) -->\n  <network-security-config>\n    <!-- Allow cleartext traffic -->\n    <base-config cleartextTrafficPermitted=\"true\">\n      <trust-anchors>\n        <!-- Allow user-added (proxy) certificates -->\n        <certificates src=\"user\" />\n\n        <!-- Allow specific certificate -->\n        <certificates src=\"@raw/"@
            + resource_of(name)
            + "\" />\n        <certificates src=\"system\" />\n      </trust-anchors>\n    </base-config>\n  </network-security-config>"@,
{
    reveal_strlit(
        "<?xml version=\"1.0\" encoding=\"utf-8\"?>\n  <!-- Intentionally lax Network Security Configuration (generated by apk-mitm) -->\n  <network-security-config>\n    <!-- Allow cleartext traffic -->\n    <base-config cleartextTrafficPermitted=\"true\">\n      <trust-anchors>\n        <!-- Allow user-added (proxy) certificates -->\n        <certificates src=\"user\" />        <certificates src=\"system\" />\n      </trust-anchors>\n    </base-config>\n  </network-security-config>",
    );
    reveal_strlit(
        "<?xml version=\"1.0\" encoding=\"utf-8\"?>\n  <!-- Intentionally lax Network Security Configuration (generated by apk-mitm) -->\n  <network-security-config>\n    <!-- Allow cleartext traffic -->\n    <base-config cleartextTrafficPermitted=\"true\">\n      <trust-anchors>\n        <!-- Allow user-added (proxy) certificates -->\n        <certificates src=\"user\" />\n\n        <!-- Allow specific certificate -->\n        <certificates src=\"@raw/",
    );
    reveal_strlit(
        "\" />\n        <certificates src=\"system\" />\n      </trust-anchors>\n    </base-config>\n  </network-security-config>",
    );
    reveal_strlit(
        "<?xml version=\"1.0\" encoding=\"utf-8\"?>\n  <!-- Intentionally lax Network Security Configuration (generated by apk-mitm) -->\n  <network-security-config>\n    <!-- Allow cleartext traffic -->\n    ",
    );
    reveal_strlit("<base-config cleartextTrafficPermitted=\"true\">");
    reveal_strlit(
        "\n      <trust-anchors>\n        <!-- Allow user-added (proxy) certificates -->\n        ",
    );
    reveal_strlit("<certificates src=\"user\" />");
    reveal_strlit("        ");
    reveal_strlit("<certificates src=\"system\" />");
    reveal_strlit("\n      </trust-anchors>\n    </base-config>\n  </network-security-config>");
    reveal_strlit(
        "\n\n        <!-- Allow specific certificate -->\n        <certificates src=\"@raw/",
    );
    reveal_strlit("\" />\n");
    assert(config_of(None)
        =~= "<?xml version=\"1.0\" encoding=\"utf-8\"?>\n  <!-- Intentionally lax Network Security Configuration (generated by apk-mitm) -->\n  <network-security-config>\n    <!-- Allow cleartext traffic -->\n    <base-config cleartextTrafficPermitted=\"true\">\n      <trust-anchors>\n        <!-- Allow user-added (proxy) certificates -->\n        <certificates src=\"user\" />        <certificates src=\"system\" />\n      </trust-anchors>\n    </base-config>\n  </network-security-config>"@);
}

} // verus!
