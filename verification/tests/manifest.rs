use apk_mitm::manifest::modify_manifest;
use apk_mitm::manifest::replace_application_tag;
use apk_mitm::manifest::replace_key;
use apk_mitm::manifest::replace_maps_api_keys;
use apk_mitm::manifest::set_application_attr;
use apk_mitm::manifest::ManifestError;
use apk_mitm::network_config::certificate_refusal;
use apk_mitm::network_config::create_network_security_config;
use apk_mitm::network_config::is_certificate_extension;
use apk_mitm::network_config::resource_name;
use apk_mitm::network_config::Certificate;
use apk_mitm::pattern::attribute_regex;
use apk_mitm::pattern::replace_matches;
use apk_mitm::pattern::smali_method_regex;
use apk_mitm::pattern::Match;

#[test]
fn adds_manifest_attrs_and_maps_key() {
    let input = r#"<manifest><application android:label="App"><meta-data android:name="com.google.android.geo.API_KEY" android:value="old" /></application></manifest>"#;
    let output =
        set_application_attr(input, "android:networkSecurityConfig", "@xml/nsc_mitm").unwrap();
    let output = set_application_attr(&output, "android:debuggable", "true").unwrap();
    let output = replace_maps_api_keys(&output, "new-key").unwrap();
    assert!(output.contains("android:networkSecurityConfig=\"@xml/nsc_mitm\""));
    assert!(output.contains("android:debuggable=\"true\""));
    assert!(output.contains("android:value=\"new-key\""));
}

#[test]
fn attribute_is_appended() {
    assert_eq!(
        set_application_attr("\u{e9}<application a=\"b\"/>x", "n", "v").unwrap(),
        "\u{e9}<application a=\"b\" n=\"v\"/>x"
    );
    assert_eq!(
        set_application_attr("<application>", "n", "v").unwrap(),
        "<application n=\"v\">"
    );
}

#[test]
fn attribute_is_replaced() {
    assert_eq!(
        set_application_attr("<application a=\"b\"\n  n = 'old' c=\"d\">", "n", "v").unwrap(),
        "<application a=\"b\"\n  n=\"v\" c=\"d\">"
    );
    assert_eq!(
        set_application_attr("<application xn=\"1\">", "n", "v").unwrap(),
        "<application xn=\"1\" n=\"v\">"
    );
}

#[test]
fn meta_characters_of_a_name_stand_for_themselves() {
    assert_eq!(
        set_application_attr("<application aXb=\"1\">", "a.b", "v").unwrap(),
        "<application aXb=\"1\" a.b=\"v\">"
    );
    assert_eq!(
        set_application_attr("<application a.b=\"1\">", "a.b", "v").unwrap(),
        "<application a.b=\"v\">"
    );
}

#[test]
fn only_the_application_tag_is_changed() {
    let input = "<applications x=\"1\"/><application y=\"2\"><activity n=\"3\"/></application>";
    assert_eq!(
        set_application_attr(input, "n", "v").unwrap(),
        "<applications x=\"1\"/><application y=\"2\" n=\"v\"><activity n=\"3\"/></application>"
    );
}

#[test]
fn references_to_the_old_attribute_are_expanded() {
    assert_eq!(
        set_application_attr("<application n=\"old\">", "n", "a$0").unwrap(),
        "<application n=\"a n=\"old\"\">"
    );
    assert_eq!(
        set_application_attr("<application n=\"old\">", "n", "a$$b${x}c").unwrap(),
        "<application n=\"a$bc\">"
    );
    assert_eq!(
        set_application_attr("<application>", "n", "a$0").unwrap(),
        "<application n=\"a$0\">"
    );
}

#[test]
fn keys_are_inserted_as_they_are() {
    assert_eq!(
        replace_maps_api_keys(
            "<meta-data android:name=\"com.google.android.geo.API_KEY\" android:value=\"old\"/>",
            "a$b"
        )
        .unwrap(),
        "<meta-data android:name=\"com.google.android.geo.API_KEY\" android:value=\"a$b\"/>"
    );
}

#[test]
fn the_name_of_a_tag_is_a_whole_word() {
    assert_eq!(
        set_application_attr("<application\u{2014}>", "n", "v").unwrap(),
        "<application\u{2014} n=\"v\">"
    );
    assert!(set_application_attr("<application\u{e9}>", "n", "v").is_err());
    assert!(set_application_attr("<application_>", "n", "v").is_err());
    let other = "<meta-dataset android:name='com.google.android.geo.API_KEY'/>";
    assert_eq!(replace_maps_api_keys(other, "k").unwrap(), other);
}

#[test]
fn long_names_are_set() {
    let name = "\u{1f600}".repeat(10_000);
    let once = set_application_attr("<application>", &name, "v").unwrap();
    assert_eq!(once, format!("<application {name}=\"v\">"));
}

#[test]
fn the_last_value_wins() {
    for content in [
        "<application>",
        "<application n='1' m=\"2\"/>",
        "<manifest><application other:n=\"1\" n = \"it's\" x='\"'></manifest>",
        "<application n=\"1\" x=' n=\"'>",
        "<application x=\" n='\">",
    ] {
        let first = set_application_attr(content, "n", "one").unwrap();
        let both = set_application_attr(&first, "n", "two").unwrap();
        assert_eq!(both, set_application_attr(content, "n", "two").unwrap());
        assert_eq!(set_application_attr(&first, "n", "one").unwrap(), first);
    }
    let apostrophe = "<application x=\" n='\">";
    let first = set_application_attr(apostrophe, "n", "it's").unwrap();
    assert_ne!(
        set_application_attr(&first, "n", "two").unwrap(),
        set_application_attr(apostrophe, "n", "two").unwrap()
    );
    let open = "<application x=' n=\"'>";
    let first = set_application_attr(open, "n", "one").unwrap();
    assert_ne!(
        set_application_attr(&first, "n", "two").unwrap(),
        set_application_attr(open, "n", "two").unwrap()
    );
}

#[test]
fn the_last_key_wins() {
    let content = "<a><meta-data android:name=\"com.google.android.maps.v2.API_KEY\" android:value=\"1\"/>\u{e9}<meta-data x='y'><meta-data android:name='com.google.android.geo.API_KEY'/></a>";
    let first = replace_maps_api_keys(content, "one").unwrap();
    assert_eq!(
        replace_maps_api_keys(&first, "two").unwrap(),
        replace_maps_api_keys(content, "two").unwrap()
    );
    assert_eq!(replace_maps_api_keys(&first, "one").unwrap(), first);
    let hidden = "<meta-data android:value=\"android:name='com.google.android.geo.API_KEY'\">";
    let first = replace_maps_api_keys(hidden, "one").unwrap();
    assert_eq!(replace_maps_api_keys(&first, "two").unwrap(), first);
}

#[test]
fn manifest_without_application_tag_is_refused() {
    assert!(matches!(
        set_application_attr("<manifest/>", "n", "v"),
        Err(ManifestError::NoApplicationTag)
    ));
    assert!(matches!(
        set_application_attr("<applications>", "n", "v"),
        Err(ManifestError::NoApplicationTag)
    ));
    assert!(matches!(
        modify_manifest("<application ", false, None),
        Err(ManifestError::NoApplicationTag)
    ));
    assert_eq!(
        ManifestError::NoApplicationTag.message(),
        "AndroidManifest.xml has no <application> tag"
    );
    assert_eq!(ManifestError::Pattern("why".to_string()).message(), "why");
}

#[test]
fn refused_pattern_is_reported() {
    let name = "\u{1f600}".repeat(2_000_000);
    match set_application_attr("<application>", &name, "v") {
        Err(ManifestError::Pattern(reason)) => assert!(reason.contains("size limit")),
        other => panic!("{}", other.is_ok()),
    }
}

#[test]
fn every_maps_key_is_replaced() {
    let input = "<a><meta-data android:name=\"com.google.android.maps.v2.API_KEY\" android:value=\"1\"/>\u{e9}<meta-data android:name='com.google.android.geo.API_KEY'/><meta-data android:name=\"x\" android:value=\"2\"/></a>";
    assert_eq!(
        replace_maps_api_keys(input, "k").unwrap(),
        "<a><meta-data android:name=\"com.google.android.maps.v2.API_KEY\" android:value=\"k\"/>\u{e9}<meta-data android:name='com.google.android.geo.API_KEY' android:value=\"k\"/><meta-data android:name=\"x\" android:value=\"2\"/></a>"
    );
    assert_eq!(
        replace_maps_api_keys("<meta-data android:name='com.google.android.maps.v2.API_KEY'>", "k").unwrap(),
        "<meta-data android:name='com.google.android.maps.v2.API_KEY' android:value=\"k\">"
    );
    assert_eq!(
        replace_maps_api_keys("<meta-data android:name=\"com.google.android.geo.API_KEY\">", "a$b").unwrap(),
        "<meta-data android:name=\"com.google.android.geo.API_KEY\" android:value=\"a$b\">"
    );
    assert_eq!(replace_maps_api_keys("<a/>", "k").unwrap(), "<a/>");
}

#[test]
fn modified_manifest_is_exact() {
    let input = "<manifest><application><meta-data android:name=\"com.google.android.geo.API_KEY\"/></application></manifest>";
    let (output, split) = modify_manifest(input, true, Some("k")).unwrap();
    assert_eq!(
        output,
        "<manifest><application android:networkSecurityConfig=\"@xml/nsc_mitm\" android:debuggable=\"true\"><meta-data android:name=\"com.google.android.geo.API_KEY\" android:value=\"k\"/></application></manifest>"
    );
    assert!(!split);
    let (output, _) = modify_manifest(input, false, None).unwrap();
    assert_eq!(
        output,
        "<manifest><application android:networkSecurityConfig=\"@xml/nsc_mitm\"><meta-data android:name=\"com.google.android.geo.API_KEY\"/></application></manifest>"
    );
}

#[test]
fn split_apps_are_recognised() {
    let double = "<application><meta-data android:name=\"com.android.vending.splits\"/></application>";
    assert!(modify_manifest(double, false, None).unwrap().1);
    let single = "<application><meta-data android:name='com.android.vending.splits'/></application>";
    assert!(modify_manifest(single, false, None).unwrap().1);
    let other = "<application><meta-data android:name=\"com.android.vending.split\"/></application>";
    assert!(!modify_manifest(other, false, None).unwrap().1);
}

fn tag(start: usize, whole: &str, attrs: &str, slash: &str) -> Match {
    Match {
        start,
        end: start + whole.len(),
        groups: vec![
            Some(whole.to_string()),
            Some(attrs.to_string()),
            Some(slash.to_string()),
        ],
    }
}

#[test]
fn tags_are_rebuilt_from_a_match() {
    let m = tag(1, "<application a=\"1\"/>", " a=\"1\"", "/");
    assert_eq!(
        replace_application_tag("x<application a=\"1\"/>y", &m, " b=\"2\""),
        "x<application b=\"2\"/>y"
    );
    let whole = "<meta-data android:name=\"com.google.android.geo.API_KEY\">";
    let m = tag(0, whole, " android:name=\"com.google.android.geo.API_KEY\"", "");
    assert_eq!(
        replace_key(&m, "k"),
        "<meta-data android:name=\"com.google.android.geo.API_KEY\" android:value=\"k\">"
    );
    let m = tag(0, "<meta-data x>", " x", "");
    assert_eq!(replace_key(&m, "k"), "<meta-data x>");
}

#[test]
fn matches_are_replaced_in_place() {
    let text = "a\u{e9}b\u{e9}c";
    let list = vec![tag(1, "\u{e9}", "", ""), tag(4, "\u{e9}", "", "")];
    let with = vec!["12".to_string(), "".to_string()];
    assert_eq!(replace_matches(text, &list, &with), "a12bc");
    assert_eq!(replace_matches(text, &vec![], &vec![]), text);
}

#[test]
fn patterns_are_escaped() {
    assert_eq!(
        attribute_regex("a.b"),
        r#"\sa\.b\s*=\s*(?:\"[^\"]*\"|'[^']*')"#
    );
    assert_eq!(
        smali_method_regex("f()V"),
        r"(?s)(\.method public (?:final )?f\(\)V)\n(.+?)\n(\.end method)"
    );
    assert_eq!(
        attribute_regex("\\.+*?()|[]{}^$#&-~ x:/"),
        r#"\s\\\.\+\*\?\(\)\|\[\]\{\}\^\$\#\&\-\~ x:/\s*=\s*(?:\"[^\"]*\"|'[^']*')"#
    );
}

#[test]
fn network_security_config_is_exact() {
    assert_eq!(
        create_network_security_config(None),
        "<?xml version=\"1.0\" encoding=\"utf-8\"?>\n  <!-- Intentionally lax Network Security Configuration (generated by apk-mitm) -->\n  <network-security-config>\n    <!-- Allow cleartext traffic -->\n    <base-config cleartextTrafficPermitted=\"true\">\n      <trust-anchors>\n        <!-- Allow user-added (proxy) certificates -->\n        <certificates src=\"user\" />        <certificates src=\"system\" />\n      </trust-anchors>\n    </base-config>\n  </network-security-config>"
    );
    let certificate = Certificate { file_name: Some("my.ca.pem".to_string()) };
    assert_eq!(
        create_network_security_config(Some(&certificate)),
        "<?xml version=\"1.0\" encoding=\"utf-8\"?>\n  <!-- Intentionally lax Network Security Configuration (generated by apk-mitm) -->\n  <network-security-config>\n    <!-- Allow cleartext traffic -->\n    <base-config cleartextTrafficPermitted=\"true\">\n      <trust-anchors>\n        <!-- Allow user-added (proxy) certificates -->\n        <certificates src=\"user\" />\n\n        <!-- Allow specific certificate -->\n        <certificates src=\"@raw/my.ca\" />\n        <certificates src=\"system\" />\n      </trust-anchors>\n    </base-config>\n  </network-security-config>"
    );
    let unnamed = Certificate { file_name: None };
    assert!(create_network_security_config(Some(&unnamed)).contains("\"@raw/certificate\""));
}

#[test]
fn resource_names() {
    assert_eq!(resource_name("a.pem"), "a");
    assert_eq!(resource_name("a.b.der"), "a.b");
    assert_eq!(resource_name("a"), "a");
    assert_eq!(resource_name(".pem"), "");
    assert_eq!(resource_name(""), "");
}

#[test]
fn certificate_extensions() {
    assert!(is_certificate_extension(Some("pem")));
    assert!(is_certificate_extension(Some("der")));
    assert!(!is_certificate_extension(Some("crt")));
    assert!(!is_certificate_extension(Some("PEM")));
    assert!(!is_certificate_extension(None));
    assert_eq!(
        certificate_refusal(),
        "Only .pem and .der certificate files are supported."
    );
}

#[test]
fn settings_replace_old_ones_and_keep_each_other() {
    let input = "<?xml version=\"1.0\"?>\n<manifest a=\"b\">\n<application android:label=\"Bob's\" android:debuggable='false' android:networkSecurityConfig = \"@xml/old\" x=\"y\">\n</application></manifest>";
    let (output, _) = modify_manifest(input, true, Some("k")).unwrap();
    assert_eq!(
        output,
        "<?xml version=\"1.0\"?>\n<manifest a=\"b\">\n<application android:label=\"Bob's\" android:debuggable=\"true\" android:networkSecurityConfig=\"@xml/nsc_mitm\" x=\"y\">\n</application></manifest>"
    );
    let input = "<application/>";
    let (output, _) = modify_manifest(input, true, None).unwrap();
    assert_eq!(
        output,
        "<application android:networkSecurityConfig=\"@xml/nsc_mitm\" android:debuggable=\"true\"/>"
    );
}

#[test]
fn the_first_of_several_mentions_is_set() {
    let input = "<application android:debuggable=\"false\" android:debuggable='false'>";
    let (output, _) = modify_manifest(input, true, None).unwrap();
    assert_eq!(
        output,
        "<application android:debuggable=\"true\" android:debuggable='false' android:networkSecurityConfig=\"@xml/nsc_mitm\">"
    );
    let input = "<application a=\"android:debuggable\">android:debuggable=</application>";
    let (output, _) = modify_manifest(input, true, Some("k")).unwrap();
    assert_eq!(
        output,
        "<application a=\"android:debuggable\" android:networkSecurityConfig=\"@xml/nsc_mitm\" android:debuggable=\"true\">android:debuggable=</application>"
    );
}

#[test]
fn settings_can_be_lost_in_unbalanced_quotes() {
    let input = "<application x='\" android:debuggable=\"'>";
    let (output, _) = modify_manifest(input, true, None).unwrap();
    assert_eq!(
        output,
        "<application x='\" android:debuggable=\"true\"@xml/nsc_mitm\">"
    );
}

#[test]
fn settings_are_attributes() {
    let once = set_application_attr("<application>", "android:debuggable", "true").unwrap();
    let twice = set_application_attr(&once, "android:debuggable", "false").unwrap();
    assert_eq!(twice, "<application android:debuggable=\"false\">");
}
