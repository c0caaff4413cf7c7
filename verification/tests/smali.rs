use apk_mitm::smali_file::disable_certificate_pinning;
use apk_mitm::smali_file::is_smali_file;
use apk_mitm::smali_file::process_smali_file;
use apk_mitm::smali_file::smali_roots;
use apk_mitm::smali_file::stays_untouched;
use apk_mitm::smali_file::DirectoryEntry;
use apk_mitm::smali_file::SmaliOutcome;
use apk_mitm::smali_head::parse_smali_head;
use apk_mitm::smali_head::parse_smali_head_reader;
use apk_mitm::smali_head::smali_type_name;
use apk_mitm::smali_head::SmaliError;
use apk_mitm::smali_head::SmaliHead;
use apk_mitm::smali_patch::hostname_methods;
use apk_mitm::smali_patch::okhttp2_methods;
use apk_mitm::smali_patch::okhttp3_methods;
use apk_mitm::smali_patch::patch_smali_method;
use apk_mitm::smali_patch::patched_body;
use apk_mitm::smali_patch::return_void;
use apk_mitm::smali_patch::selector_matches;
use apk_mitm::smali_patch::smali_patches;
use apk_mitm::smali_patch::x509_methods;
use apk_mitm::smali_patch::SmaliMethodPatch;

fn entry(name: &str, is_dir: bool) -> DirectoryEntry {
    DirectoryEntry { name: Some(name.to_string()), is_dir }
}

#[test]
fn patches_okhttp3_certificate_pinner() {
    let smali = r#".class public final Lokhttp3/CertificatePinner;
.super Ljava/lang/Object;

.method public check(Ljava/lang/String;Ljava/util/List;)V
    .locals 2
    invoke-static {}, Lfoo/Bar;->baz()V
    return-void
.end method
"#;
    let method = &okhttp3_methods()[0];
    let (patched, changed) = patch_smali_method(smali, method).unwrap();
    assert!(changed);
    assert!(patched.contains("# inserted by apk-mitm to disable certificate pinning"));
    assert!(patched.contains("    .locals 0\n    return-void"));
    assert!(patched.contains("# invoke-static {}, Lfoo/Bar;->baz()V"));
}

#[test]
fn patched_method_is_exact() {
    let smali = "before\n.method public final check(Ljava/lang/String;Ljava/util/List;)V\n    .locals 2\n\n        nested   \nplain\n.end method\nafter\n";
    let (patched, changed) = patch_smali_method(smali, &okhttp2_methods()[0]).unwrap();
    assert!(changed);
    assert_eq!(
        patched,
        "before\n.method public final check(Ljava/lang/String;Ljava/util/List;)V\n    # inserted by apk-mitm to disable certificate pinning\n    .locals 0\n    return-void\n\n    # commented out by apk-mitm to disable old method body\n    #\n    # .locals 2\n    #\n    #     nested\n    # plain\n.end method\nafter\n"
    );
}

#[test]
fn every_matching_method_is_patched() {
    let method = ".method public check(Ljava/lang/String;Ljava/util/List;)V\n    nop\n.end method\n";
    let smali = format!("{method}\nmiddle \u{e9}\n\n{method}");
    let (patched, changed) = patch_smali_method(&smali, &okhttp2_methods()[0]).unwrap();
    assert!(changed);
    assert_eq!(patched.matches("# inserted by apk-mitm").count(), 2);
    assert_eq!(patched.matches("    # nop\n").count(), 2);
    assert!(patched.contains(".end method\n\nmiddle \u{e9}\n\n.method public check"));
}

#[test]
fn other_methods_are_left_alone() {
    let smali = ".method private check(Ljava/lang/String;Ljava/util/List;)V\n    nop\n.end method\n";
    let (patched, changed) = patch_smali_method(smali, &okhttp2_methods()[0]).unwrap();
    assert!(!changed);
    assert_eq!(patched, smali);
    let empty = ".method public check(Ljava/lang/String;Ljava/util/List;)V\n.end method\n";
    let (patched, changed) = patch_smali_method(empty, &okhttp2_methods()[0]).unwrap();
    assert!(!changed);
    assert_eq!(patched, empty);
}

#[test]
fn every_pattern_of_the_table_finds_its_method() {
    let mut all: Vec<SmaliMethodPatch> = Vec::new();
    all.extend(x509_methods());
    all.extend(hostname_methods());
    all.extend(okhttp2_methods());
    all.extend(okhttp3_methods());
    assert_eq!(all.len(), 7);
    for method in &all {
        let smali = format!(".method public {}\n    nop\n.end method", method.signature);
        let (patched, changed) = patch_smali_method(&smali, method).unwrap();
        assert!(changed, "{}", method.name);
        for line in &method.replacement_lines {
            assert!(patched.contains(&format!("\n    {line}\n")), "{}", method.name);
        }
    }
}

#[test]
fn meta_characters_of_a_signature_stand_for_themselves() {
    let method = SmaliMethodPatch {
        name: "x",
        signature: "a.b$c(",
        replacement_lines: return_void(),
    };
    let (_, changed) = patch_smali_method(".method public a.b$c(\nx\n.end method", &method).unwrap();
    assert!(changed);
    let (_, changed) = patch_smali_method(".method public aXb$c(\nx\n.end method", &method).unwrap();
    assert!(!changed);
}

#[test]
fn old_bodies_become_comments() {
    let lines = patched_body(&return_void(), "    a\n\n  b  ");
    assert_eq!(
        lines,
        vec![
            "    # inserted by apk-mitm to disable certificate pinning",
            "    .locals 0",
            "    return-void",
            "",
            "    # commented out by apk-mitm to disable old method body",
            "    #",
            "    # a",
            "    #",
            "    #   b",
        ]
    );
}

#[test]
fn parses_smali_head() {
    let head = parse_smali_head(".class public Lx/Y;\n.super Ljava/lang/Object;\n.implements Ljavax/net/ssl/HostnameVerifier;\n").unwrap();
    assert_eq!(head.name, "x/Y");
    assert_eq!(head.implements, vec!["javax/net/ssl/HostnameVerifier"]);
    assert!(!head.is_interface);
}

#[test]
fn parses_interface_head_with_crlf_and_stops_at_first_method() {
    let content = ".class public abstract interface Lx/Y;\r\n.implements Lfoo/First;\r\n.implements Lfoo/Second;\r\n.method public test()V\r\n.implements Lfoo/NotAHeaderDirective;\r\n";
    let head = parse_smali_head(content).unwrap();
    assert_eq!(head.name, "x/Y");
    assert_eq!(head.implements, vec!["foo/First", "foo/Second"]);
    assert!(head.is_interface);
}

#[test]
fn head_errors() {
    assert!(matches!(parse_smali_head(""), Err(SmaliError::NoClassLine)));
    assert!(matches!(parse_smali_head(".super Lx;\n.method\n.class Lx;"), Err(SmaliError::NoClassLine)));
    assert!(matches!(parse_smali_head(".class public\n"), Err(SmaliError::NoClassLine)));
    assert!(matches!(
        parse_smali_head_reader(b".class Lx;\n\xff\n"),
        Err(SmaliError::NotUtf8)
    ));
    assert_eq!(SmaliError::NoClassLine.message(), "Smali file has no .class line");
    assert_eq!(SmaliError::NotUtf8.message(), "stream did not contain valid UTF-8");
    assert_eq!(SmaliError::Pattern("why".to_string()).message(), "why");
}

#[test]
fn head_details() {
    let head = parse_smali_head("\u{a0}.class\tinterface\u{3000}La; interface Lb;\n.implements\n.implements x Lc; Ld;\n.class Le;").unwrap();
    assert_eq!(head.name, "e");
    assert!(head.is_interface);
    assert_eq!(head.implements, vec!["c"]);
    let head = parse_smali_head(".class La; interface\n").unwrap();
    assert!(!head.is_interface);
}

#[test]
fn head_does_not_depend_on_line_ends() {
    let unix = parse_smali_head(".class La;\n.implements Lb;\n").unwrap();
    let windows = parse_smali_head("  .class La;\r\n\t.implements Lb;  \r\n").unwrap();
    assert_eq!(unix.name, windows.name);
    assert_eq!(unix.implements, windows.implements);
}

#[test]
fn type_names() {
    assert_eq!(smali_type_name("Lx/Y;"), Some("x/Y"));
    assert_eq!(smali_type_name("L;"), Some(""));
    assert_eq!(smali_type_name("L"), None);
    assert_eq!(smali_type_name(";"), None);
    assert_eq!(smali_type_name(""), None);
    assert_eq!(smali_type_name("Lx"), None);
    assert_eq!(smali_type_name("x;"), None);
    assert_eq!(smali_type_name("L\u{e9};"), Some("\u{e9}"));
}

#[test]
fn selectors() {
    let patches = smali_patches();
    assert_eq!(patches.len(), 4);
    let head = SmaliHead {
        name: "okhttp3/CertificatePinner".to_string(),
        implements: vec!["a".to_string(), "javax/net/ssl/HostnameVerifier".to_string()],
        is_interface: false,
    };
    let selected: Vec<bool> = patches.iter().map(|p| selector_matches(p, &head)).collect();
    assert_eq!(selected, vec![false, true, false, true]);
}

#[test]
fn discovers_only_top_level_smali_roots() {
    let entries = vec![
        entry("smali_classes2", true),
        entry("res", true),
        entry("assets", true),
        entry("smali", true),
        entry("smali_file", false),
        DirectoryEntry { name: None, is_dir: true },
    ];
    assert_eq!(smali_roots(&entries), vec!["smali", "smali_classes2"]);
}

#[test]
fn smali_roots_are_sorted() {
    let entries = vec![
        entry("smali_classes3", true),
        entry("smali_classes10", true),
        entry("smali", true),
        entry("smali_classes2", true),
    ];
    assert_eq!(
        smali_roots(&entries),
        vec!["smali", "smali_classes10", "smali_classes2", "smali_classes3"]
    );
    assert!(smali_roots(&vec![]).is_empty());
}

#[test]
fn smali_files_are_told_by_their_extension() {
    assert!(is_smali_file(true, Some("smali")));
    assert!(!is_smali_file(false, Some("smali")));
    assert!(!is_smali_file(true, Some("SMALI")));
    assert!(!is_smali_file(true, None));
}

#[test]
fn non_candidate_smali_does_not_require_valid_method_body_utf8() {
    let mut content = b".class public Lx/Unrelated;\n.method public test()V\n".to_vec();
    content.push(0xff);
    assert!(matches!(process_smali_file(&content, false), Ok(SmaliOutcome::Untouched)));
}

#[test]
fn candidate_smali_requires_valid_utf8() {
    let mut content = b".class public Lokhttp3/CertificatePinner;\n.method public test()V\n".to_vec();
    content.push(0xff);
    assert!(matches!(process_smali_file(&content, false), Err(SmaliError::NotUtf8)));
}

#[test]
fn candidate_smali_file_is_fully_patched() {
    let content = ".class public final Lokhttp3/CertificatePinner;\n.method public check(Ljava/lang/String;Ljava/util/List;)V\n    .locals 0\n    return-void\n.end method\n";
    match process_smali_file(content.as_bytes(), false).unwrap() {
        SmaliOutcome::Patched { content, reports } => {
            assert!(content.contains("# inserted by apk-mitm"));
            assert_eq!(
                reports,
                vec!["    okhttp3/CertificatePinner: Applied CertificatePinner#check (OkHttp 3.x) patch"]
            );
        }
        SmaliOutcome::Untouched => panic!("not patched"),
    }
}

#[test]
fn interfaces_are_left_alone() {
    let content = ".class public interface abstract Lokhttp3/CertificatePinner;\n.method public check(Ljava/lang/String;Ljava/util/List;)V\n    nop\n.end method\n";
    assert!(matches!(
        process_smali_file(content.as_bytes(), false),
        Ok(SmaliOutcome::Untouched)
    ));
}

#[test]
fn candidates_without_a_method_are_left_alone() {
    let content = ".class public Lokhttp3/CertificatePinner;\n.method public other()V\n    nop\n.end method\n";
    assert!(matches!(
        process_smali_file(content.as_bytes(), false),
        Ok(SmaliOutcome::Untouched)
    ));
}

#[test]
fn windows_line_ends_are_kept() {
    let content = ".class Lx;\r\n.implements Ljavax/net/ssl/HostnameVerifier;\r\n.method public verify(Ljava/lang/String;Ljavax/net/ssl/SSLSession;)Z\r\n    nop\r\n.end method\r\n";
    match process_smali_file(content.as_bytes(), true).unwrap() {
        SmaliOutcome::Patched { content, .. } => {
            assert!(content.contains("    const/4 v0, 0x1\r\n    return v0\r\n\r\n"));
            assert_eq!(content.matches('\n').count(), content.matches("\r\n").count());
            assert!(content.starts_with(".class Lx;\r\n.implements"));
        }
        SmaliOutcome::Untouched => panic!("not patched"),
    }
    assert!(matches!(
        process_smali_file(content.as_bytes(), false),
        Ok(SmaliOutcome::Untouched)
    ));
}

#[test]
fn several_patches_apply_to_one_file() {
    let content = ".class Lx;\n.implements Ljavax/net/ssl/X509TrustManager;\n.implements Ljavax/net/ssl/HostnameVerifier;\n.method public verify(Ljava/lang/String;Ljavax/net/ssl/SSLSession;)Z\n    nop\n.end method\n.method public final getAcceptedIssuers()[Ljava/security/cert/X509Certificate;\n    nop\n.end method\n";
    match process_smali_file(content.as_bytes(), false).unwrap() {
        SmaliOutcome::Patched { content, reports } => {
            assert_eq!(
                reports,
                vec![
                    "    x: Applied X509TrustManager#getAcceptedIssuers (javax) patch",
                    "    x: Applied HostnameVerifier#verify (javax) patch",
                ]
            );
            assert!(content.contains("    new-array v0, v0, [Ljava/security/cert/X509Certificate;\n    return-object v0\n"));
            assert!(content.contains("    const/4 v0, 0x1\n    return v0\n"));
        }
        SmaliOutcome::Untouched => panic!("not patched"),
    }
}

#[test]
fn all_methods_of_a_trust_manager_are_patched() {
    let smali = ".class public Lx/Trust;\n.implements Ljavax/net/ssl/X509TrustManager;\n\n.method public constructor <init>()V\n    return-void\n.end method\n\n.method public checkClientTrusted([Ljava/security/cert/X509Certificate;Ljava/lang/String;)V\n    nop\n.end method\n\n.method public checkServerTrusted([Ljava/security/cert/X509Certificate;Ljava/lang/String;)V\n    nop\n.end method\n\n.method public final getAcceptedIssuers()[Ljava/security/cert/X509Certificate;\n    const/4 v0, 0x0\n    return-object v0\n.end method\n";
    let expected = ".class public Lx/Trust;\n.implements Ljavax/net/ssl/X509TrustManager;\n\n.method public constructor <init>()V\n    return-void\n.end method\n\n.method public checkClientTrusted([Ljava/security/cert/X509Certificate;Ljava/lang/String;)V\n    # inserted by apk-mitm to disable certificate pinning\n    .locals 0\n    return-void\n\n    # commented out by apk-mitm to disable old method body\n    #\n    # nop\n.end method\n\n.method public checkServerTrusted([Ljava/security/cert/X509Certificate;Ljava/lang/String;)V\n    # inserted by apk-mitm to disable certificate pinning\n    .locals 0\n    return-void\n\n    # commented out by apk-mitm to disable old method body\n    #\n    # nop\n.end method\n\n.method public final getAcceptedIssuers()[Ljava/security/cert/X509Certificate;\n    # inserted by apk-mitm to disable certificate pinning\n    .locals 1\n    const/4 v0, 0x0\n    new-array v0, v0, [Ljava/security/cert/X509Certificate;\n    return-object v0\n\n    # commented out by apk-mitm to disable old method body\n    #\n    # const/4 v0, 0x0\n    # return-object v0\n.end method\n";
    match process_smali_file(smali.as_bytes(), false).unwrap() {
        SmaliOutcome::Patched { content, reports } => {
            assert_eq!(content, expected);
            assert_eq!(reports.len(), 3);
            assert_eq!(
                reports[2],
                "    x/Trust: Applied X509TrustManager#getAcceptedIssuers (javax) patch"
            );
        }
        SmaliOutcome::Untouched => panic!(),
    }
    let windows = smali.replace('\n', "\r\n");
    match process_smali_file(windows.as_bytes(), true).unwrap() {
        SmaliOutcome::Patched { content, .. } => {
            assert_eq!(content, expected.replace('\n', "\r\n"));
        }
        SmaliOutcome::Untouched => panic!(),
    }
    match process_smali_file(windows.as_bytes(), false).unwrap() {
        SmaliOutcome::Patched { .. } => panic!(),
        SmaliOutcome::Untouched => {}
    }
}

#[test]
fn the_front_of_a_file_can_be_enough() {
    assert!(stays_untouched(b".class Lx/Y;\n.method public a()V\n\xff"));
    assert!(!stays_untouched(b".class Lx/Y;\n.method public a()V"));
    assert!(!stays_untouched(b".class Lx/Y;\n"));
    assert!(!stays_untouched(b"\xff\n.class Lx/Y;\n.method\n"));
    assert!(!stays_untouched(b".class Lokhttp3/CertificatePinner;\n.method\n"));
    assert!(stays_untouched(b".class interface Lokhttp3/CertificatePinner;\n.method\n"));
}

#[test]
fn white_space_at_line_ends_does_not_matter() {
    let plain = ".class interface Lx/Y;\n.implements La/B;\n\n.implements Lc/D;";
    let crlf = plain.replace('\n', "\r\n");
    let spaced = " \t.class interface Lx/Y;  \n.implements La/B;\t\n   \n\t.implements Lc/D; ";
    for content in [plain, crlf.as_str(), spaced] {
        let head = parse_smali_head(content).unwrap();
        assert_eq!(head.name, "x/Y");
        assert_eq!(head.implements, vec!["a/B", "c/D"]);
        assert!(head.is_interface);
    }
}

#[test]
fn one_patched_file_is_enough() {
    assert!(!disable_certificate_pinning(&vec![]));
    assert!(!disable_certificate_pinning(&vec![false, false]));
    assert!(disable_certificate_pinning(&vec![false, true, false]));
}

#[test]
fn long_signatures_are_found() {
    let signature: &'static str = "\u{1f600}".repeat(10_000).leak();
    let method = SmaliMethodPatch {
        name: "m",
        signature,
        replacement_lines: vec![".locals 0", "return-void"],
    };
    let smali = format!(".method public {signature}\n    nop\n.end method\n");
    let (patched, changed) = patch_smali_method(&smali, &method).unwrap();
    assert!(changed);
    assert!(patched.contains("    .locals 0\n    return-void"));
}
