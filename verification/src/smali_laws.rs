//! What becomes of the classes that check certificates: their checks accept everything, and the old bodies
//! are kept as comments.
use crate::pattern::all_white;
use crate::pattern::Found;
use crate::pattern::replaced;
use crate::smali_file::candidate;
use crate::smali_file::DirectoryEntry;
use crate::smali_file::FileOutcome;
use crate::smali_file::is_patched;
use crate::smali_file::is_root;
use crate::smali_file::methods_for;
use crate::smali_file::methods_of;
use crate::smali_file::outcome_of;
use crate::smali_file::patched_all;
use crate::smali_file::precedes;
use crate::smali_file::reports_on;
use crate::smali_file::root_names;
use crate::smali_file::selected;
use crate::smali_file::SmaliOutcome;
use crate::smali_file::sorted;
use crate::smali_head::Head;
use crate::smali_head::head_of;
use crate::smali_head::SmaliError;
use crate::smali_lines::law_head_ignores_carriage_returns;
use crate::smali_patch::body_line;
use crate::smali_patch::ClassPatch;
use crate::smali_patch::commented;
use crate::smali_patch::MethodPatch;
use crate::smali_patch::new_lines;
use crate::smali_patch::new_method;
use crate::smali_patch::old_lines;
use crate::smali_patch::outdented;
use crate::smali_patch::patch_views;
use crate::smali_patch::patched;
use crate::smali_patch::patches_model;
use crate::smali_patch::selects;
use crate::smali_patch::SmaliMethodPatch;
use crate::smali_patch::SmaliPatch;
use crate::smali_patch::targets;
use crate::smali_tidy::all_new_pieces;
use crate::smali_tidy::is_opening;
use crate::smali_tidy::new_piece;
use crate::smali_tidy::Piece;
use crate::smali_tidy::piece_text;
use crate::smali_tidy::whole_text;
use crate::text::crlf_to_lf;
use crate::text::has_prefix;
use crate::text::join;
use crate::text::lemma_split_on_len;
use crate::text::lf_to_crlf;
use crate::text::split_on;
use crate::text::texts;
use crate::text::trim_end;
use crate::text::white;
use crate::text_laws::law_end_is_trimmed;
use crate::text_laws::law_line_feeds_return;
use crate::text_laws::law_pieces_are_joined;
use vstd::prelude::*;
use vstd::utf8::decode_utf8;
use vstd::utf8::encode_utf8;
use vstd::utf8::valid_utf8;

verus! {

// ---------------------------------------------------------------------------------------------
// The methods of a class
// ---------------------------------------------------------------------------------------------

/// The Smali lines that are written into each method: the checks of trust managers and pinners return
/// without a check, a host name is accepted because the first and only thing returned is true, and no
/// issuers are named.
pub proof fn law_bodies_accept_everything(i: int, k: int)
    requires
        0 <= i < patches_model().len(),
        0 <= k < patches_model()[i].methods.len(),
    ensures
        ({
            let signature = patches_model()[i].methods[k].signature;
            let lines = patches_model()[i].methods[k].lines;
            ||| signature == "verify(Ljava/lang/String;Ljavax/net/ssl/SSLSession;)Z"@ && lines == seq![
                ".locals 1"@,
                "const/4 v0, 0x1"@,
                "return v0"@,
            ]
            ||| signature == "getAcceptedIssuers()[Ljava/security/cert/X509Certificate;"@ && lines
                == seq![
                ".locals 1"@,
                "const/4 v0, 0x0"@,
                "new-array v0, v0, [Ljava/security/cert/X509Certificate;"@,
                "return-object v0"@,
            ]
            ||| signature
                == "checkClientTrusted([Ljava/security/cert/X509Certificate;Ljava/lang/String;)V"@
                && lines == seq![".locals 0"@, "return-void"@]
            ||| signature
                == "checkServerTrusted([Ljava/security/cert/X509Certificate;Ljava/lang/String;)V"@
                && lines == seq![".locals 0"@, "return-void"@]
            ||| signature == "check(Ljava/lang/String;Ljava/util/List;)V"@ && lines == seq![
                ".locals 0"@,
                "return-void"@,
            ]
            ||| signature == "check$okhttp(Ljava/lang/String;Lkotlin/jvm/functions/Function0;)V"@
                && lines == seq![".locals 0"@, "return-void"@]
        }),
{
}

proof fn lemma_one_more_patch(patches: Seq<ClassPatch>, patch: ClassPatch, head: Head)
    ensures
        methods_of(selected(patches.push(patch), head)) == methods_of(selected(patches, head)) + (
        if selects(patch, head) {
            patch.methods
        } else {
            Seq::empty()
        }),
{
    let all = patches.push(patch);
    let before = selected(patches, head);
    assert(all.drop_last() == patches);
    if selects(patch, head) {
        assert(before.push(patch).drop_last() == before);
    } else {
        assert(methods_of(before) + Seq::<MethodPatch>::empty() == methods_of(before));
    }
}

/// The methods that are replaced in a class, in order: those of a trust manager and of a hostname verifier
/// if it implements the interface, those of a certificate pinner if it is the one of OkHttp.
pub proof fn law_methods_of_a_class(head: Head)
    ensures
        methods_for(head) == (if head.implements.contains("javax/net/ssl/X509TrustManager"@) {
            seq![
                MethodPatch {
                    name: "X509TrustManager#checkClientTrusted (javax)"@,
                    signature:
                        "checkClientTrusted([Ljava/security/cert/X509Certificate;Ljava/lang/String;)V"@,
                    lines: seq![".locals 0"@, "return-void"@],
                },
                MethodPatch {
                    name: "X509TrustManager#checkServerTrusted (javax)"@,
                    signature:
                        "checkServerTrusted([Ljava/security/cert/X509Certificate;Ljava/lang/String;)V"@,
                    lines: seq![".locals 0"@, "return-void"@],
                },
                MethodPatch {
                    name: "X509TrustManager#getAcceptedIssuers (javax)"@,
                    signature: "getAcceptedIssuers()[Ljava/security/cert/X509Certificate;"@,
                    lines: seq![
                        ".locals 1"@,
                        "const/4 v0, 0x0"@,
                        "new-array v0, v0, [Ljava/security/cert/X509Certificate;"@,
                        "return-object v0"@,
                    ],
                },
            ]
        } else {
            Seq::empty()
        }) + (if head.implements.contains("javax/net/ssl/HostnameVerifier"@) {
            seq![
                MethodPatch {
                    name: "HostnameVerifier#verify (javax)"@,
                    signature: "verify(Ljava/lang/String;Ljavax/net/ssl/SSLSession;)Z"@,
                    lines: seq![".locals 1"@, "const/4 v0, 0x1"@, "return v0"@],
                },
            ]
        } else {
            Seq::empty()
        }) + (if head.name == "com/squareup/okhttp/CertificatePinner"@ {
            seq![
                MethodPatch {
                    name: "CertificatePinner#check (OkHttp 2.5)"@,
                    signature: "check(Ljava/lang/String;Ljava/util/List;)V"@,
                    lines: seq![".locals 0"@, "return-void"@],
                },
            ]
        } else {
            Seq::empty()
        }) + (if head.name == "okhttp3/CertificatePinner"@ {
            seq![
                MethodPatch {
                    name: "CertificatePinner#check (OkHttp 3.x)"@,
                    signature: "check(Ljava/lang/String;Ljava/util/List;)V"@,
                    lines: seq![".locals 0"@, "return-void"@],
                },
                MethodPatch {
                    name: "CertificatePinner#check (OkHttp 4.2)"@,
                    signature:
                        "check$okhttp(Ljava/lang/String;Lkotlin/jvm/functions/Function0;)V"@,
                    lines: seq![".locals 0"@, "return-void"@],
                },
            ]
        } else {
            Seq::empty()
        }),
{
    let p = patches_model();
    let none = Seq::<ClassPatch>::empty();
    let one = none.push(p[0]);
    let two = one.push(p[1]);
    let three = two.push(p[2]);
    assert(p == three.push(p[3]));
    lemma_one_more_patch(none, p[0], head);
    lemma_one_more_patch(one, p[1], head);
    lemma_one_more_patch(two, p[2], head);
    lemma_one_more_patch(three, p[3], head);
    assert(selected(none, head) == none);
    assert(methods_of(none) == Seq::<MethodPatch>::empty());
    assert(Seq::<MethodPatch>::empty() + (if selects(p[0], head) {
        p[0].methods
    } else {
        Seq::empty()
    }) == if selects(p[0], head) {
        p[0].methods
    } else {
        Seq::empty()
    });
}

/// A class is looked at if and only if it is no interface and is a trust manager, a hostname verifier or
/// the certificate pinner of OkHttp.
pub proof fn law_candidates(head: Head)
    ensures
        candidate(head) <==> !head.is_interface && {
            ||| head.implements.contains("javax/net/ssl/X509TrustManager"@)
            ||| head.implements.contains("javax/net/ssl/HostnameVerifier"@)
            ||| head.name == "com/squareup/okhttp/CertificatePinner"@
            ||| head.name == "okhttp3/CertificatePinner"@
        },
{
    let p = patches_model();
    let none = Seq::<ClassPatch>::empty();
    let one = none.push(p[0]);
    let two = one.push(p[1]);
    let three = two.push(p[2]);
    assert(p == three.push(p[3]));
    assert(p.drop_last() == three);
    assert(three.drop_last() == two);
    assert(two.drop_last() == one);
    assert(one.drop_last() == none);
    assert(selected(none, head) == none);
    assert(selected(one, head).len() > 0 <==> selects(p[0], head));
    assert(selected(two, head).len() > 0 <==> selects(p[0], head) || selects(p[1], head));
    assert(selected(three, head).len() > 0 <==> selects(p[0], head) || selects(p[1], head)
        || selects(p[2], head));
}

// ---------------------------------------------------------------------------------------------
// The text of a method
// ---------------------------------------------------------------------------------------------

/// A line that ends in something else than white space is indented and otherwise kept.
proof fn lemma_indented(line: Seq<char>)
    requires
        line.len() > 0,
        !white(line.last()),
    ensures
        body_line(line) == "    "@ + line,
{
    let nothing = Seq::<char>::empty();
    law_end_is_trimmed("    "@ + line, nothing);
    assert("    "@ + line + nothing == "    "@ + line);
}

/// The lines before the old body: a note, the given lines, an empty line, another note and an empty
/// comment. The given lines are indented and lose the white space at their ends.
#[verifier::spinoff_prover]
#[verifier::rlimit(40)]
pub proof fn law_new_lines(lines: Seq<Seq<char>>)
    ensures
        new_lines(lines) == seq!["    # inserted by apk-mitm to disable certificate pinning"@]
            + Seq::new(lines.len(), |i: int| trim_end("    "@ + lines[i])) + seq![
            Seq::empty(),
            "    # commented out by apk-mitm to disable old method body"@,
            "    #"@,
        ],
{
    let nothing = Seq::<char>::empty();
    reveal_strlit("    ");
    reveal_strlit("");
    assert(body_line("# inserted by apk-mitm to disable certificate pinning"@)
        == "    # inserted by apk-mitm to disable certificate pinning"@) by {
        reveal_strlit("# inserted by apk-mitm to disable certificate pinning");
        reveal_strlit("    # inserted by apk-mitm to disable certificate pinning");
        lemma_indented("# inserted by apk-mitm to disable certificate pinning"@);
        assert("    "@ + "# inserted by apk-mitm to disable certificate pinning"@
            == "    # inserted by apk-mitm to disable certificate pinning"@);
    }
    assert(body_line("# commented out by apk-mitm to disable old method body"@)
        == "    # commented out by apk-mitm to disable old method body"@) by {
        reveal_strlit("# commented out by apk-mitm to disable old method body");
        reveal_strlit("    # commented out by apk-mitm to disable old method body");
        lemma_indented("# commented out by apk-mitm to disable old method body"@);
        assert("    "@ + "# commented out by apk-mitm to disable old method body"@
            == "    # commented out by apk-mitm to disable old method body"@);
    }
    assert(body_line(""@) == nothing) by {
        assert(all_white("    "@));
        law_end_is_trimmed(nothing, "    "@);
        assert("    "@ + ""@ == nothing + "    "@);
    }
    assert(body_line("# "@) == "    #"@) by {
        reveal_strlit("# ");
        reveal_strlit("    #");
        let space = seq![' '];
        assert(all_white(space));
        law_end_is_trimmed("    #"@, space);
        assert("    "@ + "# "@ == "    #"@ + space);
    }
    let middle = Seq::new(lines.len(), |i: int| body_line(lines[i]));
    assert(middle == Seq::new(lines.len(), |i: int| trim_end("    "@ + lines[i])));
}

/// A line of the old body is kept as a comment: all of it but one step of indentation and the white space
/// at its end.
pub proof fn law_old_line_is_kept(line: Seq<char>, space: Seq<char>)
    requires
        all_white(space),
        line.len() > 0 ==> !white(line.last()),
    ensures
        line.len() > 0 ==> commented("    "@ + line + space) == "    # "@ + line,
        line.len() > 0 && !has_prefix(line + space, "    "@) ==> commented(line + space) == "    # "@
            + line,
        line.len() == 0 ==> commented(space) == "    #"@,
{
    reveal_strlit("    ");
    reveal_strlit("# ");
    reveal_strlit("    # ");
    reveal_strlit("    #");
    if line.len() > 0 {
        let kept = "    # "@ + line;
        law_end_is_trimmed(kept, space);
        let long = "    "@ + line + space;
        assert(long.subrange(0, 4) == "    "@);
        assert(outdented(long) == line + space);
        assert("    "@ + ("# "@ + (line + space)) == kept + space);
    } else {
        let rest = outdented(space);
        let more = seq![' '] + rest;
        assert forall|i: int| 0 <= i < more.len() implies white(#[trigger] more[i]) by {
            if i > 0 {
                assert(rest[i - 1] == more[i]);
                if has_prefix(space, "    "@) {
                    assert(rest[i - 1] == space[i - 1 + 4]);
                    assert(white(space[i - 1 + 4]));
                } else {
                    assert(white(space[i - 1]));
                }
            }
        }
        law_end_is_trimmed("    #"@, more);
        assert("    "@ + ("# "@ + rest) == "    #"@ + more);
    }
}

/// The old body becomes as many comments as it has lines, in order.
proof fn lemma_old_lines_len(body: Seq<char>)
    ensures
        old_lines(body).len() == split_on(body, '\n').len(),
        old_lines(body).len() > 0,
{
    lemma_split_on_len(body, '\n');
}

/// The text of a method that was patched: its opening, a note, the given lines, a second note, its old
/// body as comments, and its closing.
#[verifier::spinoff_prover]
#[verifier::rlimit(40)]
pub proof fn law_method_text(m: Found, lines: Seq<Seq<char>>)
    requires
        lines.len() > 0,
        forall|i: int|
            0 <= i < lines.len() ==> (#[trigger] lines[i]).len() > 0 && !white(lines[i].last()),
    ensures
        new_method(m, lines) == m.groups[1]->0
            + "\n    # inserted by apk-mitm to disable certificate pinning\n"@ + join(
            Seq::new(lines.len(), |i: int| "    "@ + lines[i]),
            '\n',
        ) + "\n\n    # commented out by apk-mitm to disable old method body\n    #\n"@
            + join(old_lines(m.groups[2]->0), '\n') + seq!['\n'] + m.groups[3]->0,
{
    let note = "    # inserted by apk-mitm to disable certificate pinning"@;
    let second = "    # commented out by apk-mitm to disable old method body"@;
    let nothing = Seq::<char>::empty();
    let middle = Seq::new(lines.len(), |i: int| "    "@ + lines[i]);
    let tail = seq![nothing, second, "    #"@];
    let old = old_lines(m.groups[2]->0);
    let n = seq!['\n'];
    lemma_old_lines_len(m.groups[2]->0);
    law_new_lines(lines);
    assert(Seq::new(lines.len(), |i: int| trim_end("    "@ + lines[i])) == middle) by {
        assert forall|i: int| 0 <= i < lines.len() implies trim_end("    "@ + #[trigger] lines[i])
            == "    "@ + lines[i] by {
            lemma_indented(lines[i]);
        }
    }
    law_pieces_are_joined(seq![note] + middle + tail, old, '\n');
    law_pieces_are_joined(seq![note] + middle, tail, '\n');
    law_pieces_are_joined(seq![note], middle, '\n');
    law_pieces_are_joined(seq![nothing], seq![second, "    #"@], '\n');
    law_pieces_are_joined(seq![second], seq!["    #"@], '\n');
    assert(seq![nothing] + seq![second, "    #"@] == tail);
    assert(seq![second] + seq!["    #"@] == seq![second, "    #"@]);
    assert(join(seq!["    #"@], '\n') == "    #"@);
    let body = join(middle, '\n');
    let before = "\n    # inserted by apk-mitm to disable certificate pinning\n"@;
    let after = "\n\n    # commented out by apk-mitm to disable old method body\n    #\n"@;
    assert(n + note + n == before) by {
        reveal_strlit("    # inserted by apk-mitm to disable certificate pinning");
        reveal_strlit("\n    # inserted by apk-mitm to disable certificate pinning\n");
    }
    assert(n + (nothing + n + (second + n + "    #"@)) + n == after) by {
        reveal_strlit("    # commented out by apk-mitm to disable old method body");
        reveal_strlit("    #");
        reveal_strlit("\n\n    # commented out by apk-mitm to disable old method body\n    #\n");
    }
    let front = join(seq![note] + middle + tail, '\n');
    assert(n + front + n == before + body + after) by {
        assert(front == note + n + body + n + (nothing + n + (second + n + "    #"@)));
        assert(n + front + n == (n + note + n) + body + (n + (nothing + n + (second + n + "    #"@))
            + n));
    }
    let opening = m.groups[1]->0;
    let closing = m.groups[3]->0;
    let comments = join(old, '\n');
    assert(new_method(m, lines) == opening + n + (front + n + comments) + n + closing);
    assert(opening + n + (front + n + comments) + n + closing == opening + (n + front + n) + comments
        + n + closing);
    assert(opening + (before + body + after) + comments + n + closing == opening + before + body
        + after + comments + n + closing);
}

proof fn lemma_true_lines()
    ensures
        join(seq!["    "@ + ".locals 1"@, "    "@ + "const/4 v0, 0x1"@, "    "@ + "return v0"@], '\n') == "    .locals 1\n    const/4 v0, 0x1\n    return v0"@,
{
    let l0 = "    "@ + ".locals 1"@;
    let l1 = "    "@ + "const/4 v0, 0x1"@;
    let l2 = "    "@ + "return v0"@;
    let n = seq!['\n'];
    law_pieces_are_joined(seq![l0], seq![l1, l2], '\n');
    assert(seq![l0] + seq![l1, l2] == seq![l0, l1, l2]);
    law_pieces_are_joined(seq![l1], seq![l2], '\n');
    assert(seq![l1] + seq![l2] == seq![l1, l2]);
    assert(join(seq![l2], '\n') == l2);
    assert(l0 + n + (l1 + n + l2) == "    .locals 1\n    const/4 v0, 0x1\n    return v0"@) by {
        reveal_strlit("    ");
        reveal_strlit(".locals 1");
        reveal_strlit("const/4 v0, 0x1");
        reveal_strlit("return v0");
        reveal_strlit("    .locals 1\n    const/4 v0, 0x1\n    return v0");
    }
}

proof fn lemma_true_text()
    ensures
        "\n    # inserted by apk-mitm to disable certificate pinning\n"@ + "    .locals 1\n    const/4 v0, 0x1\n    return v0"@
            + "\n\n    # commented out by apk-mitm to disable old method body\n    #\n"@
            == "\n    # inserted by apk-mitm to disable certificate pinning\n    .locals 1\n    const/4 v0, 0x1\n    return v0\n\n    # commented out by apk-mitm to disable old method body\n    #\n"@,
{
    reveal_strlit("\n    # inserted by apk-mitm to disable certificate pinning\n");
    reveal_strlit("    .locals 1\n    const/4 v0, 0x1\n    return v0");
    reveal_strlit("\n\n    # commented out by apk-mitm to disable old method body\n    #\n");
    reveal_strlit(
        "\n    # inserted by apk-mitm to disable certificate pinning\n    .locals 1\n    const/4 v0, 0x1\n    return v0\n\n    # commented out by apk-mitm to disable old method body\n    #\n",
    );
}

/// A hostname verifier that was patched accepts every host name: this is its text.
pub proof fn law_verifier_returns_true(m: Found)
    ensures
        new_method(m, seq![".locals 1"@, "const/4 v0, 0x1"@, "return v0"@]) == m.groups[1]->0
            + "\n    # inserted by apk-mitm to disable certificate pinning\n    .locals 1\n    const/4 v0, 0x1\n    return v0\n\n    # commented out by apk-mitm to disable old method body\n    #\n"@
            + join(old_lines(m.groups[2]->0), '\n') + seq!['\n'] + m.groups[3]->0,
{
    let lines = seq![".locals 1"@, "const/4 v0, 0x1"@, "return v0"@];
    assert forall|i: int| 0 <= i < lines.len() implies (#[trigger] lines[i]).len() > 0 && !white(
        lines[i].last(),
    ) by {
        reveal_strlit(".locals 1");
        reveal_strlit("const/4 v0, 0x1");
        reveal_strlit("return v0");
    }
    law_method_text(m, lines);
    let middle = seq!["    "@ + ".locals 1"@, "    "@ + "const/4 v0, 0x1"@, "    "@ + "return v0"@];
    assert(Seq::new(lines.len(), |i: int| "    "@ + lines[i]) == middle);
    lemma_true_lines();
    lemma_true_text();
    let opening = m.groups[1]->0;
    let before = "\n    # inserted by apk-mitm to disable certificate pinning\n"@;
    let body = "    .locals 1\n    const/4 v0, 0x1\n    return v0"@;
    let after = "\n\n    # commented out by apk-mitm to disable old method body\n    #\n"@;
    assert(opening + before + body + after == opening + (before + body + after));
}

proof fn lemma_void_lines()
    ensures
        join(seq!["    "@ + ".locals 0"@, "    "@ + "return-void"@], '\n') == "    .locals 0\n    return-void"@,
{
    let l0 = "    "@ + ".locals 0"@;
    let l1 = "    "@ + "return-void"@;
    let n = seq!['\n'];
    law_pieces_are_joined(seq![l0], seq![l1], '\n');
    assert(seq![l0] + seq![l1] == seq![l0, l1]);
    assert(join(seq![l1], '\n') == l1);
    assert(l0 + n + l1 == "    .locals 0\n    return-void"@) by {
        reveal_strlit("    ");
        reveal_strlit(".locals 0");
        reveal_strlit("return-void");
        reveal_strlit("    .locals 0\n    return-void");
    }
}

proof fn lemma_void_text()
    ensures
        "\n    # inserted by apk-mitm to disable certificate pinning\n"@ + "    .locals 0\n    return-void"@
            + "\n\n    # commented out by apk-mitm to disable old method body\n    #\n"@
            == "\n    # inserted by apk-mitm to disable certificate pinning\n    .locals 0\n    return-void\n\n    # commented out by apk-mitm to disable old method body\n    #\n"@,
{
    reveal_strlit("\n    # inserted by apk-mitm to disable certificate pinning\n");
    reveal_strlit("    .locals 0\n    return-void");
    reveal_strlit("\n\n    # commented out by apk-mitm to disable old method body\n    #\n");
    reveal_strlit(
        "\n    # inserted by apk-mitm to disable certificate pinning\n    .locals 0\n    return-void\n\n    # commented out by apk-mitm to disable old method body\n    #\n",
    );
}

/// The checks of a trust manager and of a pinner that were patched return without a check: this is their
/// text.
pub proof fn law_checks_return(m: Found)
    ensures
        new_method(m, seq![".locals 0"@, "return-void"@]) == m.groups[1]->0
            + "\n    # inserted by apk-mitm to disable certificate pinning\n    .locals 0\n    return-void\n\n    # commented out by apk-mitm to disable old method body\n    #\n"@
            + join(old_lines(m.groups[2]->0), '\n') + seq!['\n'] + m.groups[3]->0,
{
    let lines = seq![".locals 0"@, "return-void"@];
    assert forall|i: int| 0 <= i < lines.len() implies (#[trigger] lines[i]).len() > 0 && !white(
        lines[i].last(),
    ) by {
        reveal_strlit(".locals 0");
        reveal_strlit("return-void");
    }
    law_method_text(m, lines);
    let middle = seq!["    "@ + ".locals 0"@, "    "@ + "return-void"@];
    assert(Seq::new(lines.len(), |i: int| "    "@ + lines[i]) == middle);
    lemma_void_lines();
    lemma_void_text();
    let opening = m.groups[1]->0;
    let before = "\n    # inserted by apk-mitm to disable certificate pinning\n"@;
    let body = "    .locals 0\n    return-void"@;
    let after = "\n\n    # commented out by apk-mitm to disable old method body\n    #\n"@;
    assert(opening + before + body + after == opening + (before + body + after));
}

proof fn lemma_issuers_lines()
    ensures
        join(seq!["    "@ + ".locals 1"@, "    "@ + "const/4 v0, 0x0"@, "    "@ + "new-array v0, v0, [Ljava/security/cert/X509Certificate;"@, "    "@ + "return-object v0"@], '\n') == "    .locals 1\n    const/4 v0, 0x0\n    new-array v0, v0, [Ljava/security/cert/X509Certificate;\n    return-object v0"@,
{
    let l0 = "    "@ + ".locals 1"@;
    let l1 = "    "@ + "const/4 v0, 0x0"@;
    let l2 = "    "@ + "new-array v0, v0, [Ljava/security/cert/X509Certificate;"@;
    let l3 = "    "@ + "return-object v0"@;
    let n = seq!['\n'];
    law_pieces_are_joined(seq![l0], seq![l1, l2, l3], '\n');
    assert(seq![l0] + seq![l1, l2, l3] == seq![l0, l1, l2, l3]);
    law_pieces_are_joined(seq![l1], seq![l2, l3], '\n');
    assert(seq![l1] + seq![l2, l3] == seq![l1, l2, l3]);
    law_pieces_are_joined(seq![l2], seq![l3], '\n');
    assert(seq![l2] + seq![l3] == seq![l2, l3]);
    assert(join(seq![l3], '\n') == l3);
    assert(l0 + n + (l1 + n + (l2 + n + l3)) == "    .locals 1\n    const/4 v0, 0x0\n    new-array v0, v0, [Ljava/security/cert/X509Certificate;\n    return-object v0"@) by {
        reveal_strlit("    ");
        reveal_strlit(".locals 1");
        reveal_strlit("const/4 v0, 0x0");
        reveal_strlit("new-array v0, v0, [Ljava/security/cert/X509Certificate;");
        reveal_strlit("return-object v0");
        reveal_strlit("    .locals 1\n    const/4 v0, 0x0\n    new-array v0, v0, [Ljava/security/cert/X509Certificate;\n    return-object v0");
    }
}

proof fn lemma_issuers_text()
    ensures
        "\n    # inserted by apk-mitm to disable certificate pinning\n"@ + "    .locals 1\n    const/4 v0, 0x0\n    new-array v0, v0, [Ljava/security/cert/X509Certificate;\n    return-object v0"@
            + "\n\n    # commented out by apk-mitm to disable old method body\n    #\n"@
            == "\n    # inserted by apk-mitm to disable certificate pinning\n    .locals 1\n    const/4 v0, 0x0\n    new-array v0, v0, [Ljava/security/cert/X509Certificate;\n    return-object v0\n\n    # commented out by apk-mitm to disable old method body\n    #\n"@,
{
    reveal_strlit("\n    # inserted by apk-mitm to disable certificate pinning\n");
    reveal_strlit("    .locals 1\n    const/4 v0, 0x0\n    new-array v0, v0, [Ljava/security/cert/X509Certificate;\n    return-object v0");
    reveal_strlit("\n\n    # commented out by apk-mitm to disable old method body\n    #\n");
    reveal_strlit(
        "\n    # inserted by apk-mitm to disable certificate pinning\n    .locals 1\n    const/4 v0, 0x0\n    new-array v0, v0, [Ljava/security/cert/X509Certificate;\n    return-object v0\n\n    # commented out by apk-mitm to disable old method body\n    #\n",
    );
}

/// A trust manager that was patched names no issuers: this is its text.
pub proof fn law_no_issuers_are_named(m: Found)
    ensures
        new_method(m, seq![".locals 1"@, "const/4 v0, 0x0"@, "new-array v0, v0, [Ljava/security/cert/X509Certificate;"@, "return-object v0"@]) == m.groups[1]->0
            + "\n    # inserted by apk-mitm to disable certificate pinning\n    .locals 1\n    const/4 v0, 0x0\n    new-array v0, v0, [Ljava/security/cert/X509Certificate;\n    return-object v0\n\n    # commented out by apk-mitm to disable old method body\n    #\n"@
            + join(old_lines(m.groups[2]->0), '\n') + seq!['\n'] + m.groups[3]->0,
{
    let lines = seq![".locals 1"@, "const/4 v0, 0x0"@, "new-array v0, v0, [Ljava/security/cert/X509Certificate;"@, "return-object v0"@];
    assert forall|i: int| 0 <= i < lines.len() implies (#[trigger] lines[i]).len() > 0 && !white(
        lines[i].last(),
    ) by {
        reveal_strlit(".locals 1");
        reveal_strlit("const/4 v0, 0x0");
        reveal_strlit("new-array v0, v0, [Ljava/security/cert/X509Certificate;");
        reveal_strlit("return-object v0");
    }
    law_method_text(m, lines);
    let middle = seq!["    "@ + ".locals 1"@, "    "@ + "const/4 v0, 0x0"@, "    "@ + "new-array v0, v0, [Ljava/security/cert/X509Certificate;"@, "    "@ + "return-object v0"@];
    assert(Seq::new(lines.len(), |i: int| "    "@ + lines[i]) == middle);
    lemma_issuers_lines();
    lemma_issuers_text();
    let opening = m.groups[1]->0;
    let before = "\n    # inserted by apk-mitm to disable certificate pinning\n"@;
    let body = "    .locals 1\n    const/4 v0, 0x0\n    new-array v0, v0, [Ljava/security/cert/X509Certificate;\n    return-object v0"@;
    let after = "\n\n    # commented out by apk-mitm to disable old method body\n    #\n"@;
    assert(opening + before + body + after == opening + (before + body + after));
}

// ---------------------------------------------------------------------------------------------
// The methods of a file
// ---------------------------------------------------------------------------------------------

/// The body that a method with the given signature gets in a class with the given head, if it gets one.
pub open spec fn accepting_body(head: Head, signature: Seq<char>) -> Option<Seq<Seq<char>>> {
    let trusts = head.implements.contains("javax/net/ssl/X509TrustManager"@);
    let verifies = head.implements.contains("javax/net/ssl/HostnameVerifier"@);
    let pins2 = head.name == "com/squareup/okhttp/CertificatePinner"@;
    let pins3 = head.name == "okhttp3/CertificatePinner"@;
    if trusts && (signature
        == "checkClientTrusted([Ljava/security/cert/X509Certificate;Ljava/lang/String;)V"@
        || signature
        == "checkServerTrusted([Ljava/security/cert/X509Certificate;Ljava/lang/String;)V"@) {
        Some(seq![".locals 0"@, "return-void"@])
    } else if trusts && signature == "getAcceptedIssuers()[Ljava/security/cert/X509Certificate;"@ {
        Some(
            seq![
                ".locals 1"@,
                "const/4 v0, 0x0"@,
                "new-array v0, v0, [Ljava/security/cert/X509Certificate;"@,
                "return-object v0"@,
            ],
        )
    } else if verifies && signature == "verify(Ljava/lang/String;Ljavax/net/ssl/SSLSession;)Z"@ {
        Some(seq![".locals 1"@, "const/4 v0, 0x1"@, "return v0"@])
    } else if (pins2 || pins3) && signature == "check(Ljava/lang/String;Ljava/util/List;)V"@ {
        Some(seq![".locals 0"@, "return-void"@])
    } else if pins3 && signature
        == "check$okhttp(Ljava/lang/String;Lkotlin/jvm/functions/Function0;)V"@ {
        Some(seq![".locals 0"@, "return-void"@])
    } else {
        None
    }
}

proof fn lemma_signatures_differ()
    ensures
        ({
            let a =
                "checkClientTrusted([Ljava/security/cert/X509Certificate;Ljava/lang/String;)V"@;
            let b =
                "checkServerTrusted([Ljava/security/cert/X509Certificate;Ljava/lang/String;)V"@;
            let c = "getAcceptedIssuers()[Ljava/security/cert/X509Certificate;"@;
            let d = "verify(Ljava/lang/String;Ljavax/net/ssl/SSLSession;)Z"@;
            let e = "check(Ljava/lang/String;Ljava/util/List;)V"@;
            let f = "check$okhttp(Ljava/lang/String;Lkotlin/jvm/functions/Function0;)V"@;
            &&& a != b && a != c && a != d && a != e && a != f
            &&& b != c && b != d && b != e && b != f
            &&& c != d && c != e && c != f
            &&& d != e && d != f
            &&& e != f
            &&& a[0] == 'c' && b[0] == 'c' && c[0] == 'g' && d[0] == 'v' && e[0] == 'c' && f[0] == 'c'
            &&& a.len() > 0 && b.len() > 0 && c.len() > 0 && d.len() > 0 && e.len() > 0 && f.len() > 0
        }),
        "com/squareup/okhttp/CertificatePinner"@ != "okhttp3/CertificatePinner"@,
{
    reveal_strlit("checkClientTrusted([Ljava/security/cert/X509Certificate;Ljava/lang/String;)V");
    reveal_strlit("checkServerTrusted([Ljava/security/cert/X509Certificate;Ljava/lang/String;)V");
    reveal_strlit("getAcceptedIssuers()[Ljava/security/cert/X509Certificate;");
    reveal_strlit("verify(Ljava/lang/String;Ljavax/net/ssl/SSLSession;)Z");
    reveal_strlit("check(Ljava/lang/String;Ljava/util/List;)V");
    reveal_strlit("check$okhttp(Ljava/lang/String;Lkotlin/jvm/functions/Function0;)V");
    reveal_strlit("com/squareup/okhttp/CertificatePinner");
    reveal_strlit("okhttp3/CertificatePinner");
    let a = "checkClientTrusted([Ljava/security/cert/X509Certificate;Ljava/lang/String;)V"@;
    let b = "checkServerTrusted([Ljava/security/cert/X509Certificate;Ljava/lang/String;)V"@;
    let c = "getAcceptedIssuers()[Ljava/security/cert/X509Certificate;"@;
    let d = "verify(Ljava/lang/String;Ljavax/net/ssl/SSLSession;)Z"@;
    let e = "check(Ljava/lang/String;Ljava/util/List;)V"@;
    let f = "check$okhttp(Ljava/lang/String;Lkotlin/jvm/functions/Function0;)V"@;
    assert(a[5] == 'C' && b[5] == 'S' && e[5] == '(' && f[5] == '$');
    assert(c[0] == 'g' && d[0] == 'v');
    assert("com/squareup/okhttp/CertificatePinner"@[0] != "okhttp3/CertificatePinner"@[0]);
}

/// The line that opens a method tells its signature.
proof fn lemma_openings_differ(opening: Seq<char>, a: Seq<char>, b: Seq<char>)
    requires
        is_opening(opening, a),
        is_opening(opening, b),
        a.len() > 0,
        b.len() > 0,
        a[0] != 'f',
        b[0] != 'f',
    ensures
        a == b,
{
    reveal_strlit(".method public ");
    reveal_strlit(".method public final ");
    assert((".method public "@ + a)[15] == a[0]);
    assert((".method public "@ + b)[15] == b[0]);
    assert((".method public final "@ + a)[15] == 'f');
    assert((".method public final "@ + b)[15] == 'f');
    if opening == ".method public "@ + a {
        assert(opening.skip(15) == a);
        assert(opening.skip(15) == b);
    } else {
        assert(opening.skip(21) == a);
        assert(opening.skip(21) == b);
    }
}

proof fn lemma_piece_stays(pieces: Seq<Piece>, methods: Seq<MethodPatch>, u: int)
    requires
        0 <= u < pieces.len(),
        pieces[u] matches Piece::Method { opening, .. } ==> forall|i: int|
            0 <= i < methods.len() ==> !is_opening(opening, (#[trigger] methods[i]).signature),
    ensures
        all_new_pieces(pieces, methods).len() == pieces.len(),
        all_new_pieces(pieces, methods)[u] == pieces[u],
    decreases methods.len(),
{
    if methods.len() > 0 {
        let front = methods.drop_last();
        assert forall|i: int| 0 <= i < front.len() implies front[i] == #[trigger] methods[i] by {}
        if let Piece::Method { opening, .. } = pieces[u] {
            assert forall|i: int| 0 <= i < front.len() implies !is_opening(
                opening,
                (#[trigger] front[i]).signature,
            ) by {
                assert(!is_opening(opening, methods[i].signature));
            }
            assert(!is_opening(opening, methods[methods.len() - 1].signature));
        }
        lemma_piece_stays(pieces, front, u);
        assert(new_piece(pieces[u], methods.last()) == pieces[u]);
    }
}

proof fn lemma_piece_changes(
    pieces: Seq<Piece>,
    methods: Seq<MethodPatch>,
    u: int,
    k: int,
    opening: Seq<char>,
    body: Seq<char>,
)
    requires
        0 <= u < pieces.len(),
        pieces[u] == (Piece::Method { opening, body }),
        0 <= k < methods.len(),
        is_opening(opening, methods[k].signature),
        forall|i: int|
            0 <= i < methods.len() && i != k ==> !is_opening(
                opening,
                (#[trigger] methods[i]).signature,
            ),
    ensures
        all_new_pieces(pieces, methods).len() == pieces.len(),
        all_new_pieces(pieces, methods)[u] == (Piece::Method {
            opening,
            body: join(new_lines(methods[k].lines) + old_lines(body), '\n'),
        }),
    decreases methods.len(),
{
    let front = methods.drop_last();
    assert forall|i: int| 0 <= i < front.len() && i != k implies !is_opening(
        opening,
        (#[trigger] front[i]).signature,
    ) by {
        assert(!is_opening(opening, methods[i].signature));
    }
    if k == methods.len() - 1 {
        lemma_piece_stays(pieces, front, u);
    } else {
        assert(front[k] == methods[k]);
        lemma_piece_changes(pieces, front, u, k, opening, body);
        assert(!is_opening(opening, methods[methods.len() - 1].signature));
    }
}

/// In a file of the usual form each method that a patch is for gets the body that accepts everything, its
/// old one kept below as comments, and nothing else in the file changes. No method is left out and none is
/// replaced twice.
#[verifier::spinoff_prover]
#[verifier::rlimit(40)]
pub proof fn law_class_accepts_everything(
    pieces: Seq<Piece>,
    head: Head,
    u: int,
    signature: Seq<char>,
)
    requires
        0 <= u < pieces.len(),
        pieces[u] matches Piece::Method { opening, .. } ==> {
            &&& opening == ".method public "@ + signature || opening == ".method public final "@
                + signature
            &&& {
                ||| signature
                    == "checkClientTrusted([Ljava/security/cert/X509Certificate;Ljava/lang/String;)V"@
                ||| signature
                    == "checkServerTrusted([Ljava/security/cert/X509Certificate;Ljava/lang/String;)V"@
                ||| signature == "getAcceptedIssuers()[Ljava/security/cert/X509Certificate;"@
                ||| signature == "verify(Ljava/lang/String;Ljavax/net/ssl/SSLSession;)Z"@
                ||| signature == "check(Ljava/lang/String;Ljava/util/List;)V"@
                ||| signature
                    == "check$okhttp(Ljava/lang/String;Lkotlin/jvm/functions/Function0;)V"@
            }
        },
    ensures
        ({
            let new = all_new_pieces(pieces, methods_for(head));
            &&& new.len() == pieces.len()
            &&& match pieces[u] {
                Piece::Method { opening, body } => match accepting_body(head, signature) {
                    Some(lines) => new[u] == (Piece::Method {
                        opening,
                        body: join(new_lines(lines) + old_lines(body), '\n'),
                    }),
                    None => new[u] == pieces[u],
                },
                Piece::Other { .. } => new[u] == pieces[u],
            }
        }),
{
    let methods = methods_for(head);
    law_methods_of_a_class(head);
    lemma_signatures_differ();
    if let Piece::Method { opening, body } = pieces[u] {
        assert(is_opening(opening, signature));
        assert forall|i: int| 0 <= i < methods.len() implies {
            &&& (#[trigger] methods[i]).signature.len() > 0
            &&& methods[i].signature[0] != 'f'
        } by {}
        assert forall|i: int| 0 <= i < methods.len() && methods[i].signature != signature implies !is_opening(
            opening,
            (#[trigger] methods[i]).signature,
        ) by {
            if is_opening(opening, methods[i].signature) {
                lemma_openings_differ(opening, signature, methods[i].signature);
            }
        }
        match accepting_body(head, signature) {
            Some(lines) => {
                let k = lemma_wanted_method(head, signature, lines);
                lemma_piece_changes(pieces, methods, u, k, opening, body);
            },
            None => {
                lemma_unwanted_method(head, signature);
                lemma_piece_stays(pieces, methods, u);
            },
        }
    } else {
        lemma_piece_stays(pieces, methods, u);
    }
}

/// A method that is to be replaced is replaced by one patch.
#[verifier::spinoff_prover]
#[verifier::rlimit(40)]
proof fn lemma_wanted_method(head: Head, signature: Seq<char>, lines: Seq<Seq<char>>) -> (k: int)
    requires
        accepting_body(head, signature) == Some(lines),
    ensures
        0 <= k < methods_for(head).len(),
        methods_for(head)[k].signature == signature,
        methods_for(head)[k].lines == lines,
        forall|i: int|
            0 <= i < methods_for(head).len() && i != k ==> (#[trigger] methods_for(head)[i]).signature
                != signature,
{
    let methods = methods_for(head);
    law_methods_of_a_class(head);
    lemma_signatures_differ();
    let a: int = if head.implements.contains("javax/net/ssl/X509TrustManager"@) {
        3
    } else {
        0
    };
    let b: int = if head.implements.contains("javax/net/ssl/HostnameVerifier"@) {
        1
    } else {
        0
    };
    if signature
        == "checkClientTrusted([Ljava/security/cert/X509Certificate;Ljava/lang/String;)V"@ {
        0
    } else if signature
        == "checkServerTrusted([Ljava/security/cert/X509Certificate;Ljava/lang/String;)V"@ {
        1
    } else if signature == "getAcceptedIssuers()[Ljava/security/cert/X509Certificate;"@ {
        2
    } else if signature == "verify(Ljava/lang/String;Ljavax/net/ssl/SSLSession;)Z"@ {
        a
    } else if signature == "check(Ljava/lang/String;Ljava/util/List;)V"@ {
        a + b
    } else {
        a + b + 1
    }
}

/// A method that is not to be replaced is replaced by no patch.
proof fn lemma_unwanted_method(head: Head, signature: Seq<char>)
    requires
        accepting_body(head, signature) is None,
    ensures
        forall|i: int|
            0 <= i < methods_for(head).len() ==> (#[trigger] methods_for(head)[i]).signature
                != signature,
{
    law_methods_of_a_class(head);
}

/// The text of a file is the texts of its pieces, one after the other; that of a method is its opening,
/// its body and its closing, each on lines of its own.
pub proof fn law_pieces_make_the_text(
    a: Seq<Piece>,
    b: Seq<Piece>,
    opening: Seq<char>,
    body: Seq<char>,
    text: Seq<char>,
)
    ensures
        whole_text(a + b) == whole_text(a) + whole_text(b),
        whole_text(seq![Piece::Method { opening, body }]) == opening + seq!['\n'] + body
            + "\n.end method"@,
        whole_text(seq![Piece::Other { text }]) == text,
    decreases b.len(),
{
    let nothing = Seq::<char>::empty();
    assert(whole_text(Seq::<Piece>::empty()) == nothing);
    let one = seq![Piece::Method { opening, body }];
    assert(one.drop_last() == Seq::<Piece>::empty());
    assert(nothing + piece_text(one[0]) == piece_text(one[0]));
    let other = seq![Piece::Other { text }];
    assert(other.drop_last() == Seq::<Piece>::empty());
    assert(nothing + text == text);
    if b.len() == 0 {
        assert(a + b == a);
        assert(whole_text(a) + nothing == whole_text(a));
    } else {
        let front = b.drop_last();
        law_pieces_make_the_text(a, front, opening, body, text);
        assert((a + b).drop_last() == a + front);
        assert(whole_text(a) + whole_text(front) + piece_text(b.last()) == whole_text(a) + (whole_text(
            front,
        ) + piece_text(b.last())));
    }
}

// ---------------------------------------------------------------------------------------------
// Outcomes
// ---------------------------------------------------------------------------------------------

/// The methods are replaced one after the other, each in what the ones before it left; each that was found
/// is reported, and no other.
pub proof fn law_methods_in_turn(
    text: Seq<char>,
    methods: Seq<MethodPatch>,
    method: MethodPatch,
    class: Seq<char>,
)
    ensures
        patched_all(text, Seq::empty()) == text,
        patched_all(text, methods.push(method)) == patched(patched_all(text, methods), method),
        reports_on(text, Seq::empty(), class) == Seq::<Seq<char>>::empty(),
        targets(patched_all(text, methods), method).len() == 0 ==> reports_on(
            text,
            methods.push(method),
            class,
        ) == reports_on(text, methods, class),
        targets(patched_all(text, methods), method).len() > 0 ==> reports_on(
            text,
            methods.push(method),
            class,
        ) == reports_on(text, methods, class).push(
            "    "@ + class + ": Applied "@ + method.name + " patch"@,
        ),
{
    assert(methods.push(method).drop_last() == methods);
}

/// What becomes of a file. It fails only if its head does, or if it is looked at and is not valid UTF-8.
/// It stays as it is unless its class is a trust manager, a hostname verifier or a pinner and a method was
/// found in it; then it gets the text with all its methods replaced, and a report on each.
pub proof fn law_outcomes(content: Seq<u8>, windows: bool)
    ensures
        ({
            let outcome = outcome_of(content, windows);
            match head_of(content) {
                Err(e) => outcome == Err::<FileOutcome, SmaliError>(e),
                Ok(head) => {
                    let looked_at = !head.is_interface && {
                        ||| head.implements.contains("javax/net/ssl/X509TrustManager"@)
                        ||| head.implements.contains("javax/net/ssl/HostnameVerifier"@)
                        ||| head.name == "com/squareup/okhttp/CertificatePinner"@
                        ||| head.name == "okhttp3/CertificatePinner"@
                    };
                    let text = if windows {
                        crlf_to_lf(decode_utf8(content))
                    } else {
                        decode_utf8(content)
                    };
                    let new = patched_all(text, methods_for(head));
                    let reports = reports_on(text, methods_for(head), head.name);
                    &&& !looked_at ==> outcome == Ok::<FileOutcome, SmaliError>(
                        FileOutcome::Untouched,
                    )
                    &&& looked_at && !valid_utf8(content) ==> outcome == Err::<
                        FileOutcome,
                        SmaliError,
                    >(SmaliError::NotUtf8)
                    &&& looked_at && valid_utf8(content) && reports.len() == 0 ==> outcome == Ok::<
                        FileOutcome,
                        SmaliError,
                    >(FileOutcome::Untouched)
                    &&& looked_at && valid_utf8(content) && reports.len() > 0 ==> outcome == Ok::<
                        FileOutcome,
                        SmaliError,
                    >(
                        FileOutcome::Patched {
                            content: if windows {
                                lf_to_crlf(new)
                            } else {
                                new
                            },
                            reports,
                        },
                    )
                },
            }
        }),
{
    if let Ok(head) = head_of(content) {
        law_candidates(head);
    }
}

/// On Windows a file with line ends in CR LF is patched just as one with line ends in LF is elsewhere, and
/// its line ends are kept.
pub proof fn law_line_ends_are_kept(s: Seq<char>)
    ensures
        match outcome_of(encode_utf8(s), false) {
            Ok(FileOutcome::Untouched) => outcome_of(encode_utf8(lf_to_crlf(s)), true) == Ok::<
                FileOutcome,
                SmaliError,
            >(FileOutcome::Untouched),
            Ok(FileOutcome::Patched { content, reports }) => outcome_of(
                encode_utf8(lf_to_crlf(s)),
                true,
            ) == Ok::<FileOutcome, SmaliError>(
                FileOutcome::Patched { content: lf_to_crlf(content), reports },
            ),
            Err(e) => outcome_of(encode_utf8(lf_to_crlf(s)), true) == Err::<FileOutcome, SmaliError>(e),
        },
{
    broadcast use {vstd::utf8::encode_utf8_valid_utf8, vstd::utf8::encode_utf8_decode_utf8};

    law_head_ignores_carriage_returns(s);
    law_line_feeds_return(s);
}

/// What it means that a file is given a new text: it is written with the line ends of the system, and not
/// written at all only if it is the text that was there.
pub proof fn law_new_text_is_written(
    r: Result<SmaliOutcome, SmaliError>,
    text: Seq<char>,
    new: Seq<char>,
    windows: bool,
)
    requires
        is_patched(r, text, new, windows),
    ensures
        r is Ok,
        r matches Ok(SmaliOutcome::Untouched) ==> new == text,
        r matches Ok(SmaliOutcome::Patched { content, .. }) ==> content@ == if windows {
            lf_to_crlf(new)
        } else {
            new
        },
{
}

// ---------------------------------------------------------------------------------------------
// Directories
// ---------------------------------------------------------------------------------------------

/// The directories whose name begins with `smali` are those of Smali files, and no other entry is.
pub proof fn law_roots(a: Seq<DirectoryEntry>, b: Seq<DirectoryEntry>, entry: DirectoryEntry)
    ensures
        root_names(a + b) == root_names(a) + root_names(b),
        root_names(seq![entry]) == match entry.name {
            Some(name) => if entry.is_dir && name@.len() >= 5 && name@.take(5) == seq![
                's',
                'm',
                'a',
                'l',
                'i',
            ] {
                seq![name@]
            } else {
                Seq::empty()
            },
            None => Seq::empty(),
        },
        root_names(Seq::empty()) == Seq::<Seq<char>>::empty(),
    decreases b.len(),
{
    let none = Seq::<Seq<char>>::empty();
    let one = seq![entry];
    assert(one.drop_last() == Seq::<DirectoryEntry>::empty());
    assert(root_names(one.drop_last()) == none);
    reveal_strlit("smali");
    assert("smali"@ == seq!['s', 'm', 'a', 'l', 'i']);
    if let Some(name) = entry.name {
        if name@.len() >= 5 {
            assert(name@.subrange(0, 5) == name@.take(5));
        }
        assert(none.push(name@) == seq![name@]);
    }
    if b.len() == 0 {
        assert(a + b == a);
        assert(root_names(a) + none == root_names(a));
    } else {
        let front = b.drop_last();
        law_roots(a, front, entry);
        assert((a + b).drop_last() == a + front);
        if is_root(b.last()) {
            let name = b.last().name->0@;
            assert((root_names(a) + root_names(front)).push(name) == root_names(a) + root_names(
                front,
            ).push(name));
        }
    }
}

/// Names are ordered by their first difference, and a name comes before those that it is the start of.
pub proof fn law_order_of_names(front: Seq<char>, a: Seq<char>, b: Seq<char>)
    ensures
        a.len() > 0 && b.len() > 0 && a[0] != b[0] ==> (precedes(front + a, front + b) <==> a[0]
            < b[0]),
        a.len() == 0 ==> (precedes(front + a, front + b) <==> b.len() > 0),
        b.len() == 0 ==> !precedes(front + a, front + b),
    decreases front.len(),
{
    if front.len() == 0 {
        assert(front + a == a);
        assert(front + b == b);
    } else {
        assert((front + a).skip(1) == front.skip(1) + a);
        assert((front + b).skip(1) == front.skip(1) + b);
        law_order_of_names(front.skip(1), a, b);
    }
}

/// In a sorted list each name is the same as the next or comes before it.
pub proof fn law_sorted_names(list: Seq<Seq<char>>, i: int, j: int)
    requires
        sorted(list),
        0 <= i < j < list.len(),
    ensures
        list[i] == list[j] || precedes(list[i], list[j]),
{
    assert(!precedes(list[j], list[i]));
    lemma_names_compare(list[i], list[j]);
}

proof fn lemma_names_compare(a: Seq<char>, b: Seq<char>)
    ensures
        a == b || precedes(a, b) || precedes(b, a),
    decreases a.len(),
{
    if a.len() > 0 && b.len() > 0 && a[0] == b[0] {
        lemma_names_compare(a.skip(1), b.skip(1));
        assert(a == seq![a[0]] + a.skip(1));
        assert(b == seq![b[0]] + b.skip(1));
    }
}

/// Each method that is found gives way to its new text, in its place.
pub proof fn law_each_method_in_its_place(
    text: Seq<char>,
    method: MethodPatch,
    news: Seq<Seq<char>>,
)
    requires
        news.len() == targets(text, method).len(),
        forall|i: int|
            0 <= i < news.len() ==> #[trigger] news[i] == new_method(
                targets(text, method)[i],
                method.lines,
            ),
    ensures
        patched(text, method) == replaced(text, targets(text, method), news),
{
    assert(news == Seq::new(
        targets(text, method).len(),
        |i: int| new_method(targets(text, method)[i], method.lines),
    ));
}

/// The models of patches and outcomes hold all there is to them.
pub proof fn law_models_of_patches(
    patch: SmaliPatch,
    method: SmaliMethodPatch,
    list: Seq<SmaliPatch>,
    content: String,
    reports: Vec<String>,
)
    ensures
        patch@.selector_type == patch.selector_type,
        patch@.selector_name == patch.selector_name@,
        patch@.methods.len() == patch.methods@.len(),
        forall|i: int|
            0 <= i < patch.methods@.len() ==> #[trigger] patch@.methods[i] == patch.methods@[i]@,
        method@.name == method.name@,
        method@.signature == method.signature@,
        method@.lines.len() == method.replacement_lines@.len(),
        forall|i: int|
            0 <= i < method.replacement_lines@.len() ==> #[trigger] method@.lines[i]
                == method.replacement_lines@[i]@,
        patch_views(list).len() == list.len(),
        forall|i: int| 0 <= i < list.len() ==> #[trigger] patch_views(list)[i] == list[i]@,
        SmaliOutcome::Untouched@ == FileOutcome::Untouched,
        (SmaliOutcome::Patched { content, reports })@ == (FileOutcome::Patched {
            content: content@,
            reports: texts(reports@),
        }),
{
}

} // verus!
