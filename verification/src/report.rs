//! What the user gets to read in the course of a run.
use crate::job::Step;
use crate::task::TaskKind;
use crate::tools::ApkEditor;
use crate::tools::Apktool;
use crate::tools::UberApkSigner;
use crate::tools::APKEDITOR_VERSION;
use crate::tools::APKTOOL_VERSION;
use crate::tools::UBER_APK_SIGNER_VERSION;
use vstd::prelude::*;

verus! {

/// The version of Apktool as it is shown.
pub open spec fn shown_apktool(apktool: Apktool) -> Seq<char> {
    match apktool.custom_path {
        Some(_) => "custom version"@,
        None => "v"@ + APKTOOL_VERSION@,
    }
}

/// The lines about the programs other than Apktool.
pub open spec fn shown_tools(kind: TaskKind) -> Seq<char> {
    let signer = "v"@ + UBER_APK_SIGNER_VERSION@;
    match kind {
        TaskKind::AppBundle => "  ├ uber-apk-signer "@ + signer + "\n  ╰ apk-editor "@ + ("v"@
            + APKEDITOR_VERSION@) + "\n\n"@,
        TaskKind::Apk => "  ╰ uber-apk-signer "@ + signer + "\n\n"@,
    }
}

/// The lines at the start of a run: the versions of this program and of those that it uses.
pub fn banner(version: &str, kind: TaskKind, apktool: &Apktool) -> (r: String)
    ensures
        r@ == "\n  ╭ apk-mitm v"@ + version@ + "\n  ├ apktool "@ + shown_apktool(*apktool) + "\n"@
            + shown_tools(kind),
{
    let head = "\n  ╭ apk-mitm v".to_string().concat(version).concat("\n  ├ apktool ").concat(
        apktool.version_name().as_str(),
    ).concat("\n");
    let signer = UberApkSigner::new().version_name();
    let tail = match kind {
        TaskKind::AppBundle => "  ├ uber-apk-signer ".to_string().concat(signer.as_str()).concat(
            "\n  ╰ apk-editor ",
        ).concat(ApkEditor::new().version_name().as_str()).concat("\n\n"),
        TaskKind::Apk => "  ╰ uber-apk-signer ".to_string().concat(signer.as_str()).concat("\n\n"),
    };
    head.concat(tail.as_str())
}

/// The lines about where the work is done: in the input itself if it is a decoded app, otherwise in the
/// temporary directory.
pub fn working_directory(skip_decode: bool, input: &str, tmp_dir: &str) -> (r: String)
    ensures
        r@ == if skip_decode {
            "  Patching from decoded apktool directory:\n  "@ + input@ + "\n\n"@
        } else {
            "  Using temporary directory:\n  "@ + tmp_dir@ + "\n\n"@
        },
{
    if skip_decode {
        "  Patching from decoded apktool directory:\n  ".to_string().concat(input).concat("\n\n")
    } else {
        "  Using temporary directory:\n  ".to_string().concat(tmp_dir).concat("\n\n")
    }
}

/// The name of a step; the two ways of encoding are announced differently.
pub open spec fn title(step: Step) -> Option<Seq<char>> {
    match step {
        Step::CheckPrerequisites => Some("Checking prerequisites"@),
        Step::Merge => Some("Merging splits into universal APK"@),
        Step::Decode => Some("Decoding APK file"@),
        Step::ApplyPatches => Some("Applying patches"@),
        Step::Wait => Some("Waiting for you to make changes"@),
        Step::EncodeAapt2 => None,
        Step::EncodeAapt => None,
        Step::Sign => Some("Signing patched APK file"@),
    }
}

/// What is shown before a step.
pub fn before_step(step: Step) -> (r: String)
    ensures
        r@ == match title(step) {
            Some(name) => "  "@ + name + " ... "@,
            None => if step == Step::EncodeAapt2 {
                "  Encoding patched APK file\n"@
            } else {
                ""@
            },
        },
{
    let name = match step {
        Step::CheckPrerequisites => "Checking prerequisites",
        Step::Merge => "Merging splits into universal APK",
        Step::Decode => "Decoding APK file",
        Step::ApplyPatches => "Applying patches",
        Step::Wait => "Waiting for you to make changes",
        Step::EncodeAapt2 => {
            return "  Encoding patched APK file\n".to_string();
        },
        Step::EncodeAapt => {
            return "".to_string();
        },
        Step::Sign => "Signing patched APK file",
    };
    "  ".to_string().concat(name).concat(" ... ")
}

/// What is shown after a step that succeeded.
pub fn after_success(step: Step) -> (r: String)
    ensures
        r@ == match step {
            Step::EncodeAapt2 => "    ✓ Encoding using AAPT2\n"@,
            Step::EncodeAapt => "    ✓ Encoding using AAPT fallback\n"@,
            _ => "✓\n"@,
        },
{
    match step {
        Step::EncodeAapt2 => "    ✓ Encoding using AAPT2\n".to_string(),
        Step::EncodeAapt => "    ✓ Encoding using AAPT fallback\n".to_string(),
        _ => "✓\n".to_string(),
    }
}

/// What is shown after a step that failed, before the error itself where the run ends with it.
pub fn after_failure(step: Step, error: &str) -> (r: String)
    ensures
        r@ == match step {
            Step::EncodeAapt2 => "    ! AAPT2 failed, falling back to AAPT: "@ + error@ + "\n"@,
            Step::EncodeAapt => ""@,
            _ => "✗\n"@,
        },
{
    match step {
        Step::EncodeAapt2 => "    ! AAPT2 failed, falling back to AAPT: ".to_string().concat(
            error,
        ).concat("\n"),
        Step::EncodeAapt => "".to_string(),
        _ => "✗\n".to_string(),
    }
}

/// What is shown when the user may change the decoded app.
pub fn wait_prompt() -> (r: String)
    ensures
        r@ == "  Press Enter to continue.\n"@,
{
    "  Press Enter to continue.\n".to_string()
}

/// What is shown before the Smali files are looked at.
pub fn smali_scan_start() -> (r: String)
    ensures
        r@ == "\n    Scanning Smali files...\n"@,
{
    "\n    Scanning Smali files...\n".to_string()
}

/// What is shown after the Smali files were looked at: something only if none was patched.
pub fn smali_scan_end(found: bool) -> (r: String)
    ensures
        r@ == if found {
            ""@
        } else {
            "    No certificate pinning logic found.\n"@
        },
{
    if found {
        "".to_string()
    } else {
        "    No certificate pinning logic found.\n".to_string()
    }
}

/// The warning about an app of which only one of several packages was patched.
pub open spec fn bundle_warning() -> Seq<char> {
    "\n  WARNING\n\n  This app seems to use Android App Bundle split APKs. You may run into\n  installation problems because only one APK was patched. Supply a .xapk or\n  .apks file containing all APKs to patch the bundle.\n\n"@
}

/// The warning about an app of which only one of several packages was patched.
pub fn show_app_bundle_warning() -> (r: String)
    ensures
        r@ == bundle_warning(),
{
    "\n  WARNING\n\n  This app seems to use Android App Bundle split APKs. You may run into\n  installation problems because only one APK was patched. Supply a .xapk or\n  .apks file containing all APKs to patch the bundle.\n\n".to_string()
}

/// The lines at the end of a run: the result, after a warning if only one of several packages of the app
/// was patched.
pub fn closing(kind: TaskKind, uses_app_bundle: bool, output_name: &str) -> (r: String)
    ensures
        r@ == (if kind == TaskKind::Apk && uses_app_bundle {
            bundle_warning()
        } else {
            ""@
        }) + "\n  Done! Patched file: ./"@ + output_name@ + "\n\n"@,
{
    let head = match kind {
        TaskKind::Apk => {
            if uses_app_bundle {
                show_app_bundle_warning()
            } else {
                "".to_string()
            }
        },
        TaskKind::AppBundle => "".to_string(),
    };
    head.concat("\n  Done! Patched file: ./").concat(output_name).concat("\n\n")
}

/// What is shown when a run fails; on an ARM machine there is a note as well.
pub fn failure(error: &str, arm: bool) -> (r: String)
    ensures
        r@ == "\n  Failed! An error occurred:\n\n  "@ + error@ + "\n\n"@ + (if arm {
            "  NOTE\n\n  apk-mitm doesn't officially support ARM-based devices (like Raspberry Pi's).\n  Try patching this APK on x64 before reporting an issue.\n\n"@
        } else {
            ""@
        }),
{
    let head = "\n  Failed! An error occurred:\n\n  ".to_string().concat(error).concat("\n\n");
    if arm {
        head.concat(
            "  NOTE\n\n  apk-mitm doesn't officially support ARM-based devices (like Raspberry Pi's).\n  Try patching this APK on x64 before reporting an issue.\n\n",
        )
    } else {
        head.concat("")
    }
}

// ---------------------------------------------------------------------------------------------
// Laws
// ---------------------------------------------------------------------------------------------

/// How the steps are called.
pub proof fn law_titles(step: Step)
    ensures
        title(step) is None <==> step == Step::EncodeAapt2 || step == Step::EncodeAapt,
        title(Step::CheckPrerequisites) == Some("Checking prerequisites"@),
        title(Step::Merge) == Some("Merging splits into universal APK"@),
        title(Step::Decode) == Some("Decoding APK file"@),
        title(Step::ApplyPatches) == Some("Applying patches"@),
        title(Step::Wait) == Some("Waiting for you to make changes"@),
        title(Step::Sign) == Some("Signing patched APK file"@),
{
}

/// What the banner and the warning say.
pub proof fn law_banner_and_warning(apktool: Apktool)
    ensures
        apktool.custom_path is Some ==> shown_apktool(apktool) == "custom version"@,
        apktool.custom_path is None ==> shown_apktool(apktool) == "v2.9.3"@,
        shown_tools(TaskKind::Apk) == "  ╰ uber-apk-signer v1.3.0\n\n"@,
        shown_tools(TaskKind::AppBundle)
            == "  ├ uber-apk-signer v1.3.0\n  ╰ apk-editor v1.4.3\n\n"@,
        bundle_warning()
            == "\n  WARNING\n\n  This app seems to use Android App Bundle split APKs. You may run into\n  installation problems because only one APK was patched. Supply a .xapk or\n  .apks file containing all APKs to patch the bundle.\n\n"@,
{
    reveal_strlit("v");
    reveal_strlit("\n\n");
    assert("v"@ + APKTOOL_VERSION@ == "v2.9.3"@) by {
        reveal_strlit("2.9.3");
        reveal_strlit("v2.9.3");
    }
    reveal_strlit("1.3.0");
    assert(shown_tools(TaskKind::Apk) == "  ╰ uber-apk-signer v1.3.0\n\n"@) by {
        reveal_strlit("  ╰ uber-apk-signer ");
        reveal_strlit("  ╰ uber-apk-signer v1.3.0\n\n");
    }
    assert(shown_tools(TaskKind::AppBundle)
        == "  ├ uber-apk-signer v1.3.0\n  ╰ apk-editor v1.4.3\n\n"@) by {
        reveal_strlit("1.4.3");
        reveal_strlit("  ├ uber-apk-signer ");
        reveal_strlit("\n  ╰ apk-editor ");
        reveal_strlit("  ├ uber-apk-signer v1.3.0\n  ╰ apk-editor v1.4.3\n\n");
    }
}

} // verus!
