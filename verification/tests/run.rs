use apk_mitm::java::get_java_major_version;
use apk_mitm::java::parse_u32;
use apk_mitm::java::to_decimal;
use apk_mitm::java::JavaError;
use apk_mitm::job::apply_patches;
use apk_mitm::job::check_prerequisites;
use apk_mitm::job::decode_dir;
use apk_mitm::job::make_options;
use apk_mitm::job::merged_apk_path;
use apk_mitm::job::options_after;
use apk_mitm::job::patch_apk;
use apk_mitm::job::patch_app_bundle;
use apk_mitm::job::removes_tmp_dir;
use apk_mitm::job::start;
use apk_mitm::job::step_copy;
use apk_mitm::job::step_downloads;
use apk_mitm::job::step_run;
use apk_mitm::job::tmp_apk_path;
use apk_mitm::job::Args;
use apk_mitm::job::Event;
use apk_mitm::job::JavaTooOld;
use apk_mitm::job::Options;
use apk_mitm::job::Paths;
use apk_mitm::job::Progress;
use apk_mitm::job::Step;
use apk_mitm::manifest::ManifestError;
use apk_mitm::network_config::Certificate;
use apk_mitm::place::Base;
use apk_mitm::place::Location;
use apk_mitm::report::after_failure;
use apk_mitm::report::after_success;
use apk_mitm::report::banner;
use apk_mitm::report::before_step;
use apk_mitm::report::closing;
use apk_mitm::report::failure;
use apk_mitm::report::smali_scan_end;
use apk_mitm::report::smali_scan_start;
use apk_mitm::report::wait_prompt;
use apk_mitm::report::working_directory;
use apk_mitm::task::determine_task;
use apk_mitm::task::InputFile;
use apk_mitm::task::TaskError;
use apk_mitm::task::TaskKind;
use apk_mitm::tools::cache_path;
use apk_mitm::tools::combined_output;
use apk_mitm::tools::download_cached;
use apk_mitm::tools::jar_result;
use apk_mitm::tools::ApkEditor;
use apk_mitm::tools::Apktool;
use apk_mitm::tools::UberApkSigner;

fn options() -> Options {
    Options {
        input_path: Location::at(Base::Input),
        output_path: Location::at(Base::InputParent).join("app-patched.apk"),
        skip_patches: false,
        full_smali: false,
        certificate: None,
        maps_api_key: None,
        apktool: Apktool::new("framework".to_string(), None),
        signer: UberApkSigner::new(),
        wait: false,
        debuggable: false,
        skip_decode: false,
    }
}

fn file(extension: Option<&str>, stem: Option<&str>) -> InputFile {
    InputFile {
        is_dir: false,
        has_apktool_yml: false,
        extension: extension.map(|e| e.to_string()),
        file_stem: stem.map(|s| s.to_string()),
    }
}

#[test]
fn apktool_decode_sources_are_opt_in() {
    let apktool = Apktool::new("framework".to_string(), Some("apktool.jar".to_string()));
    let full_args = apktool.decode_args("in.apk", "out", true);
    let default_args = apktool.decode_args("in.apk", "out", false);

    assert!(!full_args.iter().any(|arg| arg == "--no-src"));
    assert!(default_args.iter().any(|arg| arg == "--no-src"));
    assert_eq!(
        default_args,
        vec!["decode", "in.apk", "--output", "out", "--frame-path", "framework", "--no-src"]
    );
}

#[test]
fn bundle_inputs_produce_standalone_patched_apk_output() {
    for ext in ["xapk", "apks", "zip"] {
        let info = determine_task(&file(Some(ext), Some("com.example.app"))).unwrap();
        assert_eq!(info.kind, TaskKind::AppBundle);
        assert!(!info.skip_decode);
        assert_eq!(info.output_name, "com.example.app-patched.apk");
        assert_eq!(info.output_path.base, Base::InputParent);
        assert_eq!(info.output_path.path, "com.example.app-patched.apk");
    }
}

#[test]
fn apk_input_produces_patched_apk_output() {
    let info = determine_task(&file(Some("apk"), Some("app"))).unwrap();
    assert_eq!(info.kind, TaskKind::Apk);
    assert!(!info.skip_decode);
    assert_eq!(info.output_name, "app-patched.apk");
    assert_eq!(info.output_path.base, Base::InputParent);
    assert_eq!(info.output_path.path, "app-patched.apk");
}

#[test]
fn decoded_directory_produces_patched_apk_output() {
    let mut input = file(None, Some("decoded"));
    input.is_dir = true;
    input.has_apktool_yml = true;
    let info = determine_task(&input).unwrap();
    assert_eq!(info.kind, TaskKind::Apk);
    assert!(info.skip_decode);
    assert!(info.output_name.ends_with("-patched.apk"));
}

#[test]
fn inputs_are_refused() {
    let mut input = file(None, None);
    input.is_dir = true;
    assert_eq!(determine_task(&input).unwrap_err(), TaskError::NotDecoded);
    assert_eq!(
        determine_task(&file(Some("jar"), None)).unwrap_err(),
        TaskError::UnsupportedType
    );
    assert_eq!(
        determine_task(&file(None, Some("apk"))).unwrap_err(),
        TaskError::UnsupportedType
    );
    assert_eq!(
        determine_task(&file(Some("apk"), None)).unwrap_err(),
        TaskError::NoFileName
    );
    assert_eq!(
        TaskError::NotDecoded.message(),
        "No \"apktool.yml\" file found inside the input directory! Make sure to specify a directory created by \"apktool decode\"."
    );
    assert_eq!(
        TaskError::UnsupportedType.message(),
        "Unsupported file type. Supported extensions: .apk, .xapk, .apks, .zip, or a decoded apktool directory."
    );
    assert_eq!(TaskError::NoFileName.message(), "Could not determine input file name");
}

#[test]
fn java_versions() {
    assert_eq!(
        get_java_major_version(b"openjdk version \"17.0.1\" 2021-10-19\n").unwrap(),
        17
    );
    assert_eq!(get_java_major_version(b"java version \"1.8.0_292\"\n").unwrap(), 8);
    assert_eq!(get_java_major_version(b"java version \"9\"").unwrap(), 9);
    match get_java_major_version(b"no \xff version") {
        Err(error) => assert_eq!(
            error.message(),
            "Could not extract Java major version from java -version output:\nno \u{fffd} version"
        ),
        Ok(version) => panic!("{version}"),
    }
    match get_java_major_version(b"\"99999999999\"") {
        Err(error) => assert_eq!(error.message(), "number too large to fit in target type"),
        Ok(version) => panic!("{version}"),
    }
    match get_java_major_version("\"\u{663}\"".as_bytes()) {
        Err(error) => assert_eq!(error.message(), "invalid digit found in string"),
        Ok(version) => panic!("{version}"),
    }
    assert_eq!(JavaError::Empty.message(), "cannot parse integer from empty string");
}

#[test]
fn numbers_are_read_as_std_reads_them() {
    for text in [
        "", "0", "8", "+8", "+", "-", "-1", "++1", "007", "4294967295", "4294967296",
        "99999999999x", "1x", " 1", "1_0",
    ] {
        match (parse_u32(text), text.parse::<u32>()) {
            (Ok(a), Ok(b)) => assert_eq!(a, b),
            (Err(a), Err(b)) => assert_eq!(a.message(), b.to_string(), "{text}"),
            _ => panic!("{text}"),
        }
    }
}

#[test]
fn written_numbers_are_read() {
    for n in [0, 7, 10, 8, 4294967295, 1234567] {
        assert_eq!(to_decimal(n), n.to_string());
        assert_eq!(parse_u32(&to_decimal(n)).unwrap(), n);
    }
}

#[test]
fn prerequisites() {
    let error = check_prerequisites(7, &options(), true).unwrap_err();
    assert_eq!(error.message(), "apk-mitm requires at least Java 8; found Java 7.");
    assert_eq!(
        JavaTooOld { major: 0 }.message(),
        "apk-mitm requires at least Java 8; found Java 0."
    );
    let list = check_prerequisites(8, &options(), true).unwrap();
    let urls: Vec<&str> = list.iter().map(|d| d.url.as_str()).collect();
    assert_eq!(
        urls,
        vec![
            "https://github.com/iBotPeaches/Apktool/releases/download/v2.9.3/apktool_2.9.3.jar",
            "https://github.com/patrickfav/uber-apk-signer/releases/download/v1.3.0/uber-apk-signer-1.3.0.jar",
        ]
    );
    let mut custom = options();
    custom.apktool = Apktool::new("f".to_string(), Some("my.jar".to_string()));
    assert_eq!(check_prerequisites(21, &custom, true).unwrap().len(), 1);
}

#[test]
fn programs_are_cached() {
    assert_eq!(cache_path(true, "x.jar").base, Base::UserCache);
    assert_eq!(cache_path(true, "x.jar").path, "apk-mitm/x.jar");
    assert_eq!(cache_path(false, "x.jar").base, Base::SystemTemp);
    assert_eq!(cache_path(false, "x.jar").path, "apk-mitm-cache/apk-mitm/x.jar");
    let editor = ApkEditor::new();
    assert_eq!(editor.version_name(), "v1.4.3");
    let download = editor.ensure_downloaded(true);
    assert_eq!(
        download.url,
        "https://github.com/REAndroid/APKEditor/releases/download/V1.4.3/APKEditor-1.4.3.jar"
    );
    assert_eq!(download.path.path, "apk-mitm/APKEditor-1.4.3.jar");
    assert_eq!(download.path.path, editor.jar_path(true).path);
    assert_eq!(download.partial.path, "apk-mitm/APKEditor-1.4.3.jar.dl");
    assert_eq!(download_cached(true, &download), None);
    assert_eq!(
        download_cached(false, &download).unwrap(),
        format!("\n    Downloading {}", download.url)
    );
    let signer = UberApkSigner::new();
    assert_eq!(signer.version_name(), "v1.3.0");
    assert_eq!(signer.jar_path(true).path, "apk-mitm/uber-apk-signer-v1.3.0.jar");
    assert_eq!(signer.ensure_downloaded(true).path.path, signer.jar_path(true).path);
}

#[test]
fn apktool_paths() {
    let own = Apktool::new("f".to_string(), None);
    assert_eq!(own.version_name(), "v2.9.3");
    assert_eq!(own.jar_path(true).path, "apk-mitm/apktool-v2.9.3.jar");
    assert_eq!(own.ensure_downloaded(true).unwrap().path.path, own.jar_path(true).path);
    let custom = Apktool::new("f".to_string(), Some("x".to_string()));
    assert_eq!(custom.version_name(), "custom version");
    assert_eq!(custom.jar_path(true).base, Base::CustomApktool);
    assert!(custom.ensure_downloaded(true).is_none());
}

#[test]
fn program_runs() {
    let tool = Apktool::new("f".to_string(), None);
    let run = tool.decode("i", "o", false, true);
    assert_eq!(run.args, tool.decode_args("i", "o", false));
    assert_eq!(run.log_path.path, "logs/decoding.log");
    assert_eq!(run.failed_path.path, "logs/decoding.failed.log");
    assert_eq!(run.logs_dir.path, "logs");
    assert_eq!(run.logs_dir.base, Base::Temp);
    assert_eq!(run.jar.path, "apk-mitm/apktool-v2.9.3.jar");
    let run = tool.encode("i", "o", true, true);
    assert_eq!(
        run.args,
        vec!["build", "i", "--output", "o", "--frame-path", "f", "--use-aapt2"]
    );
    assert_eq!(run.log_path.path, "logs/encoding-aapt2.log");
    let run = tool.encode("i", "o", false, true);
    assert_eq!(run.args, vec!["build", "i", "--output", "o", "--frame-path", "f"]);
    assert_eq!(run.log_path.path, "logs/encoding-aapt.log");
    let paths = vec!["a".to_string(), "b".to_string()];
    let run = UberApkSigner::new().sign(&paths, true, true);
    assert_eq!(
        run.args,
        vec!["--allowResign", "--overwrite", "--apks", "a", "--apks", "b"]
    );
    assert_eq!(run.log_path.path, "logs/signing.log");
    let run = UberApkSigner::new().sign(&vec![], false, true);
    assert_eq!(run.args, vec!["--allowResign", "--overwrite", "--skipZipAlign"]);
    let run = ApkEditor::new().merge("i", "o", true);
    assert_eq!(run.args, vec!["m", "-i", "i", "-o", "o"]);
    assert_eq!(run.log_path.path, "logs/merging.log");
}

#[test]
fn program_results() {
    assert_eq!(combined_output(b"ab", b"c"), b"abc");
    assert!(jar_result(true, "log", b"x").is_ok());
    assert_eq!(
        jar_result(false, "log", b"x\xff").unwrap_err(),
        "Command failed (see log):\nx\u{fffd}"
    );
}

fn steps(kind: TaskKind, options: &Options) -> Vec<Step> {
    let mut job = start(kind);
    let mut list = vec![job.step];
    loop {
        match patch_apk(job, options, Event::Done) {
            Progress::Continue(next) => {
                list.push(next.step);
                job = next;
            }
            Progress::Finished { .. } => return list,
            Progress::Failed => panic!("failed"),
        }
    }
}

#[test]
fn order_of_steps() {
    assert_eq!(
        steps(TaskKind::Apk, &options()),
        vec![
            Step::CheckPrerequisites,
            Step::Decode,
            Step::ApplyPatches,
            Step::EncodeAapt2,
            Step::Sign
        ]
    );
    let mut all = options();
    all.wait = true;
    assert_eq!(
        steps(TaskKind::AppBundle, &all),
        vec![
            Step::CheckPrerequisites,
            Step::Merge,
            Step::CheckPrerequisites,
            Step::Decode,
            Step::ApplyPatches,
            Step::Wait,
            Step::EncodeAapt2,
            Step::Sign
        ]
    );
    let mut few = options();
    few.skip_decode = true;
    few.skip_patches = true;
    assert_eq!(
        steps(TaskKind::Apk, &few),
        vec![Step::CheckPrerequisites, Step::EncodeAapt2, Step::Sign]
    );
}

#[test]
fn failures() {
    let mut job = start(TaskKind::Apk);
    assert_eq!(patch_apk(job, &options(), Event::Failed), Progress::Failed);
    job.step = Step::EncodeAapt2;
    let next = match patch_apk(job, &options(), Event::Failed) {
        Progress::Continue(next) => next,
        _ => panic!("no fallback"),
    };
    assert_eq!(next.step, Step::EncodeAapt);
    assert_eq!(patch_apk(next, &options(), Event::Failed), Progress::Failed);
    assert!(matches!(
        patch_apk(next, &options(), Event::Done),
        Progress::Continue(j) if j.step == Step::Sign
    ));
}

#[test]
fn split_apps_are_remembered() {
    let mut job = start(TaskKind::Apk);
    job.step = Step::ApplyPatches;
    let mut next = match patch_apk(job, &options(), Event::Patched { uses_app_bundle: true }) {
        Progress::Continue(next) => next,
        _ => panic!("ended"),
    };
    loop {
        match patch_apk(next, &options(), Event::Done) {
            Progress::Continue(j) => next = j,
            end => {
                assert_eq!(end, Progress::Finished { uses_app_bundle: true });
                break;
            }
        }
    }
}

#[test]
fn bundles_become_packages() {
    let mut asked = options();
    asked.skip_decode = true;
    asked.wait = true;
    asked.maps_api_key = Some("k".to_string());
    asked.certificate = Some(Certificate { file_name: Some("c.pem".to_string()) });
    let merged = patch_app_bundle(&asked);
    assert_eq!(merged.input_path.base, Base::Temp);
    assert_eq!(merged.input_path.path, "merged.apk");
    assert_eq!(merged.output_path.path, "app-patched.apk");
    assert!(!merged.skip_decode);
    assert!(merged.wait);
    assert_eq!(merged.maps_api_key.as_deref(), Some("k"));
    assert_eq!(merged.certificate.unwrap().file_name.unwrap(), "c.pem");
    assert_eq!(tmp_apk_path().path, "tmp.apk");
}

#[test]
fn the_merge_needs_a_program_of_its_own() {
    let downloads = step_downloads(Step::Merge, true);
    assert_eq!(downloads.len(), 1);
    assert_eq!(downloads[0].path.base, Base::UserCache);
    assert_eq!(
        downloads[0].url,
        "https://github.com/REAndroid/APKEditor/releases/download/V1.4.3/APKEditor-1.4.3.jar"
    );
    assert_eq!(step_downloads(Step::Merge, false)[0].path.base, Base::SystemTemp);
    for step in [
        Step::CheckPrerequisites,
        Step::Decode,
        Step::ApplyPatches,
        Step::Wait,
        Step::EncodeAapt2,
        Step::EncodeAapt,
        Step::Sign,
    ] {
        assert!(step_downloads(step, true).is_empty());
    }
}

#[test]
fn the_merged_package_becomes_the_input() {
    let kept = options_after(Step::Decode, options());
    assert_eq!(kept.input_path.base, Base::Input);
    let merged = options_after(Step::Merge, kept);
    assert_eq!(merged.input_path.base, Base::Temp);
    assert_eq!(merged.input_path.path, "merged.apk");
    assert_eq!(merged.output_path.path, "app-patched.apk");
}

#[test]
fn the_signed_package_is_copied_to_the_output() {
    let asked = options();
    let (from, to) = step_copy(Step::Sign, &asked).unwrap();
    assert_eq!((from.base, from.path.as_str()), (Base::Temp, "tmp.apk"));
    assert_eq!((to.base, to.path.as_str()), (Base::InputParent, "app-patched.apk"));
    assert!(step_copy(Step::EncodeAapt2, &asked).is_none());
    assert!(step_copy(Step::Merge, &asked).is_none());
}

#[test]
fn patches_are_planned() {
    let mut asked = options();
    let plan = apply_patches("<application/>", &asked).unwrap();
    assert_eq!(plan.manifest_path.base, Base::Temp);
    assert_eq!(plan.manifest_path.path, "decode/AndroidManifest.xml");
    assert_eq!(
        plan.manifest,
        "<application android:networkSecurityConfig=\"@xml/nsc_mitm\"/>"
    );
    assert!(plan.certificate_dir.is_none());
    assert_eq!(plan.config_path.path, "decode/res/xml/nsc_mitm.xml");
    assert!(!plan.patch_smali);
    assert!(!plan.uses_app_bundle);
    asked.skip_decode = true;
    asked.full_smali = true;
    asked.debuggable = true;
    asked.certificate = Some(Certificate { file_name: Some("c.pem".to_string()) });
    let plan = apply_patches("<application/>", &asked).unwrap();
    assert_eq!(plan.manifest_path.base, Base::Input);
    assert_eq!(plan.manifest_path.path, "AndroidManifest.xml");
    assert_eq!(plan.certificate_dir.unwrap().path, "res/raw");
    assert!(plan.config.contains("@raw/c\""));
    assert!(plan.manifest.contains("android:debuggable=\"true\""));
    assert!(plan.patch_smali);
    assert!(matches!(
        apply_patches("<manifest/>", &asked),
        Err(ManifestError::NoApplicationTag)
    ));
    assert_eq!(decode_dir(&asked).path, "");
}

#[test]
fn texts_for_the_user() {
    let tool = Apktool::new("f".to_string(), None);
    assert_eq!(
        banner("1.0", TaskKind::Apk, &tool),
        "\n  ╭ apk-mitm v1.0\n  ├ apktool v2.9.3\n  ╰ uber-apk-signer v1.3.0\n\n"
    );
    assert_eq!(
        banner("1.0", TaskKind::AppBundle, &tool),
        "\n  ╭ apk-mitm v1.0\n  ├ apktool v2.9.3\n  ├ uber-apk-signer v1.3.0\n  ╰ apk-editor v1.4.3\n\n"
    );
    assert_eq!(
        working_directory(true, "i", "t"),
        "  Patching from decoded apktool directory:\n  i\n\n"
    );
    assert_eq!(working_directory(false, "i", "t"), "  Using temporary directory:\n  t\n\n");
    assert_eq!(before_step(Step::Merge), "  Merging splits into universal APK ... ");
    assert_eq!(before_step(Step::EncodeAapt2), "  Encoding patched APK file\n");
    assert_eq!(before_step(Step::EncodeAapt), "");
    assert_eq!(after_success(Step::Sign), "✓\n");
    assert_eq!(after_success(Step::EncodeAapt2), "    ✓ Encoding using AAPT2\n");
    assert_eq!(after_success(Step::EncodeAapt), "    ✓ Encoding using AAPT fallback\n");
    assert_eq!(after_failure(Step::Sign, "e"), "✗\n");
    assert_eq!(
        after_failure(Step::EncodeAapt2, "e"),
        "    ! AAPT2 failed, falling back to AAPT: e\n"
    );
    assert_eq!(after_failure(Step::EncodeAapt, "e"), "");
    assert_eq!(wait_prompt(), "  Press Enter to continue.\n");
    assert_eq!(smali_scan_start(), "\n    Scanning Smali files...\n");
    assert_eq!(smali_scan_end(true), "");
    assert_eq!(smali_scan_end(false), "    No certificate pinning logic found.\n");
    assert_eq!(closing(TaskKind::Apk, false, "o"), "\n  Done! Patched file: ./o\n\n");
    assert!(closing(TaskKind::Apk, true, "o").starts_with("\n  WARNING\n"));
    assert!(!closing(TaskKind::AppBundle, true, "o").contains("WARNING"));
    assert_eq!(failure("e", false), "\n  Failed! An error occurred:\n\n  e\n\n");
    assert!(failure("e", true).contains("  NOTE\n\n  apk-mitm doesn't officially support ARM"));
}

#[test]
fn locations_are_joined() {
    let place = Location::at(Base::Temp).join("a").join("b");
    assert_eq!(place.path, "a/b");
    assert_eq!(place.base, Base::Temp);
    assert_eq!(Location::at(Base::Input).path, "");
}

#[test]
fn options_follow_the_arguments() {
    let info = determine_task(&file(Some("apk"), Some("app"))).unwrap();
    let args = Args {
        wait: true,
        debuggable: true,
        skip_patches: false,
        full_smali: true,
        maps_api_key: Some("key".to_string()),
    };
    let certificate = Certificate { file_name: Some("ca.pem".to_string()) };
    let apktool = Apktool::new("framework".to_string(), Some("a.jar".to_string()));
    let made = make_options(args, &info, Some(certificate), apktool);
    assert_eq!(made.input_path.base, Base::Input);
    assert_eq!(made.input_path.path, "");
    assert_eq!(made.output_path.base, Base::InputParent);
    assert_eq!(made.output_path.path, "app-patched.apk");
    assert!(made.wait && made.debuggable && made.full_smali);
    assert!(!made.skip_patches && !made.skip_decode);
    assert_eq!(made.maps_api_key, Some("key".to_string()));
    assert_eq!(made.certificate.unwrap().file_name, Some("ca.pem".to_string()));
    assert_eq!(made.apktool.custom_path, Some("a.jar".to_string()));
}

#[test]
fn temporary_directories() {
    assert!(removes_tmp_dir(false, false));
    assert!(!removes_tmp_dir(false, true));
    assert!(!removes_tmp_dir(true, false));
    assert!(!removes_tmp_dir(true, true));
}

#[test]
fn steps_run_programs() {
    let options = options();
    let paths = Paths {
        input: "in.apk".to_string(),
        decoded: "tmp/decode".to_string(),
        tmp_apk: "tmp/tmp.apk".to_string(),
        merged_apk: "tmp/merged.apk".to_string(),
    };
    let args = |step: Step| step_run(step, &options, &paths, true).map(|run| run.args.join(" "));
    let log = |step: Step| step_run(step, &options, &paths, true).unwrap().log_path.path;
    assert_eq!(args(Step::Merge).unwrap(), "m -i in.apk -o tmp/merged.apk");
    assert_eq!(
        args(Step::Decode).unwrap(),
        "decode in.apk --output tmp/decode --frame-path framework --no-src"
    );
    assert_eq!(
        args(Step::EncodeAapt2).unwrap(),
        "build tmp/decode --output tmp/tmp.apk --frame-path framework --use-aapt2"
    );
    assert_eq!(
        args(Step::EncodeAapt).unwrap(),
        "build tmp/decode --output tmp/tmp.apk --frame-path framework"
    );
    assert_eq!(args(Step::Sign).unwrap(), "--allowResign --overwrite --apks tmp/tmp.apk");
    assert_eq!(args(Step::CheckPrerequisites), None);
    assert_eq!(args(Step::ApplyPatches), None);
    assert_eq!(args(Step::Wait), None);
    assert_eq!(log(Step::Merge), "logs/merging.log");
    assert_eq!(log(Step::EncodeAapt2), "logs/encoding-aapt2.log");
    assert_eq!(log(Step::EncodeAapt), "logs/encoding-aapt.log");
    assert_eq!(merged_apk_path().base, Base::Temp);
    assert_eq!(merged_apk_path().path, "merged.apk");
}
