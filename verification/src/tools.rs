//! The Java programs that take an app apart and put it together again.
use crate::place::base_place;
use crate::place::inside;
use crate::place::Base;
use crate::place::Location;
use crate::place::Place;
use crate::text::lossy_text;
use crate::text::texts;
use crate::text::utf8_lossy;
use vstd::prelude::*;
use vstd::utf8::decode_utf8;
use vstd::utf8::valid_utf8;

verus! {

/// The version of Apktool that is used unless the user chose another one.
pub const APKTOOL_VERSION: &'static str = "2.9.3";

/// The version of uber-apk-signer that is used.
pub const UBER_APK_SIGNER_VERSION: &'static str = "1.3.0";

/// The version of APKEditor that is used.
pub const APKEDITOR_VERSION: &'static str = "1.4.3";

// ---------------------------------------------------------------------------------------------
// Files from the network
// ---------------------------------------------------------------------------------------------

/// A program that has to be there: where it is kept, where it is written while it is on its way, and
/// where it comes from.
#[derive(Debug)]
pub struct Download {
    pub path: Location,
    pub partial: Location,
    pub url: String,
}

/// The model of a `Download`.
pub struct Fetch {
    pub path: Place,
    pub partial: Place,
    pub url: Seq<char>,
}

impl View for Download {
    type V = Fetch;

    open spec fn view(&self) -> Fetch {
        Fetch { path: self.path@, partial: self.partial@, url: self.url@ }
    }
}

/// Where a program is kept: in the user's cache directory if there is one, otherwise below the
/// directory for temporary files.
pub open spec fn cached(user_cache: bool, name: Seq<char>) -> Place {
    inside(
        inside(
            if user_cache {
                base_place(Base::UserCache)
            } else {
                inside(base_place(Base::SystemTemp), "apk-mitm-cache"@)
            },
            "apk-mitm"@,
        ),
        name,
    )
}

/// The download of a program called `name`, which ends in `.jar`.
pub open spec fn fetch(user_cache: bool, name: Seq<char>, url: Seq<char>) -> Fetch {
    Fetch { path: cached(user_cache, name), partial: cached(user_cache, name + ".dl"@), url }
}

/// Where a program is kept.
pub fn cache_path(user_cache: bool, name: &str) -> (r: Location)
    ensures
        r@ == cached(user_cache, name@),
{
    let base = if user_cache {
        Location::at(Base::UserCache)
    } else {
        Location::at(Base::SystemTemp).join("apk-mitm-cache")
    };
    base.join("apk-mitm").join(name)
}

/// The download of a program called `name`.
fn download(user_cache: bool, name: String, url: String) -> (r: Download)
    ensures
        r@ == fetch(user_cache, name@, url@),
{
    let path = cache_path(user_cache, name.as_str());
    let partial = cache_path(user_cache, name.concat(".dl").as_str());
    Download { path, partial, url }
}

/// What the user is told when a program is fetched. A program that is there is not fetched again.
pub fn download_cached(exists: bool, download: &Download) -> (r: Option<String>)
    ensures
        exists ==> r is None,
        !exists ==> (r matches Some(s) && s@ == "\n    Downloading "@ + download.url@),
{
    if exists {
        None
    } else {
        Some("\n    Downloading ".to_string().concat(download.url.as_str()))
    }
}

// ---------------------------------------------------------------------------------------------
// Runs of a program
// ---------------------------------------------------------------------------------------------

/// A run of a Java program: the program, its arguments, the directory for logs, and where what it
/// prints is kept if it succeeds and if it fails.
#[derive(Debug)]
pub struct JarRun {
    pub jar: Location,
    pub args: Vec<String>,
    pub logs_dir: Location,
    pub log_path: Location,
    pub failed_path: Location,
}

/// The model of a `JarRun`.
pub struct Run {
    pub jar: Place,
    pub args: Seq<Seq<char>>,
    pub logs_dir: Place,
    pub log_path: Place,
    pub failed_path: Place,
}

impl View for JarRun {
    type V = Run;

    open spec fn view(&self) -> Run {
        Run {
            jar: self.jar@,
            args: texts(self.args@),
            logs_dir: self.logs_dir@,
            log_path: self.log_path@,
            failed_path: self.failed_path@,
        }
    }
}

/// The run of a program with the given arguments.
pub open spec fn run_of(jar: Place, args: Seq<Seq<char>>, log_name: Seq<char>) -> Run {
    let logs = inside(base_place(Base::Temp), "logs"@);
    Run {
        jar,
        args,
        logs_dir: logs,
        log_path: inside(logs, log_name + ".log"@),
        failed_path: inside(logs, log_name + ".failed.log"@),
    }
}

/// Prepares the run of a program.
pub fn run_jar(jar: Location, args: Vec<String>, log_name: &str) -> (r: JarRun)
    ensures
        r@ == run_of(jar@, texts(args@), log_name@),
{
    let logs_dir = Location::at(Base::Temp).join("logs");
    let log_path = logs_dir.join(log_name.to_string().concat(".log").as_str());
    let failed_path = logs_dir.join(log_name.to_string().concat(".failed.log").as_str());
    JarRun { jar, args, logs_dir, log_path, failed_path }
}

/// What a program printed, for the log: its output followed by its messages.
pub fn combined_output(stdout: &[u8], stderr: &[u8]) -> (r: Vec<u8>)
    ensures
        r@ == stdout@ + stderr@,
{
    let mut r: Vec<u8> = Vec::new();
    for i in 0..stdout.len()
        invariant
            r@ == stdout@.take(i as int),
    {
        r.push(stdout[i]);
    }
    assert(stdout@.take(stdout@.len() as int) + stderr@.take(0) == stdout@);
    for i in 0..stderr.len()
        invariant
            r@ == stdout@ + stderr@.take(i as int),
    {
        r.push(stderr[i]);
        assert(stdout@ + stderr@.take(i + 1) == (stdout@ + stderr@.take(i as int)).push(
            stderr@[i as int],
        ));
    }
    assert(stderr@.take(stderr@.len() as int) == stderr@);
    r
}

/// The outcome of a run: a program that failed is reported with the place of its log and all that it
/// printed, as it is if that is valid UTF-8.
pub fn jar_result(success: bool, failed_path: &str, combined: &[u8]) -> (r: Result<(), String>)
    ensures
        success ==> r is Ok,
        !success ==> (r matches Err(message) && message@ == "Command failed (see "@ + failed_path@
            + "):\n"@ + lossy_text(combined@)),
        !success && valid_utf8(combined@) ==> lossy_text(combined@) == decode_utf8(combined@),
{
    if success {
        Ok(())
    } else {
        Err(
            "Command failed (see ".to_string().concat(failed_path).concat("):\n").concat(
                utf8_lossy(combined).as_str(),
            ),
        )
    }
}

// ---------------------------------------------------------------------------------------------
// Apktool
// ---------------------------------------------------------------------------------------------

/// The program that decodes and encodes packages. The custom path is there if the user chose an
/// Apktool.
#[derive(Debug)]
pub struct Apktool {
    pub framework_path: String,
    pub custom_path: Option<String>,
}

/// The file name of the Apktool that is not the user's own.
pub open spec fn apktool_file() -> Seq<char> {
    "apktool-v"@ + APKTOOL_VERSION@ + ".jar"@
}

/// Where the Apktool that is not the user's own comes from.
pub open spec fn apktool_url() -> Seq<char> {
    "https://github.com/iBotPeaches/Apktool/releases/download/v"@ + APKTOOL_VERSION@ + "/apktool_"@
        + APKTOOL_VERSION@ + ".jar"@
}

impl Apktool {
    /// Where the program is.
    pub open spec fn jar(self, user_cache: bool) -> Place {
        match self.custom_path {
            Some(_) => base_place(Base::CustomApktool),
            None => cached(user_cache, apktool_file()),
        }
    }

    /// The arguments for a package at `input` and a directory at `output`, or the other way round.
    pub open spec fn common_args(
        self,
        command: Seq<char>,
        input: Seq<char>,
        output: Seq<char>,
    ) -> Seq<Seq<char>> {
        seq![command, input, "--output"@, output, "--frame-path"@, self.framework_path@]
    }

    /// The arguments that decode a package; its code is left alone unless asked for.
    pub open spec fn decoding(self, input: Seq<char>, output: Seq<char>, sources: bool) -> Seq<
        Seq<char>,
    > {
        if sources {
            self.common_args("decode"@, input, output)
        } else {
            self.common_args("decode"@, input, output).push("--no-src"@)
        }
    }

    /// The arguments that encode a package.
    pub open spec fn encoding(self, input: Seq<char>, output: Seq<char>, aapt2: bool) -> Seq<
        Seq<char>,
    > {
        if aapt2 {
            self.common_args("build"@, input, output).push("--use-aapt2"@)
        } else {
            self.common_args("build"@, input, output)
        }
    }

    /// An Apktool that keeps frameworks at the given path.
    pub fn new(framework_path: String, custom_path: Option<String>) -> (r: Self)
        ensures
            r.framework_path == framework_path,
            r.custom_path == custom_path,
    {
        Apktool { framework_path, custom_path }
    }

    /// How the version is shown to the user.
    pub fn version_name(&self) -> (r: String)
        ensures
            r@ == match self.custom_path {
                Some(_) => "custom version"@,
                None => "v"@ + APKTOOL_VERSION@,
            },
    {
        if self.custom_path.is_some() {
            "custom version".to_string()
        } else {
            "v".to_string().concat(APKTOOL_VERSION)
        }
    }

    /// Where the program is.
    pub fn jar_path(&self, user_cache: bool) -> (r: Location)
        ensures
            r@ == self.jar(user_cache),
    {
        if self.custom_path.is_some() {
            Location::at(Base::CustomApktool)
        } else {
            cache_path(
                user_cache,
                "apktool-v".to_string().concat(APKTOOL_VERSION).concat(".jar").as_str(),
            )
        }
    }

    /// What has to be fetched before the program can run: nothing if the user chose an Apktool.
    pub fn ensure_downloaded(&self, user_cache: bool) -> (r: Option<Download>)
        ensures
            match self.custom_path {
                Some(_) => r is None,
                None => r matches Some(d) && d@ == fetch(user_cache, apktool_file(), apktool_url())
                    && d.path@ == self.jar(user_cache),
            },
    {
        if self.custom_path.is_some() {
            return None;
        }
        Some(
            download(
                user_cache,
                "apktool-v".to_string().concat(APKTOOL_VERSION).concat(".jar"),
                "https://github.com/iBotPeaches/Apktool/releases/download/v".to_string().concat(
                    APKTOOL_VERSION,
                ).concat("/apktool_").concat(APKTOOL_VERSION).concat(".jar"),
            ),
        )
    }

    /// The run that decodes a package.
    pub fn decode(&self, input: &str, output: &str, decode_sources: bool, user_cache: bool) -> (r:
        JarRun)
        ensures
            r@ == run_of(
                self.jar(user_cache),
                self.decoding(input@, output@, decode_sources),
                "decoding"@,
            ),
    {
        let args = self.decode_args(input, output, decode_sources);
        self.run(args, "decoding", user_cache)
    }

    /// The arguments that decode a package.
    pub fn decode_args(&self, input: &str, output: &str, decode_sources: bool) -> (r: Vec<String>)
        ensures
            texts(r@) == self.decoding(input@, output@, decode_sources),
    {
        let mut args = self.args_for("decode", input, output);
        if !decode_sources {
            let ghost before = args@;
            args.push("--no-src".to_string());
            assert(texts(args@) == texts(before).push("--no-src"@));
        }
        args
    }

    /// The arguments that do not depend on how the command is done.
    fn args_for(&self, command: &str, input: &str, output: &str) -> (r: Vec<String>)
        ensures
            texts(r@) == self.common_args(command@, input@, output@),
    {
        let r: Vec<String> =
            vec![
            command.to_string(),
            input.to_string(),
            "--output".to_string(),
            output.to_string(),
            "--frame-path".to_string(),
            self.framework_path.clone(),
        ];
        assert(texts(r@) == self.common_args(command@, input@, output@));
        r
    }

    /// The run that encodes a package.
    pub fn encode(&self, input: &str, output: &str, use_aapt2: bool, user_cache: bool) -> (r: JarRun)
        ensures
            r@ == run_of(
                self.jar(user_cache),
                self.encoding(input@, output@, use_aapt2),
                if use_aapt2 {
                    "encoding-aapt2"@
                } else {
                    "encoding-aapt"@
                },
            ),
    {
        let mut args = self.args_for("build", input, output);
        if use_aapt2 {
            let ghost before = args@;
            args.push("--use-aapt2".to_string());
            assert(texts(args@) == texts(before).push("--use-aapt2"@));
        }
        self.run(
            args,
            if use_aapt2 {
                "encoding-aapt2"
            } else {
                "encoding-aapt"
            },
            user_cache,
        )
    }

    /// The run of the program with the given arguments.
    pub fn run(&self, args: Vec<String>, log_name: &str, user_cache: bool) -> (r: JarRun)
        ensures
            r@ == run_of(self.jar(user_cache), texts(args@), log_name@),
    {
        run_jar(self.jar_path(user_cache), args, log_name)
    }

    /// The same program once more.
    pub fn copy(&self) -> (r: Self)
        ensures
            r == *self,
    {
        Apktool {
            framework_path: self.framework_path.clone(),
            custom_path: match &self.custom_path {
                Some(path) => Some(path.clone()),
                None => None,
            },
        }
    }
}

// ---------------------------------------------------------------------------------------------
// uber-apk-signer
// ---------------------------------------------------------------------------------------------

/// The program that aligns and signs packages.
#[derive(Debug, Clone, Copy)]
pub struct UberApkSigner;

/// The file name of the signer.
pub open spec fn signer_file() -> Seq<char> {
    "uber-apk-signer-v"@ + UBER_APK_SIGNER_VERSION@ + ".jar"@
}

/// Where the signer comes from.
pub open spec fn signer_url() -> Seq<char> {
    "https://github.com/patrickfav/uber-apk-signer/releases/download/v"@ + UBER_APK_SIGNER_VERSION@
        + "/uber-apk-signer-"@ + UBER_APK_SIGNER_VERSION@ + ".jar"@
}

/// The arguments that name the packages to be signed.
pub open spec fn packages(paths: Seq<Seq<char>>) -> Seq<Seq<char>>
    decreases paths.len(),
{
    if paths.len() == 0 {
        Seq::empty()
    } else {
        packages(paths.drop_last()).push("--apks"@).push(paths.last())
    }
}

/// The arguments that sign packages.
pub open spec fn signing(paths: Seq<Seq<char>>, zipalign: bool) -> Seq<Seq<char>> {
    if zipalign {
        seq!["--allowResign"@, "--overwrite"@] + packages(paths)
    } else {
        seq!["--allowResign"@, "--overwrite"@, "--skipZipAlign"@] + packages(paths)
    }
}

impl UberApkSigner {
    /// The signer.
    pub fn new() -> (r: Self)
        ensures
            r == UberApkSigner,
    {
        UberApkSigner
    }

    /// How the version is shown to the user.
    pub fn version_name(&self) -> (r: String)
        ensures
            r@ == "v"@ + UBER_APK_SIGNER_VERSION@,
    {
        "v".to_string().concat(UBER_APK_SIGNER_VERSION)
    }

    /// Where the program is.
    pub fn jar_path(&self, user_cache: bool) -> (r: Location)
        ensures
            r@ == cached(user_cache, signer_file()),
    {
        cache_path(
            user_cache,
            "uber-apk-signer-v".to_string().concat(UBER_APK_SIGNER_VERSION).concat(".jar").as_str(),
        )
    }

    /// What has to be fetched before the program can run.
    pub fn ensure_downloaded(&self, user_cache: bool) -> (r: Download)
        ensures
            r@ == fetch(user_cache, signer_file(), signer_url()),
    {
        download(
            user_cache,
            "uber-apk-signer-v".to_string().concat(UBER_APK_SIGNER_VERSION).concat(".jar"),
            "https://github.com/patrickfav/uber-apk-signer/releases/download/v".to_string().concat(
                UBER_APK_SIGNER_VERSION,
            ).concat("/uber-apk-signer-").concat(UBER_APK_SIGNER_VERSION).concat(".jar"),
        )
    }

    /// The run that signs packages in place.
    pub fn sign(&self, input_paths: &Vec<String>, zipalign: bool, user_cache: bool) -> (r: JarRun)
        ensures
            r@ == run_of(
                cached(user_cache, signer_file()),
                signing(texts(input_paths@), zipalign),
                "signing"@,
            ),
    {
        let mut args: Vec<String> = vec!["--allowResign".to_string(), "--overwrite".to_string()];
        if !zipalign {
            args.push("--skipZipAlign".to_string());
        }
        let ghost head = texts(args@);
        let ghost paths = texts(input_paths@);
        proof {
            assert(packages(paths.take(0)) == Seq::<Seq<char>>::empty());
            assert(head == head + packages(paths.take(0)));
            if zipalign {
                assert(head == seq!["--allowResign"@, "--overwrite"@]);
            } else {
                assert(head == seq!["--allowResign"@, "--overwrite"@, "--skipZipAlign"@]);
            }
        }
        for i in 0..input_paths.len()
            invariant
                paths == texts(input_paths@),
                texts(args@) == head + packages(paths.take(i as int)),
        {
            let ghost before = args@;
            args.push("--apks".to_string());
            args.push(input_paths[i].clone());
            proof {
                assert(paths.take(i + 1).drop_last() == paths.take(i as int));
                assert(texts(args@) == texts(before).push("--apks"@).push(paths[i as int]));
                assert(head + packages(paths.take(i + 1)) == (head + packages(
                    paths.take(i as int),
                )).push("--apks"@).push(paths[i as int]));
            }
        }
        assert(paths.take(paths.len() as int) == paths);
        run_jar(self.jar_path(user_cache), args, "signing")
    }
}

// ---------------------------------------------------------------------------------------------
// APKEditor
// ---------------------------------------------------------------------------------------------

/// The program that merges the packages of a bundle into one.
#[derive(Debug, Clone, Copy)]
pub struct ApkEditor;

/// The file name of the editor.
pub open spec fn editor_file() -> Seq<char> {
    "APKEditor-"@ + APKEDITOR_VERSION@ + ".jar"@
}

/// Where the editor comes from.
pub open spec fn editor_url() -> Seq<char> {
    "https://github.com/REAndroid/APKEditor/releases/download/V"@ + APKEDITOR_VERSION@
        + "/APKEditor-"@ + APKEDITOR_VERSION@ + ".jar"@
}

impl ApkEditor {
    /// The editor.
    pub fn new() -> (r: Self)
        ensures
            r == ApkEditor,
    {
        ApkEditor
    }

    /// How the version is shown to the user.
    pub fn version_name(&self) -> (r: String)
        ensures
            r@ == "v"@ + APKEDITOR_VERSION@,
    {
        "v".to_string().concat(APKEDITOR_VERSION)
    }

    /// Where the program is.
    pub fn jar_path(&self, user_cache: bool) -> (r: Location)
        ensures
            r@ == cached(user_cache, editor_file()),
    {
        cache_path(
            user_cache,
            "APKEditor-".to_string().concat(APKEDITOR_VERSION).concat(".jar").as_str(),
        )
    }

    /// What has to be fetched before the program can run.
    pub fn ensure_downloaded(&self, user_cache: bool) -> (r: Download)
        ensures
            r@ == fetch(user_cache, editor_file(), editor_url()),
    {
        download(
            user_cache,
            "APKEditor-".to_string().concat(APKEDITOR_VERSION).concat(".jar"),
            "https://github.com/REAndroid/APKEditor/releases/download/V".to_string().concat(
                APKEDITOR_VERSION,
            ).concat("/APKEditor-").concat(APKEDITOR_VERSION).concat(".jar"),
        )
    }

    /// The run that merges the bundle at `input` into one package at `output`.
    pub fn merge(&self, input: &str, output: &str, user_cache: bool) -> (r: JarRun)
        ensures
            r@ == run_of(
                cached(user_cache, editor_file()),
                seq!["m"@, "-i"@, input@, "-o"@, output@],
                "merging"@,
            ),
    {
        let args: Vec<String> =
            vec![
            "m".to_string(),
            "-i".to_string(),
            input.to_string(),
            "-o".to_string(),
            output.to_string(),
        ];
        assert(texts(args@) == seq!["m"@, "-i"@, input@, "-o"@, output@]);
        run_jar(self.jar_path(user_cache), args, "merging")
    }
}

// ---------------------------------------------------------------------------------------------
// Laws
// ---------------------------------------------------------------------------------------------

/// The code of a package is left alone unless asked for: the argument for that is there if and only if
/// the sources are not to be decoded. No other argument depends on it.
pub proof fn law_sources_are_opt_in(tool: Apktool, input: Seq<char>, output: Seq<char>)
    ensures
        tool.decoding(input, output, false) == tool.decoding(input, output, true).push("--no-src"@),
        tool.decoding(input, output, false).contains("--no-src"@),
        input != "--no-src"@ && output != "--no-src"@ && tool.framework_path@ != "--no-src"@
            ==> !tool.decoding(input, output, true).contains("--no-src"@),
{
    reveal_strlit("--no-src");
    reveal_strlit("decode");
    reveal_strlit("--output");
    reveal_strlit("--frame-path");
    let short = tool.decoding(input, output, true);
    let long = tool.decoding(input, output, false);
    assert(long.last() == "--no-src"@);
    assert("decode"@.len() != "--no-src"@.len());
    assert("--output"@[2] != "--no-src"@[2]);
    assert("--frame-path"@.len() != "--no-src"@.len());
}

/// A program on its way is never where the program itself is looked for.
pub proof fn law_partial_is_apart(user_cache: bool, name: Seq<char>, url: Seq<char>)
    ensures
        fetch(user_cache, name, url).partial != fetch(user_cache, name, url).path,
{
    reveal_strlit(".dl");
    reveal_strlit("apk-mitm");
    let f = fetch(user_cache, name, url);
    assert((name + ".dl"@).len() == name.len() + 3);
    assert(f.partial.path.len() == f.path.path.len() + 3);
}

/// The versions of the programs, the files that they are kept in and the addresses that they come from.
pub proof fn law_programs()
    ensures
        apktool_file() == "apktool-v2.9.3.jar"@,
        apktool_url()
            == "https://github.com/iBotPeaches/Apktool/releases/download/v2.9.3/apktool_2.9.3.jar"@,
        signer_file() == "uber-apk-signer-v1.3.0.jar"@,
        signer_url()
            == "https://github.com/patrickfav/uber-apk-signer/releases/download/v1.3.0/uber-apk-signer-1.3.0.jar"@,
        editor_file() == "APKEditor-1.4.3.jar"@,
        editor_url()
            == "https://github.com/REAndroid/APKEditor/releases/download/V1.4.3/APKEditor-1.4.3.jar"@,
{
    reveal_strlit(".jar");
    assert(apktool_file() == "apktool-v2.9.3.jar"@) by {
        reveal_strlit("2.9.3");
        reveal_strlit("apktool-v");
        reveal_strlit("apktool-v2.9.3.jar");
    }
    assert(apktool_url()
        == "https://github.com/iBotPeaches/Apktool/releases/download/v2.9.3/apktool_2.9.3.jar"@) by {
        reveal_strlit("2.9.3");
        reveal_strlit("https://github.com/iBotPeaches/Apktool/releases/download/v");
        reveal_strlit("/apktool_");
        reveal_strlit(
            "https://github.com/iBotPeaches/Apktool/releases/download/v2.9.3/apktool_2.9.3.jar",
        );
    }
    assert(signer_file() == "uber-apk-signer-v1.3.0.jar"@) by {
        reveal_strlit("1.3.0");
        reveal_strlit("uber-apk-signer-v");
        reveal_strlit("uber-apk-signer-v1.3.0.jar");
    }
    assert(signer_url()
        == "https://github.com/patrickfav/uber-apk-signer/releases/download/v1.3.0/uber-apk-signer-1.3.0.jar"@)
        by {
        reveal_strlit("1.3.0");
        reveal_strlit("https://github.com/patrickfav/uber-apk-signer/releases/download/v");
        reveal_strlit("/uber-apk-signer-");
        reveal_strlit(
            "https://github.com/patrickfav/uber-apk-signer/releases/download/v1.3.0/uber-apk-signer-1.3.0.jar",
        );
    }
    assert(editor_file() == "APKEditor-1.4.3.jar"@) by {
        reveal_strlit("1.4.3");
        reveal_strlit("APKEditor-");
        reveal_strlit("APKEditor-1.4.3.jar");
    }
    assert(editor_url()
        == "https://github.com/REAndroid/APKEditor/releases/download/V1.4.3/APKEditor-1.4.3.jar"@) by {
        reveal_strlit("1.4.3");
        reveal_strlit("https://github.com/REAndroid/APKEditor/releases/download/V");
        reveal_strlit("/APKEditor-");
        reveal_strlit(
            "https://github.com/REAndroid/APKEditor/releases/download/V1.4.3/APKEditor-1.4.3.jar",
        );
    }
}

/// Programs are kept below the user's cache directory, and below the directory for temporary files where
/// there is none. One that is on its way has the same place with `.dl` added, and is renamed only when
/// all of it is there.
pub proof fn law_programs_are_cached(name: Seq<char>, url: Seq<char>)
    ensures
        fetch(true, name, url) == (Fetch {
            path: Place { base: Base::UserCache, path: "apk-mitm/"@ + name },
            partial: Place { base: Base::UserCache, path: "apk-mitm/"@ + name + ".dl"@ },
            url,
        }),
        fetch(false, name, url) == (Fetch {
            path: Place { base: Base::SystemTemp, path: "apk-mitm-cache/apk-mitm/"@ + name },
            partial: Place {
                base: Base::SystemTemp,
                path: "apk-mitm-cache/apk-mitm/"@ + name + ".dl"@,
            },
            url,
        }),
        cached(true, name) == fetch(true, name, url).path,
        cached(false, name) == fetch(false, name, url).path,
{
    reveal_strlit("/");
    reveal_strlit("apk-mitm");
    reveal_strlit("apk-mitm/");
    reveal_strlit("apk-mitm-cache");
    reveal_strlit("apk-mitm-cache/apk-mitm/");
    assert forall|n: Seq<char>| #[trigger] cached(true, n).path == "apk-mitm/"@ + n by {
        assert("apk-mitm"@ + "/"@ + n == "apk-mitm/"@ + n);
    }
    assert forall|n: Seq<char>| #[trigger]
        cached(false, n).path == "apk-mitm-cache/apk-mitm/"@ + n by {
        assert("apk-mitm-cache"@ + "/"@ + "apk-mitm"@ + "/"@ + n == "apk-mitm-cache/apk-mitm/"@ + n);
    }
    let partial = name + ".dl"@;
    assert("apk-mitm/"@ + partial == "apk-mitm/"@ + name + ".dl"@);
    assert("apk-mitm-cache/apk-mitm/"@ + partial == "apk-mitm-cache/apk-mitm/"@ + name + ".dl"@);
    assert(cached(true, partial).path == "apk-mitm/"@ + partial);
    assert(cached(false, partial).path == "apk-mitm-cache/apk-mitm/"@ + partial);
    assert(cached(true, name).path == "apk-mitm/"@ + name);
    assert(cached(false, name).path == "apk-mitm-cache/apk-mitm/"@ + name);
}

/// What a program prints goes to a log of its own, and to another place if the program fails.
pub proof fn law_runs_are_logged(jar: Place, args: Seq<Seq<char>>, log_name: Seq<char>)
    ensures
        run_of(jar, args, log_name) == (Run {
            jar,
            args,
            logs_dir: Place { base: Base::Temp, path: "logs"@ },
            log_path: Place { base: Base::Temp, path: "logs/"@ + log_name + ".log"@ },
            failed_path: Place { base: Base::Temp, path: "logs/"@ + log_name + ".failed.log"@ },
        }),
        run_of(jar, args, log_name).log_path != run_of(jar, args, log_name).failed_path,
{
    reveal_strlit("/");
    reveal_strlit("logs");
    reveal_strlit("logs/");
    reveal_strlit(".log");
    reveal_strlit(".failed.log");
    assert("logs"@ + "/"@ + (log_name + ".log"@) == "logs/"@ + log_name + ".log"@);
    assert("logs"@ + "/"@ + (log_name + ".failed.log"@) == "logs/"@ + log_name + ".failed.log"@);
    assert(("logs/"@ + log_name + ".log"@).len() != ("logs/"@ + log_name + ".failed.log"@).len());
}

/// The Apktool of the user is used where there is one, and nothing else depends on it: the arguments are
/// the same for both.
pub proof fn law_own_apktool_is_used(
    tool: Apktool,
    other: Apktool,
    user_cache: bool,
    input: Seq<char>,
    output: Seq<char>,
    flag: bool,
)
    requires
        tool.framework_path@ == other.framework_path@,
    ensures
        tool.custom_path is Some ==> tool.jar(user_cache) == (Place {
            base: Base::CustomApktool,
            path: Seq::empty(),
        }),
        tool.custom_path is None ==> tool.jar(user_cache) == cached(
            user_cache,
            "apktool-v2.9.3.jar"@,
        ),
        tool.decoding(input, output, flag) == other.decoding(input, output, flag),
        tool.encoding(input, output, flag) == other.encoding(input, output, flag),
{
    law_programs();
}

/// Every package that is to be signed is named, after `--apks` and in order, and none else is; alignment
/// is left out only if asked for.
pub proof fn law_packages_are_named(paths: Seq<Seq<char>>, zipalign: bool)
    ensures
        ({
            let args = signing(paths, zipalign);
            let head = if zipalign {
                seq!["--allowResign"@, "--overwrite"@]
            } else {
                seq!["--allowResign"@, "--overwrite"@, "--skipZipAlign"@]
            };
            &&& args.take(head.len() as int) == head
            &&& args.len() == head.len() + 2 * paths.len()
            &&& forall|i: int|
                0 <= i < paths.len() ==> args.subrange(head.len() + 2 * i, head.len() + 2 * i + 2)
                    == seq!["--apks"@, #[trigger] paths[i]]
        }),
{
    lemma_packages(paths);
    let head = if zipalign {
        seq!["--allowResign"@, "--overwrite"@]
    } else {
        seq!["--allowResign"@, "--overwrite"@, "--skipZipAlign"@]
    };
    let args = signing(paths, zipalign);
    assert(args == head + packages(paths));
    assert(args.take(head.len() as int) == head);
    assert forall|i: int| 0 <= i < paths.len() implies args.subrange(
        head.len() + 2 * i,
        head.len() + 2 * i + 2,
    ) == seq!["--apks"@, #[trigger] paths[i]] by {
        assert(packages(paths).subrange(2 * i, 2 * i + 2) == args.subrange(
            head.len() + 2 * i,
            head.len() + 2 * i + 2,
        ));
    }
}

proof fn lemma_packages(paths: Seq<Seq<char>>)
    ensures
        packages(paths).len() == 2 * paths.len(),
        forall|i: int|
            0 <= i < paths.len() ==> packages(paths).subrange(2 * i, 2 * i + 2) == seq![
                "--apks"@,
                #[trigger] paths[i],
            ],
    decreases paths.len(),
{
    if paths.len() > 0 {
        let front = paths.drop_last();
        lemma_packages(front);
        let all = packages(paths);
        assert forall|i: int| 0 <= i < paths.len() implies all.subrange(2 * i, 2 * i + 2) == seq![
            "--apks"@,
            #[trigger] paths[i],
        ] by {
            if i < front.len() {
                assert(front[i] == paths[i]);
                assert(all.subrange(2 * i, 2 * i + 2) == packages(front).subrange(2 * i, 2 * i + 2));
            } else {
                assert(all.subrange(2 * i, 2 * i + 2) == seq!["--apks"@, paths[i]]);
            }
        }
    }
}

/// The models of runs and downloads hold all there is to them.
pub proof fn law_models_of_programs(run: JarRun, download: Download)
    ensures
        run@ == (Run {
            jar: run.jar@,
            args: texts(run.args@),
            logs_dir: run.logs_dir@,
            log_path: run.log_path@,
            failed_path: run.failed_path@,
        }),
        download@ == (Fetch {
            path: download.path@,
            partial: download.partial@,
            url: download.url@,
        }),
        run.jar@ == (Place { base: run.jar.base, path: run.jar.path@ }),
{
}

} // verus!
