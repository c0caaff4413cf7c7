//! The steps of a run, from the input to the signed package.
use crate::java::decimal;
use crate::java::to_decimal;
use crate::manifest::all_is_found;
use crate::manifest::application_tag;
use crate::manifest::has_tag;
use crate::manifest::is_split;
use crate::manifest::modified;
use crate::manifest::modify_manifest;
use crate::manifest::ManifestError;
use crate::network_config::certificate_file;
use crate::network_config::config_of;
use crate::network_config::copy_certificate_file;
use crate::network_config::create_network_security_config;
use crate::network_config::Certificate;
use crate::ordinary::ordinary;
use crate::place::base_place;
use crate::place::inside;
use crate::place::Base;
use crate::place::Location;
use crate::place::Place;
use crate::task::TaskInfo;
use crate::task::TaskKind;
use crate::text::contains_text;
use crate::text::texts;
use crate::tools::apktool_file;
use crate::tools::apktool_url;
use crate::tools::cached;
use crate::tools::editor_file;
use crate::tools::editor_url;
use crate::tools::fetch;
use crate::tools::law_programs;
use crate::tools::law_runs_are_logged;
use crate::tools::law_sources_are_opt_in;
use crate::tools::packages;
use crate::tools::run_of;
use crate::tools::signer_file;
use crate::tools::signer_url;
use crate::tools::signing;
use crate::tools::ApkEditor;
use crate::tools::Apktool;
use crate::tools::Download;
use crate::tools::Fetch;
use crate::tools::JarRun;
use crate::tools::Run;
use crate::tools::UberApkSigner;
use vstd::prelude::*;

verus! {

/// What the user asked for.
#[derive(Debug)]
pub struct Options {
    pub input_path: Location,
    pub output_path: Location,
    pub skip_patches: bool,
    pub full_smali: bool,
    pub certificate: Option<Certificate>,
    pub maps_api_key: Option<String>,
    pub apktool: Apktool,
    pub signer: UberApkSigner,
    pub wait: bool,
    pub debuggable: bool,
    pub skip_decode: bool,
}

/// What the user may ask for beside the input.
#[derive(Debug)]
pub struct Args {
    pub wait: bool,
    pub debuggable: bool,
    pub skip_patches: bool,
    pub full_smali: bool,
    pub maps_api_key: Option<String>,
}

/// Puts together what is to be done with an input.
pub fn make_options(
    args: Args,
    info: &TaskInfo,
    certificate: Option<Certificate>,
    apktool: Apktool,
) -> (r: Options)
    ensures
        r.input_path@ == base_place(Base::Input),
        r == (Options {
            input_path: r.input_path,
            output_path: info.output_path,
            skip_patches: args.skip_patches,
            full_smali: args.full_smali,
            certificate,
            maps_api_key: args.maps_api_key,
            apktool,
            signer: UberApkSigner,
            wait: args.wait,
            debuggable: args.debuggable,
            skip_decode: info.skip_decode,
        }),
{
    Options {
        input_path: Location::at(Base::Input),
        output_path: info.output_path.copy(),
        skip_patches: args.skip_patches,
        full_smali: args.full_smali,
        certificate,
        maps_api_key: args.maps_api_key,
        apktool,
        signer: UberApkSigner::new(),
        wait: args.wait,
        debuggable: args.debuggable,
        skip_decode: info.skip_decode,
    }
}

/// Whether the temporary directory is removed at the end, however the run ended: neither one that the
/// user chose nor one that the user wants kept is.
pub fn removes_tmp_dir(chosen: bool, keep_tmp_dir: bool) -> (r: bool)
    ensures
        r == (!chosen && !keep_tmp_dir),
{
    !chosen && !keep_tmp_dir
}

// ---------------------------------------------------------------------------------------------
// Prerequisites
// ---------------------------------------------------------------------------------------------

/// The installed Java is too old.
#[derive(Debug, Clone, Copy)]
pub struct JavaTooOld {
    pub major: u32,
}

impl JavaTooOld {
    /// What the user is told.
    pub fn message(&self) -> (r: String)
        ensures
            r@ == "apk-mitm requires at least Java 8; found Java "@ + decimal(self.major as nat)
                + "."@,
    {
        "apk-mitm requires at least Java 8; found Java ".to_string().concat(
            to_decimal(self.major).as_str(),
        ).concat(".")
    }
}

/// The views of a list of downloads.
pub open spec fn fetches(list: Seq<Download>) -> Seq<Fetch> {
    Seq::new(list.len(), |i: int| list[i]@)
}

/// The programs that have to be there, in the order in which they are fetched.
pub open spec fn needed(apktool: Apktool, user_cache: bool) -> Seq<Fetch> {
    let signer = fetch(user_cache, signer_file(), signer_url());
    match apktool.custom_path {
        Some(_) => seq![signer],
        None => seq![fetch(user_cache, apktool_file(), apktool_url()), signer],
    }
}

/// Checks the version of Java; the programs that have to be there are the result.
pub fn check_prerequisites(java_major: u32, options: &Options, user_cache: bool) -> (r: Result<
    Vec<Download>,
    JavaTooOld,
>)
    ensures
        java_major < 8 ==> (r matches Err(e) && e.major == java_major),
        java_major >= 8 ==> (r matches Ok(list) && fetches(list@) == needed(
            options.apktool,
            user_cache,
        )),
{
    if java_major < 8 {
        return Err(JavaTooOld { major: java_major });
    }
    let mut list: Vec<Download> = Vec::new();
    if let Some(d) = options.apktool.ensure_downloaded(user_cache) {
        list.push(d);
    }
    list.push(options.signer.ensure_downloaded(user_cache));
    assert(fetches(list@) == needed(options.apktool, user_cache));
    Ok(list)
}

// ---------------------------------------------------------------------------------------------
// Places
// ---------------------------------------------------------------------------------------------

/// The directory with the decoded app: the input itself if it is one.
pub open spec fn decoded(options: Options) -> Place {
    if options.skip_decode {
        options.input_path@
    } else {
        inside(base_place(Base::Temp), "decode"@)
    }
}

/// The directory with the decoded app.
pub fn decode_dir(options: &Options) -> (r: Location)
    ensures
        r@ == decoded(*options),
{
    if options.skip_decode {
        options.input_path.copy()
    } else {
        Location::at(Base::Temp).join("decode")
    }
}

/// The package that is encoded and signed before it is copied to the output.
pub fn tmp_apk_path() -> (r: Location)
    ensures
        r@ == inside(base_place(Base::Temp), "tmp.apk"@),
{
    Location::at(Base::Temp).join("tmp.apk")
}

/// The package that a bundle is merged into.
pub fn merged_apk_path() -> (r: Location)
    ensures
        r@ == inside(base_place(Base::Temp), "merged.apk"@),
{
    Location::at(Base::Temp).join("merged.apk")
}

/// The same certificate once more.
fn copy_certificate(certificate: &Option<Certificate>) -> (r: Option<Certificate>)
    ensures
        r == *certificate,
{
    match certificate {
        Some(c) => Some(
            Certificate {
                file_name: match &c.file_name {
                    Some(name) => Some(name.clone()),
                    None => None,
                },
            },
        ),
        None => None,
    }
}

/// What is asked for once a bundle is merged: the same, with the merged package as the input.
pub fn patch_app_bundle(options: &Options) -> (r: Options)
    ensures
        r.input_path@ == inside(base_place(Base::Temp), "merged.apk"@),
        r == (Options { input_path: r.input_path, skip_decode: false, ..*options }),
{
    Options {
        input_path: merged_apk_path(),
        output_path: options.output_path.copy(),
        skip_patches: options.skip_patches,
        full_smali: options.full_smali,
        certificate: copy_certificate(&options.certificate),
        maps_api_key: match &options.maps_api_key {
            Some(key) => Some(key.clone()),
            None => None,
        },
        apktool: options.apktool.copy(),
        signer: options.signer,
        wait: options.wait,
        debuggable: options.debuggable,
        skip_decode: false,
    }
}

// ---------------------------------------------------------------------------------------------
// Patches
// ---------------------------------------------------------------------------------------------

/// What the patches write into the decoded app, in this order: the manifest, the certificate into its
/// directory, the network security configuration, and the Smali files if they are to be patched.
#[derive(Debug)]
pub struct PatchPlan {
    pub manifest_path: Location,
    pub manifest: String,
    pub certificate_dir: Option<Location>,
    pub config_path: Location,
    pub config: String,
    pub patch_smali: bool,
    pub uses_app_bundle: bool,
}

/// The name of the certificate's file, if there is a certificate.
pub open spec fn certificate_option(certificate: Option<Certificate>) -> Option<Seq<char>> {
    match certificate {
        Some(c) => Some(certificate_file(c)),
        None => None,
    }
}

/// The view of an optional key.
pub open spec fn key_option(key: Option<String>) -> Option<Seq<char>> {
    match key {
        Some(key) => Some(key@),
        None => None,
    }
}

/// The manifest of the decoded app.
pub fn manifest_path(decode_dir: &Location) -> (r: Location)
    ensures
        r@ == inside(decode_dir@, "AndroidManifest.xml"@),
{
    decode_dir.join("AndroidManifest.xml")
}

/// Works out the patches for an app with the given manifest.
pub fn apply_patches(manifest: &str, options: &Options) -> (r: Result<PatchPlan, ManifestError>)
    ensures
        application_tag(manifest@) is Some ==> (r matches Ok(plan) && {
            let dir = decoded(*options);
            &&& plan.manifest_path@ == inside(dir, "AndroidManifest.xml"@)
            &&& plan.manifest@ == modified(
                manifest@,
                options.debuggable,
                key_option(options.maps_api_key),
            )
            &&& match options.certificate {
                Some(_) => plan.certificate_dir matches Some(place) && place@ == inside(
                    dir,
                    "res/raw"@,
                ),
                None => plan.certificate_dir is None,
            }
            &&& plan.config_path@ == inside(dir, "res/xml/nsc_mitm.xml"@)
            &&& plan.config@ == config_of(certificate_option(options.certificate))
            &&& plan.patch_smali == options.full_smali
            &&& plan.uses_app_bundle == is_split(manifest@)
        }),
        application_tag(manifest@) is None ==> r == Err::<PatchPlan, ManifestError>(
            ManifestError::NoApplicationTag,
        ),
        r is Ok <==> has_tag(manifest@),
        all_is_found(manifest@, options.debuggable, key_option(options.maps_api_key)),
        ordinary(manifest@, options.debuggable, options.maps_api_key is Some) ==> (r matches Ok(plan) && {
            &&& contains_text(
                plan.manifest@,
                " android:networkSecurityConfig=\"@xml/nsc_mitm\""@,
            )
            &&& options.debuggable ==> contains_text(
                plan.manifest@,
                " android:debuggable=\"true\""@,
            )
        }),
{
    let dir = decode_dir(options);
    let key = match &options.maps_api_key {
        Some(key) => Some(key.as_str()),
        None => None,
    };
    match modify_manifest(manifest, options.debuggable, key) {
        Ok((changed, uses_app_bundle)) => {
            let (certificate_dir, config) = match &options.certificate {
                Some(c) => (
                    Some(copy_certificate_file(&dir)),
                    create_network_security_config(Some(c)),
                ),
                None => (None, create_network_security_config(None)),
            };
            Ok(
                PatchPlan {
                    manifest_path: manifest_path(&dir),
                    manifest: changed,
                    certificate_dir,
                    config_path: dir.join("res/xml/nsc_mitm.xml"),
                    config,
                    patch_smali: options.full_smali,
                    uses_app_bundle,
                },
            )
        },
        Err(e) => Err(e),
    }
}

// ---------------------------------------------------------------------------------------------
// Steps
// ---------------------------------------------------------------------------------------------

/// The steps of a run.
#[derive(Debug, Clone, Copy, PartialEq, Eq, Structural)]
pub enum Step {
    /// Java is checked and the programs are fetched.
    CheckPrerequisites,
    /// A bundle is merged into one package.
    Merge,
    /// The package is decoded.
    Decode,
    /// The decoded app is patched.
    ApplyPatches,
    /// The user changes the decoded app.
    Wait,
    /// The package is encoded with AAPT2.
    EncodeAapt2,
    /// The package is encoded with AAPT.
    EncodeAapt,
    /// The package is signed and copied to the output.
    Sign,
}

/// How a step ended.
#[derive(Debug, Clone, Copy, PartialEq, Eq, Structural)]
pub enum Event {
    /// It succeeded.
    Done,
    /// The patches were applied; the flag tells whether the app is delivered as several packages.
    Patched { uses_app_bundle: bool },
    /// It failed.
    Failed,
}

/// Where a run stands: the step that is to be done, whether there is one package to work on, and what
/// the patches found out.
#[derive(Debug, Clone, Copy, PartialEq, Eq, Structural)]
pub struct Job {
    pub step: Step,
    pub merged: bool,
    pub uses_app_bundle: bool,
}

/// How a run goes on.
#[derive(Debug, Clone, Copy, PartialEq, Eq, Structural)]
pub enum Progress {
    /// With another step.
    Continue(Job),
    /// Not at all: the output is written.
    Finished { uses_app_bundle: bool },
    /// Not at all: the step that failed cannot be made up for.
    Failed,
}

/// A run begins with the prerequisites.
pub open spec fn first_job(kind: TaskKind) -> Job {
    Job {
        step: Step::CheckPrerequisites,
        merged: kind == TaskKind::Apk,
        uses_app_bundle: false,
    }
}

/// The first step on the decoded app that is asked for.
pub open spec fn step_on_decoded(options: Options) -> Step {
    if !options.skip_patches {
        Step::ApplyPatches
    } else {
        step_after_patches(options)
    }
}

/// The step after the patches.
pub open spec fn step_after_patches(options: Options) -> Step {
    if options.wait {
        Step::Wait
    } else {
        Step::EncodeAapt2
    }
}

/// The step that follows one that succeeded; none follows the last.
pub open spec fn step_after(job: Job, options: Options) -> Option<Step> {
    match job.step {
        Step::CheckPrerequisites => Some(
            if !job.merged {
                Step::Merge
            } else if !options.skip_decode {
                Step::Decode
            } else {
                step_on_decoded(options)
            },
        ),
        Step::Merge => Some(Step::CheckPrerequisites),
        Step::Decode => Some(step_on_decoded(options)),
        Step::ApplyPatches => Some(step_after_patches(options)),
        Step::Wait => Some(Step::EncodeAapt2),
        Step::EncodeAapt2 => Some(Step::Sign),
        Step::EncodeAapt => Some(Step::Sign),
        Step::Sign => None,
    }
}

/// How a run goes on after an event. AAPT makes up for AAPT2; no other failure is made up for.
pub open spec fn progress(job: Job, options: Options, event: Event) -> Progress {
    let merged = job.merged || job.step == Step::Merge;
    let uses_app_bundle = match event {
        Event::Patched { uses_app_bundle } => uses_app_bundle,
        _ => job.uses_app_bundle,
    };
    if event == Event::Failed {
        if job.step == Step::EncodeAapt2 {
            Progress::Continue(Job { step: Step::EncodeAapt, ..job })
        } else {
            Progress::Failed
        }
    } else {
        match step_after(job, options) {
            Some(step) => Progress::Continue(Job { step, merged, uses_app_bundle }),
            None => Progress::Finished { uses_app_bundle },
        }
    }
}

/// Begins a run.
pub fn start(kind: TaskKind) -> (r: Job)
    ensures
        r == first_job(kind),
{
    let merged = match kind {
        TaskKind::Apk => true,
        TaskKind::AppBundle => false,
    };
    Job { step: Step::CheckPrerequisites, merged, uses_app_bundle: false }
}

/// The step after the patches.
fn after_patches(options: &Options) -> (r: Step)
    ensures
        r == step_after_patches(*options),
{
    if options.wait {
        Step::Wait
    } else {
        Step::EncodeAapt2
    }
}

/// The first step on the decoded app.
fn on_decoded(options: &Options) -> (r: Step)
    ensures
        r == step_on_decoded(*options),
{
    if !options.skip_patches {
        Step::ApplyPatches
    } else {
        after_patches(options)
    }
}

/// Works out how a run goes on after an event.
pub fn patch_apk(job: Job, options: &Options, event: Event) -> (r: Progress)
    ensures
        r == progress(job, *options, event),
{
    let uses_app_bundle = match event {
        Event::Patched { uses_app_bundle } => uses_app_bundle,
        Event::Done => job.uses_app_bundle,
        Event::Failed => {
            return match job.step {
                Step::EncodeAapt2 => Progress::Continue(
                    Job {
                        step: Step::EncodeAapt,
                        merged: job.merged,
                        uses_app_bundle: job.uses_app_bundle,
                    },
                ),
                _ => Progress::Failed,
            };
        },
    };
    let mut merged = job.merged;
    let step = match job.step {
        Step::CheckPrerequisites => {
            if !job.merged {
                Step::Merge
            } else if !options.skip_decode {
                Step::Decode
            } else {
                on_decoded(options)
            }
        },
        Step::Merge => {
            merged = true;
            Step::CheckPrerequisites
        },
        Step::Decode => on_decoded(options),
        Step::ApplyPatches => after_patches(options),
        Step::Wait => Step::EncodeAapt2,
        Step::EncodeAapt2 => Step::Sign,
        Step::EncodeAapt => Step::Sign,
        Step::Sign => {
            return Progress::Finished { uses_app_bundle };
        },
    };
    Progress::Continue(Job { step, merged, uses_app_bundle })
}

// ---------------------------------------------------------------------------------------------
// The programs of the steps
// ---------------------------------------------------------------------------------------------

/// The paths of the packages and directories of a run, as they are handed to programs.
#[derive(Debug)]
pub struct Paths {
    pub input: String,
    pub decoded: String,
    pub tmp_apk: String,
    pub merged_apk: String,
}

/// The program that a step runs, with its arguments, if it runs one.
pub open spec fn run_for(step: Step, options: Options, paths: Paths, user_cache: bool) -> Option<Run> {
    let tool = options.apktool;
    match step {
        Step::Merge => Some(
            run_of(
                cached(user_cache, editor_file()),
                seq!["m"@, "-i"@, paths.input@, "-o"@, paths.merged_apk@],
                "merging"@,
            ),
        ),
        Step::Decode => Some(
            run_of(
                tool.jar(user_cache),
                tool.decoding(paths.input@, paths.decoded@, options.full_smali),
                "decoding"@,
            ),
        ),
        Step::EncodeAapt2 => Some(
            run_of(
                tool.jar(user_cache),
                tool.encoding(paths.decoded@, paths.tmp_apk@, true),
                "encoding-aapt2"@,
            ),
        ),
        Step::EncodeAapt => Some(
            run_of(
                tool.jar(user_cache),
                tool.encoding(paths.decoded@, paths.tmp_apk@, false),
                "encoding-aapt"@,
            ),
        ),
        Step::Sign => Some(
            run_of(
                cached(user_cache, signer_file()),
                signing(seq![paths.tmp_apk@], true),
                "signing"@,
            ),
        ),
        Step::CheckPrerequisites => None,
        Step::ApplyPatches => None,
        Step::Wait => None,
    }
}

/// The program that a step runs.
pub fn step_run(step: Step, options: &Options, paths: &Paths, user_cache: bool) -> (r: Option<JarRun>)
    ensures
        match run_for(step, *options, *paths, user_cache) {
            Some(run) => r matches Some(j) && j@ == run,
            None => r is None,
        },
{
    match step {
        Step::Merge => Some(
            ApkEditor::new().merge(paths.input.as_str(), paths.merged_apk.as_str(), user_cache),
        ),
        Step::Decode => Some(
            options.apktool.decode(
                paths.input.as_str(),
                paths.decoded.as_str(),
                options.full_smali,
                user_cache,
            ),
        ),
        Step::EncodeAapt2 => Some(
            options.apktool.encode(
                paths.decoded.as_str(),
                paths.tmp_apk.as_str(),
                true,
                user_cache,
            ),
        ),
        Step::EncodeAapt => Some(
            options.apktool.encode(
                paths.decoded.as_str(),
                paths.tmp_apk.as_str(),
                false,
                user_cache,
            ),
        ),
        Step::Sign => {
            let packages: Vec<String> = vec![paths.tmp_apk.clone()];
            assert(texts(packages@) == seq![paths.tmp_apk@]);
            Some(options.signer.sign(&packages, true, user_cache))
        },
        Step::CheckPrerequisites => None,
        Step::ApplyPatches => None,
        Step::Wait => None,
    }
}

/// The programs that are fetched before a step, besides the prerequisites.
pub open spec fn downloads_for(step: Step, user_cache: bool) -> Seq<Fetch> {
    match step {
        Step::Merge => seq![fetch(user_cache, editor_file(), editor_url())],
        _ => Seq::empty(),
    }
}

/// The programs that are fetched before a step. Those that every run needs are the result of
/// `check_prerequisites`.
pub fn step_downloads(step: Step, user_cache: bool) -> (r: Vec<Download>)
    ensures
        fetches(r@) == downloads_for(step, user_cache),
{
    let mut list: Vec<Download> = Vec::new();
    if let Step::Merge = step {
        list.push(ApkEditor::new().ensure_downloaded(user_cache));
    }
    assert(fetches(list@) == downloads_for(step, user_cache));
    list
}

/// What is asked for after a step that succeeded: after the merge the merged package is the input.
pub fn options_after(step: Step, options: Options) -> (r: Options)
    ensures
        step != Step::Merge ==> r == options,
        step == Step::Merge ==> r.input_path@ == inside(base_place(Base::Temp), "merged.apk"@) && r
            == (Options { input_path: r.input_path, skip_decode: false, ..options }),
{
    match step {
        Step::Merge => patch_app_bundle(&options),
        _ => options,
    }
}

/// The file that a step copies once its program has succeeded, and where to: a signed package is
/// copied to the output.
pub fn step_copy(step: Step, options: &Options) -> (r: Option<(Location, Location)>)
    ensures
        r is Some <==> step == Step::Sign,
        r matches Some((from, to)) ==> from@ == inside(base_place(Base::Temp), "tmp.apk"@) && to@
            == options.output_path@,
{
    match step {
        Step::Sign => Some((tmp_apk_path(), options.output_path.copy())),
        _ => None,
    }
}

// ---------------------------------------------------------------------------------------------
// Laws
// ---------------------------------------------------------------------------------------------

/// How many more steps a run can take at most.
pub open spec fn steps_left(job: Job) -> nat {
    match job.step {
        Step::CheckPrerequisites => if job.merged {
            6
        } else {
            8
        },
        Step::Merge => 7,
        Step::Decode => 5,
        Step::ApplyPatches => 4,
        Step::Wait => 3,
        Step::EncodeAapt2 => 2,
        Step::EncodeAapt => 1,
        Step::Sign => 0,
    }
}

/// Every run comes to an end: each event brings it closer.
pub proof fn law_run_ends(job: Job, options: Options, event: Event)
    ensures
        progress(job, options, event) matches Progress::Continue(next) ==> steps_left(next)
            < steps_left(job),
{
}

/// The output is written only after the package was encoded and signed: the run finishes only with a
/// step of signing that succeeded, and such a step follows only an encoding that succeeded.
pub proof fn law_output_is_encoded_and_signed(job: Job, options: Options, event: Event)
    ensures
        progress(job, options, event) is Finished ==> job.step == Step::Sign && event
            != Event::Failed,
        (progress(job, options, event) matches Progress::Continue(next) && next.step == Step::Sign)
            ==> (job.step == Step::EncodeAapt2 || job.step == Step::EncodeAapt) && event
            != Event::Failed,
{
}

/// AAPT is used if and only if AAPT2 failed.
pub proof fn law_aapt_is_fallback(job: Job, options: Options, event: Event)
    ensures
        (progress(job, options, event) matches Progress::Continue(next) && next.step
            == Step::EncodeAapt) <==> job.step == Step::EncodeAapt2 && event == Event::Failed,
{
}

/// A run fails if and only if a step fails that is not the one with AAPT2.
pub proof fn law_failures_end_the_run(job: Job, options: Options, event: Event)
    ensures
        progress(job, options, event) is Failed <==> event == Event::Failed && job.step
            != Step::EncodeAapt2,
{
}

/// Steps that the user does not want are not done.
pub proof fn law_unwanted_steps_are_skipped(job: Job, options: Options, event: Event)
    ensures
        progress(job, options, event) matches Progress::Continue(next) ==> {
            &&& next.step == Step::ApplyPatches ==> !options.skip_patches
            &&& next.step == Step::Decode ==> !options.skip_decode
            &&& next.step == Step::Wait ==> options.wait
            &&& next.step == Step::Merge ==> !job.merged
        },
{
}

/// The steps of a run in which all goes well.
pub open spec fn all_steps(kind: TaskKind, options: Options) -> Seq<Step> {
    let merging = if kind == TaskKind::AppBundle {
        seq![Step::CheckPrerequisites, Step::Merge]
    } else {
        Seq::empty()
    };
    let decoding = if options.skip_decode {
        Seq::empty()
    } else {
        seq![Step::Decode]
    };
    let patching = if options.skip_patches {
        Seq::empty()
    } else {
        seq![Step::ApplyPatches]
    };
    let waiting = if options.wait {
        seq![Step::Wait]
    } else {
        Seq::empty()
    };
    merging + seq![Step::CheckPrerequisites] + decoding + patching + waiting + seq![
        Step::EncodeAapt2,
        Step::Sign,
    ]
}

/// Where a run stands after `n` steps that all succeeded; nothing if it is at its end before.
pub open spec fn after_successes(kind: TaskKind, options: Options, n: nat) -> Option<Job>
    decreases n,
{
    if n == 0 {
        Some(first_job(kind))
    } else {
        match after_successes(kind, options, (n - 1) as nat) {
            Some(job) => match progress(job, options, Event::Done) {
                Progress::Continue(next) => Some(next),
                _ => None,
            },
            None => None,
        }
    }
}

/// A run in which all goes well takes the steps that are asked for, in their order, and no others.
pub proof fn law_order_of_steps(kind: TaskKind, options: Options, n: nat)
    ensures
        n < all_steps(kind, options).len() ==> (after_successes(kind, options, n) matches Some(job)
            && job.step == all_steps(kind, options)[n as int] && (job.merged || kind
            == TaskKind::AppBundle && n < 2)),
        n >= all_steps(kind, options).len() ==> after_successes(kind, options, n) is None,
    decreases n,
{
    if n > 0 {
        law_order_of_steps(kind, options, (n - 1) as nat);
    }
}

/// Packages are always aligned when they are signed.
pub proof fn law_packages_are_aligned(options: Options, paths: Paths, user_cache: bool)
    ensures
        run_for(Step::Sign, options, paths, user_cache)->0.args == seq![
            "--allowResign"@,
            "--overwrite"@,
            "--apks"@,
            paths.tmp_apk@,
        ],
{
    let list = seq![paths.tmp_apk@];
    reveal_with_fuel(packages, 2);
    assert(list.drop_last() == Seq::<Seq<char>>::empty());
    assert(packages(list) == seq!["--apks"@, paths.tmp_apk@]);
    assert(signing(list, true) == seq![
        "--allowResign"@,
        "--overwrite"@,
        "--apks"@,
        paths.tmp_apk@,
    ]);
}

/// Without full decoding the code of an app is not decoded.
pub proof fn law_code_is_left_alone(options: Options, paths: Paths, user_cache: bool)
    requires
        !options.full_smali,
    ensures
        run_for(Step::Decode, options, paths, user_cache)->0.args.contains("--no-src"@),
{
    law_sources_are_opt_in(options.apktool, paths.input@, paths.decoded@);
}

/// A bundle is turned into a task like that for one package: after the merge nothing but the input
/// differs, and the app is decoded.
pub proof fn law_bundle_becomes_package(options: Options, merged: Options)
    requires
        merged.input_path@ == inside(base_place(Base::Temp), "merged.apk"@),
        merged == (Options { input_path: merged.input_path, skip_decode: false, ..options }),
    ensures
        merged.output_path == options.output_path,
        decoded(merged) == inside(base_place(Base::Temp), "decode"@),
        all_steps(TaskKind::AppBundle, merged) == seq![Step::CheckPrerequisites, Step::Merge]
            + all_steps(TaskKind::Apk, merged),
{
    assert(all_steps(TaskKind::AppBundle, merged) =~= seq![Step::CheckPrerequisites, Step::Merge]
        + all_steps(TaskKind::Apk, merged));
}

/// Where a run stands after the given events; nothing if it is at its end.
pub open spec fn after_events(kind: TaskKind, options: Options, events: Seq<Event>) -> Option<Job>
    decreases events.len(),
{
    if events.len() == 0 {
        Some(first_job(kind))
    } else {
        match after_events(kind, options, events.drop_last()) {
            Some(job) => match progress(job, options, events.last()) {
                Progress::Continue(next) => Some(next),
                _ => None,
            },
            None => None,
        }
    }
}

/// Whatever the steps report, as long as none fails, a run takes the steps that are asked for, in their
/// order, and no others: the prerequisites and the merge of a bundle, the prerequisites, the decoding of
/// what is not decoded, the patches unless they are skipped, a pause if there is to be one, the encoding
/// and the signing.
pub proof fn law_steps_of_a_run(kind: TaskKind, options: Options, events: Seq<Event>)
    requires
        forall|i: int| 0 <= i < events.len() ==> #[trigger] events[i] != Event::Failed,
    ensures
        ({
            let none = Seq::<Step>::empty();
            let steps = (if kind == TaskKind::AppBundle {
                seq![Step::CheckPrerequisites, Step::Merge]
            } else {
                none
            }) + seq![Step::CheckPrerequisites] + (if options.skip_decode {
                none
            } else {
                seq![Step::Decode]
            }) + (if options.skip_patches {
                none
            } else {
                seq![Step::ApplyPatches]
            }) + (if options.wait {
                seq![Step::Wait]
            } else {
                none
            }) + seq![Step::EncodeAapt2, Step::Sign];
            match after_events(kind, options, events) {
                Some(job) => {
                    &&& events.len() < steps.len()
                    &&& job.step == steps[events.len() as int]
                    &&& job.merged == (kind == TaskKind::Apk || events.len() >= 2)
                },
                None => events.len() >= steps.len(),
            }
        }),
    decreases events.len(),
{
    if events.len() > 0 {
        let front = events.drop_last();
        assert forall|i: int| 0 <= i < front.len() implies #[trigger] front[i] != Event::Failed by {
            assert(front[i] == events[i]);
        }
        law_steps_of_a_run(kind, options, front);
        assert(events[events.len() - 1] != Event::Failed);
    }
}

/// The run pauses before the package is encoded if and only if the user wants it to, whatever the step
/// before reports: after the patches, or in their place if they are skipped.
pub proof fn law_wait_is_kept(job: Job, options: Options, event: Event)
    ensures
        (progress(job, options, event) matches Progress::Continue(next) && next.step == Step::Wait)
            <==> {
            &&& options.wait
            &&& event != Event::Failed
            &&& {
                ||| job.step == Step::ApplyPatches
                ||| job.step == Step::Decode && options.skip_patches
                ||| job.step == Step::CheckPrerequisites && job.merged && options.skip_decode
                    && options.skip_patches
            }
        },
        job.step == Step::Wait && event != Event::Failed ==> (progress(job, options, event) matches
            Progress::Continue(next) && next.step == Step::EncodeAapt2),
{
}

/// The patches are applied unless they are skipped: to what was decoded, or at once to an input that is
/// decoded already.
pub proof fn law_patches_are_applied(job: Job, options: Options, event: Event)
    ensures
        (progress(job, options, event) matches Progress::Continue(next) && next.step
            == Step::ApplyPatches) <==> {
            &&& !options.skip_patches
            &&& event != Event::Failed
            &&& {
                ||| job.step == Step::Decode
                ||| job.step == Step::CheckPrerequisites && job.merged && options.skip_decode
            }
        },
{
}

/// What was encoded, with AAPT2 or in its place with AAPT, is signed, and what was signed is the output.
pub proof fn law_encoded_is_signed(job: Job, options: Options, event: Event)
    requires
        event != Event::Failed,
    ensures
        job.step == Step::EncodeAapt2 || job.step == Step::EncodeAapt ==> (progress(
            job,
            options,
            event,
        ) matches Progress::Continue(next) && next.step == Step::Sign),
        job.step == Step::Sign ==> progress(job, options, event) is Finished,
{
}

/// What the patches found out is kept to the end of the run, and that a bundle is merged is known from
/// the merge on.
pub proof fn law_findings_are_kept(job: Job, options: Options, event: Event)
    ensures
        first_job(TaskKind::Apk).merged && !first_job(TaskKind::AppBundle).merged,
        !first_job(TaskKind::Apk).uses_app_bundle && !first_job(TaskKind::AppBundle).uses_app_bundle,
        match progress(job, options, event) {
            Progress::Continue(next) => {
                &&& next.merged == (job.merged || job.step == Step::Merge)
                &&& match event {
                    Event::Patched { uses_app_bundle } => next.uses_app_bundle == uses_app_bundle,
                    _ => next.uses_app_bundle == job.uses_app_bundle,
                }
            },
            Progress::Finished { uses_app_bundle: last } => match event {
                Event::Patched { uses_app_bundle } => last == uses_app_bundle,
                _ => last == job.uses_app_bundle,
            },
            Progress::Failed => true,
        },
{
}

/// A package is decoded with its code if and only if that is asked for, and only the flag for it depends
/// on that. The Apktool reads the input and writes the directory that is patched and encoded.
pub proof fn law_decoding(options: Options, paths: Paths, user_cache: bool)
    ensures
        run_for(Step::Decode, options, paths, user_cache) matches Some(run) && {
            let args = seq![
                "decode"@,
                paths.input@,
                "--output"@,
                paths.decoded@,
                "--frame-path"@,
                options.apktool.framework_path@,
            ];
            &&& options.full_smali ==> run.args == args
            &&& !options.full_smali ==> run.args == args.push("--no-src"@)
            &&& (paths.input@ != "--no-src"@ && paths.decoded@ != "--no-src"@
                && options.apktool.framework_path@ != "--no-src"@) ==> (run.args.contains(
                "--no-src"@,
            ) <==> !options.full_smali)
            &&& run.jar == options.apktool.jar(user_cache)
            &&& run.log_path == (Place { base: Base::Temp, path: "logs/decoding.log"@ })
        },
{
    let tool = options.apktool;
    law_sources_are_opt_in(tool, paths.input@, paths.decoded@);
    law_runs_are_logged(tool.jar(user_cache), Seq::empty(), "decoding"@);
    reveal_strlit("logs/");
    reveal_strlit("decoding");
    reveal_strlit(".log");
    reveal_strlit("logs/decoding.log");
    assert("logs/"@ + "decoding"@ + ".log"@ == "logs/decoding.log"@);
    let args = seq![
        "decode"@,
        paths.input@,
        "--output"@,
        paths.decoded@,
        "--frame-path"@,
        tool.framework_path@,
    ];
    assert(tool.decoding(paths.input@, paths.decoded@, true) == args);
}

/// The directory that was decoded is encoded into the package that is signed, first with AAPT2 and else
/// without; each way has a log of its own.
pub proof fn law_encoding(options: Options, paths: Paths, user_cache: bool)
    ensures
        run_for(Step::EncodeAapt2, options, paths, user_cache) matches Some(run) && {
            &&& run.args == seq![
                "build"@,
                paths.decoded@,
                "--output"@,
                paths.tmp_apk@,
                "--frame-path"@,
                options.apktool.framework_path@,
                "--use-aapt2"@,
            ]
            &&& run.jar == options.apktool.jar(user_cache)
            &&& run.log_path == (Place { base: Base::Temp, path: "logs/encoding-aapt2.log"@ })
        },
        run_for(Step::EncodeAapt, options, paths, user_cache) matches Some(run) && {
            &&& run.args == seq![
                "build"@,
                paths.decoded@,
                "--output"@,
                paths.tmp_apk@,
                "--frame-path"@,
                options.apktool.framework_path@,
            ]
            &&& run.jar == options.apktool.jar(user_cache)
            &&& run.log_path == (Place { base: Base::Temp, path: "logs/encoding-aapt.log"@ })
        },
{
    let jar = options.apktool.jar(user_cache);
    law_runs_are_logged(jar, Seq::empty(), "encoding-aapt2"@);
    law_runs_are_logged(jar, Seq::empty(), "encoding-aapt"@);
    reveal_strlit("logs/");
    reveal_strlit(".log");
    assert("logs/"@ + "encoding-aapt2"@ + ".log"@ == "logs/encoding-aapt2.log"@) by {
        reveal_strlit("encoding-aapt2");
        reveal_strlit("logs/encoding-aapt2.log");
    }
    assert("logs/"@ + "encoding-aapt"@ + ".log"@ == "logs/encoding-aapt.log"@) by {
        reveal_strlit("encoding-aapt");
        reveal_strlit("logs/encoding-aapt.log");
    }
    let tool = options.apktool;
    assert(tool.encoding(paths.decoded@, paths.tmp_apk@, false) == seq![
        "build"@,
        paths.decoded@,
        "--output"@,
        paths.tmp_apk@,
        "--frame-path"@,
        tool.framework_path@,
    ]);
    assert(tool.encoding(paths.decoded@, paths.tmp_apk@, true) == seq![
        "build"@,
        paths.decoded@,
        "--output"@,
        paths.tmp_apk@,
        "--frame-path"@,
        tool.framework_path@,
        "--use-aapt2"@,
    ]);
}

/// A bundle is merged from the input into the merged package, the encoded package is signed in place, and
/// the other steps run no program.
pub proof fn law_merging_and_signing(options: Options, paths: Paths, user_cache: bool)
    ensures
        run_for(Step::Merge, options, paths, user_cache) matches Some(run) && {
            &&& run.args == seq!["m"@, "-i"@, paths.input@, "-o"@, paths.merged_apk@]
            &&& run.jar == cached(user_cache, "APKEditor-1.4.3.jar"@)
            &&& run.log_path == (Place { base: Base::Temp, path: "logs/merging.log"@ })
        },
        run_for(Step::Sign, options, paths, user_cache) matches Some(run) && {
            &&& run.args == seq!["--allowResign"@, "--overwrite"@, "--apks"@, paths.tmp_apk@]
            &&& run.jar == cached(user_cache, "uber-apk-signer-v1.3.0.jar"@)
            &&& run.log_path == (Place { base: Base::Temp, path: "logs/signing.log"@ })
        },
        run_for(Step::CheckPrerequisites, options, paths, user_cache) is None,
        run_for(Step::ApplyPatches, options, paths, user_cache) is None,
        run_for(Step::Wait, options, paths, user_cache) is None,
{
    law_packages_are_aligned(options, paths, user_cache);
    law_programs();
    law_runs_are_logged(cached(user_cache, editor_file()), Seq::empty(), "merging"@);
    law_runs_are_logged(cached(user_cache, signer_file()), Seq::empty(), "signing"@);
    reveal_strlit("logs/");
    reveal_strlit(".log");
    assert("logs/"@ + "merging"@ + ".log"@ == "logs/merging.log"@) by {
        reveal_strlit("merging");
        reveal_strlit("logs/merging.log");
    }
    assert("logs/"@ + "signing"@ + ".log"@ == "logs/signing.log"@) by {
        reveal_strlit("signing");
        reveal_strlit("logs/signing.log");
    }
}

/// A program that a step runs is the one of the user, or it is fetched before: with the prerequisites, or
/// right before the step.
pub proof fn law_programs_are_fetched(step: Step, options: Options, paths: Paths, user_cache: bool)
    ensures
        run_for(step, options, paths, user_cache) matches Some(run) ==> {
            let fetched = needed(options.apktool, user_cache) + downloads_for(step, user_cache);
            ||| options.apktool.custom_path is Some && run.jar.base == Base::CustomApktool
            ||| exists|k: int| 0 <= k < fetched.len() && (#[trigger] fetched[k]).path == run.jar
        },
{
    let early = needed(options.apktool, user_cache);
    let late = downloads_for(step, user_cache);
    let fetched = early + late;
    if let Some(run) = run_for(step, options, paths, user_cache) {
        match step {
            Step::Merge => {
                assert(fetched[early.len() as int] == late[0]);
            },
            Step::Sign => {
                assert(fetched[early.len() - 1].path == run.jar);
            },
            _ => {
                assert(options.apktool.custom_path is None ==> fetched[0].path == run.jar);
            },
        }
    }
}

/// The prerequisites are the signer and, unless the user has an Apktool, Apktool, which is fetched first;
/// the merge needs APKEditor besides, and no other step needs anything more.
pub proof fn law_downloads(step: Step, apktool: Apktool, user_cache: bool)
    ensures
        ({
            let signer = fetch(
                user_cache,
                "uber-apk-signer-v1.3.0.jar"@,
                "https://github.com/patrickfav/uber-apk-signer/releases/download/v1.3.0/uber-apk-signer-1.3.0.jar"@,
            );
            let own = fetch(
                user_cache,
                "apktool-v2.9.3.jar"@,
                "https://github.com/iBotPeaches/Apktool/releases/download/v2.9.3/apktool_2.9.3.jar"@,
            );
            let editor = fetch(
                user_cache,
                "APKEditor-1.4.3.jar"@,
                "https://github.com/REAndroid/APKEditor/releases/download/V1.4.3/APKEditor-1.4.3.jar"@,
            );
            &&& apktool.custom_path is None ==> needed(apktool, user_cache) == seq![own, signer]
            &&& apktool.custom_path is Some ==> needed(apktool, user_cache) == seq![signer]
            &&& step == Step::Merge ==> downloads_for(step, user_cache) == seq![editor]
            &&& step != Step::Merge ==> downloads_for(step, user_cache) == Seq::<Fetch>::empty()
        }),
{
    law_programs();
}

/// The app is patched in the input itself if that is decoded already, and otherwise where it was decoded
/// to. What the user asked for reaches the patches as it is.
pub proof fn law_patches_are_as_asked(options: Options)
    ensures
        options.skip_decode ==> decoded(options) == options.input_path@,
        !options.skip_decode ==> decoded(options) == (Place { base: Base::Temp, path: "decode"@ }),
        options.maps_api_key matches Some(key) ==> key_option(options.maps_api_key) == Some(key@),
        options.maps_api_key is None ==> key_option(options.maps_api_key) is None,
        options.certificate is None ==> certificate_option(options.certificate) is None,
        options.certificate matches Some(c) ==> certificate_option(options.certificate) == Some(
            match c.file_name {
                Some(name) => name@,
                None => "certificate"@,
            },
        ),
{
}

/// The model of a list of downloads holds each of them, in order.
pub proof fn law_fetches(list: Seq<Download>)
    ensures
        fetches(list).len() == list.len(),
        forall|i: int| 0 <= i < list.len() ==> #[trigger] fetches(list)[i] == list[i]@,
{
}

} // verus!
