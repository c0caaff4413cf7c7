//! What is to be done with an input, and where the result goes.
use crate::place::base_place;
use crate::place::inside;
use crate::place::Base;
use crate::place::Location;
use crate::text::same;
use vstd::prelude::*;

verus! {

/// The kinds of input.
#[derive(Debug, Clone, Copy, PartialEq, Eq, Structural)]
pub enum TaskKind {
    /// One package, or what Apktool decoded from one.
    Apk,
    /// Several packages of one app.
    AppBundle,
}

/// What is known of the input. Extension and stem of its name are absent if there is none or it is
/// not valid Unicode.
#[derive(Debug)]
pub struct InputFile {
    pub is_dir: bool,
    pub has_apktool_yml: bool,
    pub extension: Option<String>,
    pub file_stem: Option<String>,
}

/// What is to be done.
#[derive(Debug)]
pub struct TaskInfo {
    pub kind: TaskKind,
    pub skip_decode: bool,
    pub output_path: Location,
    pub output_name: String,
}

/// Why an input is refused.
#[derive(Debug, Clone, Copy, PartialEq, Eq, Structural)]
pub enum TaskError {
    /// A directory that Apktool did not decode.
    NotDecoded,
    /// A file of another type.
    UnsupportedType,
    /// The name of the input cannot be used.
    NoFileName,
}

impl TaskError {
    /// What the user is told.
    pub fn message(&self) -> (r: String)
        ensures
            r@ == match *self {
                TaskError::NotDecoded =>
                    "No \"apktool.yml\" file found inside the input directory! Make sure to specify a directory created by \"apktool decode\"."@,
                TaskError::UnsupportedType =>
                    "Unsupported file type. Supported extensions: .apk, .xapk, .apks, .zip, or a decoded apktool directory."@,
                TaskError::NoFileName => "Could not determine input file name"@,
            },
    {
        match self {
            TaskError::NotDecoded => {
                "No \"apktool.yml\" file found inside the input directory! Make sure to specify a directory created by \"apktool decode\".".to_string()
            },
            TaskError::UnsupportedType => {
                "Unsupported file type. Supported extensions: .apk, .xapk, .apks, .zip, or a decoded apktool directory.".to_string()
            },
            TaskError::NoFileName => "Could not determine input file name".to_string(),
        }
    }
}

// ---------------------------------------------------------------------------------------------
// Model
// ---------------------------------------------------------------------------------------------

/// The kind of a file with the given extension.
pub open spec fn kind_of_extension(extension: Seq<char>) -> Option<TaskKind> {
    if extension == "apk"@ {
        Some(TaskKind::Apk)
    } else if extension == "xapk"@ || extension == "apks"@ || extension == "zip"@ {
        Some(TaskKind::AppBundle)
    } else {
        None
    }
}

/// The kind of an input, or why it has none.
pub open spec fn kind_of(input: InputFile) -> Result<TaskKind, TaskError> {
    if input.is_dir {
        if input.has_apktool_yml {
            Ok(TaskKind::Apk)
        } else {
            Err(TaskError::NotDecoded)
        }
    } else {
        match input.extension {
            Some(extension) => match kind_of_extension(extension@) {
                Some(kind) => Ok(kind),
                None => Err(TaskError::UnsupportedType),
            },
            None => Err(TaskError::UnsupportedType),
        }
    }
}

/// The name of the result for an input with the given stem.
pub open spec fn output_of(stem: Seq<char>) -> Seq<char> {
    stem + "-patched.apk"@
}

// ---------------------------------------------------------------------------------------------
// Operations
// ---------------------------------------------------------------------------------------------

/// The kind of a file with the given extension.
fn file_kind(extension: &str) -> (r: Option<TaskKind>)
    ensures
        r == kind_of_extension(extension@),
{
    if same(extension, "apk") {
        Some(TaskKind::Apk)
    } else if same(extension, "xapk") || same(extension, "apks") || same(extension, "zip") {
        Some(TaskKind::AppBundle)
    } else {
        None
    }
}

/// Finds out what is to be done with an input. Whatever its type, the result is one package beside the
/// input.
pub fn determine_task(input: &InputFile) -> (r: Result<TaskInfo, TaskError>)
    ensures
        match kind_of(*input) {
            Ok(kind) => match input.file_stem {
                Some(stem) => r matches Ok(info) && {
                    &&& info.kind == kind
                    &&& info.skip_decode == input.is_dir
                    &&& info.output_name@ == output_of(stem@)
                    &&& info.output_path@ == inside(
                        base_place(Base::InputParent),
                        output_of(stem@),
                    )
                },
                None => r == Err::<TaskInfo, TaskError>(TaskError::NoFileName),
            },
            Err(e) => r == Err::<TaskInfo, TaskError>(e),
        },
{
    let kind = if input.is_dir {
        if !input.has_apktool_yml {
            return Err(TaskError::NotDecoded);
        }
        TaskKind::Apk
    } else {
        let known = match &input.extension {
            Some(extension) => file_kind(extension.as_str()),
            None => None,
        };
        match known {
            Some(kind) => kind,
            None => {
                return Err(TaskError::UnsupportedType);
            },
        }
    };
    match &input.file_stem {
        Some(stem) => {
            let output_name = stem.clone().concat("-patched.apk");
            let output_path = Location::at(Base::InputParent).join(output_name.as_str());
            Ok(TaskInfo { kind, skip_decode: input.is_dir, output_path, output_name })
        },
        None => Err(TaskError::NoFileName),
    }
}

// ---------------------------------------------------------------------------------------------
// Laws
// ---------------------------------------------------------------------------------------------

/// The result never has the name of the input, so that patching does not write over it: neither that of a
/// file, which is its stem, a dot and its extension, nor that of a directory, which is its stem or goes on
/// with a dot.
pub proof fn law_output_is_not_input(stem: Seq<char>, extension: Seq<char>)
    ensures
        output_of(stem) != stem + "."@ + extension,
        output_of(stem) != stem,
{
    reveal_strlit("-patched.apk");
    reveal_strlit(".");
    let n = stem.len() as int;
    assert(output_of(stem)[n] == '-');
    assert((stem + "."@ + extension)[n] == '.');
}

/// A file is taken for a package or a bundle by its extension, a directory for a decoded app by what
/// Apktool leaves in it; the rest is refused.
pub proof fn law_inputs(input: InputFile)
    ensures
        kind_of(input) == Ok::<TaskKind, TaskError>(TaskKind::Apk) <==> {
            ||| input.is_dir && input.has_apktool_yml
            ||| !input.is_dir && (input.extension matches Some(e) && e@ == "apk"@)
        },
        kind_of(input) == Ok::<TaskKind, TaskError>(TaskKind::AppBundle) <==> !input.is_dir && (
        input.extension matches Some(e) && (e@ == "xapk"@ || e@ == "apks"@ || e@ == "zip"@)),
        kind_of(input) == Err::<TaskKind, TaskError>(TaskError::NotDecoded) <==> input.is_dir
            && !input.has_apktool_yml,
        kind_of(input) == Err::<TaskKind, TaskError>(TaskError::UnsupportedType) <==> {
            &&& !input.is_dir
            &&& !(input.extension matches Some(e) && (e@ == "apk"@ || e@ == "xapk"@ || e@ == "apks"@
                || e@ == "zip"@))
        },
        kind_of(input) != Err::<TaskKind, TaskError>(TaskError::NoFileName),
{
    reveal_strlit("apk");
    reveal_strlit("xapk");
    reveal_strlit("apks");
    reveal_strlit("zip");
    assert("apk"@[0] != "zip"@[0]);
    assert("apk"@.len() != "xapk"@.len() && "apk"@.len() != "apks"@.len());
}

/// The result is named after the input, and different inputs have different results.
pub proof fn law_output_is_named_after_input(stem: Seq<char>, other: Seq<char>)
    ensures
        output_of(stem).take(stem.len() as int) == stem,
        output_of(stem).skip(stem.len() as int) == "-patched.apk"@,
        output_of(stem) == output_of(other) ==> stem == other,
{
    reveal_strlit("-patched.apk");
    let a = output_of(stem);
    let b = output_of(other);
    assert(a.take(stem.len() as int) == stem);
    assert(a.skip(stem.len() as int) == "-patched.apk"@);
    if a == b {
        assert(a.len() == stem.len() + 12 && b.len() == other.len() + 12);
        assert(b.take(other.len() as int) == other);
    }
}

} // verus!
