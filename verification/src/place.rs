//! Files and directories, named relative to places that only the running program knows.
use vstd::prelude::*;

verus! {

/// A file or directory that a location is relative to.
#[derive(Debug, Clone, Copy, PartialEq, Eq, Structural)]
pub enum Base {
    /// The file or directory that the user wants patched.
    Input,
    /// The directory that holds it.
    InputParent,
    /// The temporary directory of this run.
    Temp,
    /// The user's cache directory.
    UserCache,
    /// The directory for temporary files of the system.
    SystemTemp,
    /// The Apktool that the user chose.
    CustomApktool,
}

/// A file or directory: a path with `/` between its parts, relative to a base. The path of the base
/// itself is empty.
#[derive(Debug)]
pub struct Location {
    pub base: Base,
    pub path: String,
}

/// The model of a `Location`.
pub struct Place {
    pub base: Base,
    pub path: Seq<char>,
}

impl View for Location {
    type V = Place;

    open spec fn view(&self) -> Place {
        Place { base: self.base, path: self.path@ }
    }
}

/// The base itself.
pub open spec fn base_place(base: Base) -> Place {
    Place { base, path: Seq::empty() }
}

/// What `name` means inside the directory `place`.
pub open spec fn inside(place: Place, name: Seq<char>) -> Place {
    Place {
        base: place.base,
        path: if place.path.len() == 0 {
            name
        } else {
            place.path + "/"@ + name
        },
    }
}

impl Location {
    /// The base itself.
    pub fn at(base: Base) -> (r: Location)
        ensures
            r@ == base_place(base),
    {
        Location { base, path: String::new() }
    }

    /// What `name` means inside this directory.
    pub fn join(&self, name: &str) -> (r: Location)
        ensures
            r@ == inside(self@, name@),
    {
        if self.path.as_str().is_empty() {
            Location { base: self.base, path: name.to_string() }
        } else {
            Location { base: self.base, path: self.path.clone().concat("/").concat(name) }
        }
    }

    /// The same location once more.
    pub fn copy(&self) -> (r: Location)
        ensures
            r == *self,
    {
        Location { base: self.base, path: self.path.clone() }
    }
}

// ---------------------------------------------------------------------------------------------
// Laws
// ---------------------------------------------------------------------------------------------

/// A path goes on with a slash and the name; below the base itself it is the name alone. The base stays.
pub proof fn law_paths_go_on(base: Base, path: Seq<char>, name: Seq<char>)
    ensures
        base_place(base) == (Place { base, path: Seq::empty() }),
        inside(base_place(base), name) == (Place { base, path: name }),
        path.len() > 0 ==> inside(Place { base, path }, name) == (Place {
            base,
            path: path + seq!['/'] + name,
        }),
{
    reveal_strlit("/");
    assert("/"@ == seq!['/']);
}

} // verus!
