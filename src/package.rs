//! The identity of a requested package.

use vstd::prelude::*;

verus! {

/// A requested package: a name and an optional version constraint.
#[derive(Clone, Debug)]
pub struct Package {
    pub name: String,
    pub version: Option<String>,
}

/// The textual form of a package: its name, followed by `:` and the version
/// constraint where there is one.
pub open spec fn package_text(name: Seq<char>, version: Option<Seq<char>>) -> Seq<char> {
    match version {
        Some(v) => name + seq![':'] + v,
        None => name,
    }
}

impl Package {
    /// The version constraint as a sequence of characters, if any.
    pub open spec fn version_view(&self) -> Option<Seq<char>> {
        match self.version {
            Some(v) => Some(v@),
            None => None,
        }
    }

    pub fn new(name: String, version: Option<String>) -> (r: Package)
        ensures
            r.name == name,
            r.version == version,
    {
        Package { name, version }
    }

    /// The stable textual representation used when reporting on a package.
    pub fn text(&self) -> (r: String)
        ensures
            r@ == package_text(self.name@, self.version_view()),
    {
        let name = self.name.clone();
        match &self.version {
            Some(v) => {
                let with_colon = name.concat(":");
                proof {
                    reveal_strlit(":");
                }
                with_colon.concat(v.as_str())
            },
            None => name,
        }
    }

    /// Two packages are the same request when names and version constraints agree.
    pub fn same_as(&self, other: &Package) -> (r: bool)
        ensures
            r == (self.name@ == other.name@ && self.version_view() == other.version_view()),
    {
        if self.name != other.name {
            return false;
        }
        match (&self.version, &other.version) {
            (Some(a), Some(b)) => *a == *b,
            (None, None) => true,
            _ => false,
        }
    }
}

} // verus!
