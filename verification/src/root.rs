//! Finding the root of the project: the nearest directory, going upward,
//! that holds the project's marker file.

use std::path::Path;
use vstd::prelude::*;
use vstd::string::StringSliceAdditionalSpecFns;
use vstd::utf8::encode_utf8;
use crate::error::Error;

verus! {

/// What the tool was started as.
#[derive(Clone, Copy, Debug, PartialEq, Eq, Structural)]
pub enum XargoMode {
    Build,
    Check,
}

impl XargoMode {
    /// The name of the file that marks the root of a project.
    pub open spec fn marker(self) -> Seq<char> {
        match self {
            XargoMode::Build => "Cargo.toml"@,
            XargoMode::Check => "Xargo.toml"@,
        }
    }

    /// The name of the file that marks the root of a project. A check does
    /// not ask for a `Cargo.toml`.
    pub fn marker_name(self) -> (name: &'static str)
        ensures
            name@ == self.marker(),
    {
        match self {
            XargoMode::Build => "Cargo.toml",
            XargoMode::Check => "Xargo.toml",
        }
    }
}

/// The root directory of a project.
#[derive(Debug, PartialEq, Eq)]
pub struct Root {
    path: String,
}

impl View for Root {
    type V = Seq<char>;

    closed spec fn view(&self) -> Seq<char> {
        self.path@
    }
}

impl Root {
    /// The directory.
    pub fn path(&self) -> (path: &str)
        ensures
            path@ == self@,
    {
        self.path.as_str()
    }
}

/// The path without its last component, as `Path::parent` gives it; `None`
/// for a path that has no parent.
pub uninterp spec fn parent_of(path: Seq<char>) -> Option<Seq<char>>;

/// The path without its last component, if it has one.
///
/// Trusted: calls `Path::parent`. The contract only gives the result its
/// name: the call reads the text of the path and nothing else, no file
/// system and no current directory.
#[verifier::external_body]
pub(crate) fn parent(path: &str) -> (up: Option<String>)
    ensures
        match up {
            Some(dir) => parent_of(path@) == Some(dir@),
            None => parent_of(path@) is None,
        },
{
    Path::new(path).parent().map(|p| p.to_string_lossy().into_owned())
}

/// The number of bytes that a text takes.
pub open spec fn size(text: Seq<char>) -> nat {
    encode_utf8(text).len()
}

/// The directory that the search starts in, as mathematics: the one that
/// holds the manifest where a path to it was given, else the current
/// directory. `manifest_dir` is the manifest's path without its last
/// component; a path that has none is taken as it is.
pub open spec fn start(
    manifest_path: Option<Seq<char>>,
    manifest_dir: Option<Seq<char>>,
    current_dir: Option<Seq<char>>,
) -> Option<Seq<char>> {
    match manifest_path {
        Some(path) => Some(
            match manifest_dir {
                Some(dir) => dir,
                None => path,
            },
        ),
        None => current_dir,
    }
}

/// The view of a string that may be absent.
pub open spec fn text_of(text: Option<&str>) -> Option<Seq<char>> {
    match text {
        Some(t) => Some(t@),
        None => None,
    }
}

/// The directory that the search starts in, where `manifest_dir` is the
/// manifest's path without its last component. That neither a manifest
/// path nor the current directory is known is an error.
pub fn choose_start(
    manifest_path: Option<&str>,
    manifest_dir: Option<&str>,
    current_dir: Option<&str>,
) -> (chosen: Result<String, Error>)
    ensures
        match start(text_of(manifest_path), text_of(manifest_dir), text_of(current_dir)) {
            Some(dir) => chosen matches Ok(s) && s@ == dir,
            None => chosen matches Err(Error::DirectoryAccess),
        },
{
    match manifest_path {
        Some(path) => match manifest_dir {
            Some(dir) => Ok(dir.to_owned()),
            None => Ok(path.to_owned()),
        },
        None => match current_dir {
            Some(dir) => Ok(dir.to_owned()),
            None => Err(Error::DirectoryAccess),
        },
    }
}

/// The parent of a path that may be absent.
pub open spec fn parent_of_path(path: Option<Seq<char>>) -> Option<Seq<char>> {
    match path {
        Some(p) => parent_of(p),
        None => None,
    }
}

/// The directory that the search starts in: the one that holds the
/// manifest where a path to it was given, else the current directory.
/// The manifest's own name is dropped, not searched as a directory.
///
/// Without a manifest path the current directory must be known.
pub fn search_start(manifest_path: Option<&str>, current_dir: Option<&str>) -> (chosen: Result<
    String,
    Error,
>)
    ensures
        match start(
            text_of(manifest_path),
            parent_of_path(text_of(manifest_path)),
            text_of(current_dir),
        ) {
            Some(dir) => chosen matches Ok(s) && s@ == dir,
            None => chosen matches Err(Error::DirectoryAccess),
        },
{
    let manifest_dir = match manifest_path {
        Some(path) => parent(path),
        None => None,
    };
    let dir = match &manifest_dir {
        Some(dir) => Some(dir.as_str()),
        None => None,
    };
    choose_start(manifest_path, dir, current_dir)
}

/// Whether `dirs` goes upward one parent at a time: each directory but the
/// first is the parent of the one before it.
pub open spec fn climbs(dirs: Seq<String>) -> bool {
    forall|i: int| 0 <= i < dirs.len() - 1 ==> parent_of((#[trigger] dirs[i])@) == Some(dirs[i + 1]@)
}

/// Whether the climb is over at `dir`: it has no parent, or none that is
/// shorter than itself.
pub open spec fn is_top(dir: Seq<char>) -> bool {
    match parent_of(dir) {
        Some(up) => size(up) >= size(dir),
        None => true,
    }
}

/// The directories that the search looks into, nearest first: `start`, then
/// each one's parent, up to the one that has none. Each is shorter than the
/// one before it, so there are no more of them than `start` has bytes, and
/// one for the empty path.
pub fn candidates(start: &str) -> (dirs: Vec<String>)
    ensures
        dirs@.len() >= 1,
        dirs@[0]@ == start@,
        climbs(dirs@),
        is_top(dirs@.last()@),
        forall|i: int, j: int|
            0 <= i < j < dirs@.len() ==> size((#[trigger] dirs@[j])@) < size(
                (#[trigger] dirs@[i])@,
            ),
        dirs@.len() <= size(start@) + 1,
{
    let mut dirs: Vec<String> = Vec::new();
    dirs.push(start.to_owned());
    loop
        invariant
            dirs@.len() >= 1,
            dirs@[0]@ == start@,
            climbs(dirs@),
            forall|i: int, j: int|
                0 <= i < j < dirs@.len() ==> size((#[trigger] dirs@[j])@) < size(
                    (#[trigger] dirs@[i])@,
                ),
            dirs@.len() + size(dirs@.last()@) <= size(start@) + 1,
        decreases size(dirs@.last()@),
    {
        let last = dirs.len() - 1;
        match parent(dirs[last].as_str()) {
            Some(up) => {
                if up.as_str().as_bytes().len() < dirs[last].as_str().as_bytes().len() {
                    dirs.push(up);
                } else {
                    return dirs;
                }
            },
            None => {
                return dirs;
            },
        }
    }
}

/// The first of the probed directories that holds the marker file.
pub open spec fn first_marked(probed: Seq<(String, bool)>) -> Option<Seq<char>>
    decreases probed.len(),
{
    if probed.len() == 0 {
        None
    } else if probed[0].1 {
        Some(probed[0].0@)
    } else {
        first_marked(probed.drop_first())
    }
}

/// The root of the project: the nearest directory that holds the marker
/// file. `probed` lists the candidates, nearest first, each with whether the
/// marker file was found in it. That no directory holds one is no error: the
/// project may not exist yet.
pub fn root(probed: &Vec<(String, bool)>) -> (found: Option<Root>)
    ensures
        match found {
            Some(root) => first_marked(probed@) == Some(root@),
            None => first_marked(probed@) is None,
        },
        found is None <==> forall|i: int| 0 <= i < probed@.len() ==> !(#[trigger] probed@[i]).1,
{
    let mut i: usize = 0;
    proof {
        assert(probed@.skip(0) =~= probed@);
    }
    while i < probed.len()
        invariant
            i <= probed.len(),
            first_marked(probed@) == first_marked(probed@.skip(i as int)),
            forall|j: int| 0 <= j < i ==> !(#[trigger] probed@[j]).1,
        decreases probed.len() - i,
    {
        proof {
            assert(probed@.skip(i as int).drop_first() =~= probed@.skip(i + 1));
        }
        if probed[i].1 {
            return Some(Root { path: probed[i].0.clone() });
        }
        i += 1;
    }
    None
}

} // verus!
