//! The project-local configuration file and the project manifest.

use std::collections::hash_map::DefaultHasher;
use vstd::prelude::*;
use crate::digest::{hash_str, str_writes};
use crate::error::{Error, Shape};
use crate::value::{
    lemma_members_none, lemma_members_push, lemma_view_table, live_entries, members, render,
    single_keyed, toml_text, ConfigTree, Tree,
};

verus! {

/// The member under `key` of a table that may be absent.
pub open spec fn member(of: Option<Tree>, key: Seq<char>) -> Option<Tree> {
    match of {
        Some(table) => table.get(key),
        None => None,
    }
}

/// The parsed configuration file.
pub struct Config {
    table: ConfigTree,
}

impl View for Config {
    type V = Tree;

    closed spec fn view(&self) -> Tree {
        self.table@
    }
}

impl Config {
    /// The configuration that a parsed file holds.
    pub fn new(table: ConfigTree) -> (config: Config)
        ensures
            config@ == table@,
    {
        Config { table }
    }

    /// The parsed file.
    pub fn table(&self) -> (table: &ConfigTree)
        ensures
            table@ == self@,
    {
        &self.table
    }

    /// The setting `build.target`, as mathematics: absent, a string, or
    /// present with another shape.
    pub open spec fn target_setting(config: Tree) -> Result<Option<Seq<char>>, ()> {
        match member(config.get("build"@), "target"@) {
            None => Ok(None),
            Some(value) => match value.as_str() {
                Some(s) => Ok(Some(s)),
                None => Err(()),
            },
        }
    }

    /// The target that the configuration names under `build.target`.
    ///
    /// Absent is `Ok(None)`; present but not a string is a shape error that
    /// names the key.
    pub fn target(&self) -> (found: Result<Option<&str>, Error>)
        ensures
            match Config::target_setting(self@) {
                Ok(Some(s)) => found matches Ok(Some(t)) && t@ == s,
                Ok(None) => found matches Ok(None),
                Err(_) => found matches Err(Error::ConfigShape { key, expected }) && key@
                    == "build.target"@ && expected == Shape::String,
            },
    {
        match self.table.get("build") {
            None => Ok(None),
            Some(build) => match build.get("target") {
                None => Ok(None),
                Some(value) => match value.as_str() {
                    Some(s) => Ok(Some(s)),
                    None => Err(
                        Error::ConfigShape {
                            key: "build.target".to_owned(),
                            expected: Shape::String,
                        },
                    ),
                },
            },
        }
    }
}

/// The configuration that was found, if a file was.
pub fn config(found: Option<ConfigTree>) -> (config: Option<Config>)
    ensures
        match config {
            Some(c) => found matches Some(table) && c@ == table@,
            None => found is None,
        },
{
    match found {
        Some(table) => Some(Config::new(table)),
        None => None,
    }
}

/// A profile without what does not change the compiled artifacts: a table
/// loses its `lto` entries, any other value stays as it is.
pub open spec fn stripped(profile: Tree) -> Tree {
    match profile {
        Tree::Table(members) => Tree::Table(members.remove("lto"@)),
        _ => profile,
    }
}

/// What a profile adds to the identity of a sysroot.
pub enum Contribution {
    /// Nothing: the profile sets nothing that counts.
    Nothing,
    /// This text, hashed as one string.
    Text(Seq<char>),
    /// The profile cannot be written as TOML, so it has no text.
    Unwritable,
}

/// What `profile` adds to the identity of a sysroot: nothing where only
/// `lto` is set or nothing at all, else the TOML text of the rest.
pub open spec fn contribution(profile: Tree) -> Contribution {
    let rest = stripped(profile);
    if rest == Tree::Table(Map::empty()) {
        Contribution::Nothing
    } else {
        match toml_text(rest) {
            Some(text) => Contribution::Text(text),
            None => Contribution::Unwritable,
        }
    }
}

/// A profile as the manifest would hold it: under `profile.release`.
pub open spec fn in_manifest(profile: Tree) -> Tree {
    Tree::Table(map!["profile"@ => Tree::Table(map!["release"@ => profile])])
}

/// The release profile of a manifest.
pub struct Profile<'t> {
    table: &'t ConfigTree,
}

impl<'t> View for Profile<'t> {
    type V = Tree;

    closed spec fn view(&self) -> Tree {
        self.table@
    }
}

impl<'t> Profile<'t> {
    /// What the manifest holds under `profile.release`.
    pub fn table(&self) -> (table: &'t ConfigTree)
        ensures
            table@ == self@,
    {
        self.table
    }

    /// Hashes what the profile adds to the identity of a sysroot.
    ///
    /// `lto` is left out, since it only matters when linking; a profile
    /// that sets nothing else adds nothing. What is left is written as TOML
    /// and hashed as one string. A profile that cannot be written leaves the
    /// state as it was, and is an error.
    pub fn hash(&self, hasher: &mut DefaultHasher) -> (done: Result<(), Error>)
        ensures
            match contribution(self@) {
                Contribution::Nothing => done is Ok && final(hasher)@ == old(hasher)@,
                Contribution::Text(text) => done is Ok && final(hasher)@ == old(hasher)@
                    + str_writes(text),
                Contribution::Unwritable => {
                    &&& done matches Err(Error::Unwritable)
                    &&& final(hasher)@ == old(hasher)@
                },
            },
    {
        let text = match self.table {
            ConfigTree::Table(t) => {
                let rest = live_entries(t, Some("lto"));
                proof {
                    lemma_view_table(*t);
                    lemma_view_table(rest);
                }
                if rest.len() == 0 {
                    proof {
                        lemma_members_none();
                        assert(rest@ =~= Seq::empty());
                    }
                    return Ok(());
                }
                proof {
                    assert(members(rest@).contains_key(rest@.last().0@));
                    assert(!Map::<Seq<char>, Tree>::empty().contains_key(rest@.last().0@));
                }
                render(&ConfigTree::Table(rest))
            },
            other => render(&other.normalized()),
        };
        match text {
            Some(text) => {
                hash_str(text.as_str(), hasher);
                Ok(())
            },
            None => Err(Error::Unwritable),
        }
    }

    /// The profile as TOML text, under the heading that it has in the
    /// manifest.
    pub fn to_string(&self) -> (text: Result<String, Error>)
        ensures
            match toml_text(in_manifest(self@)) {
                Some(t) => text matches Ok(s) && s@ == t,
                None => text matches Err(Error::Unwritable),
            },
    {
        let mut release: Vec<(String, ConfigTree)> = Vec::new();
        let inner = ("release".to_owned(), self.table.normalized());
        proof {
            lemma_members_none();
            lemma_members_push(release@, inner);
            assert(release@ =~= Seq::empty());
        }
        release.push(inner);
        proof {
            lemma_view_table(release);
            assert(release@.len() == 1 && single_keyed(release@[0].1));
            assert(single_keyed(ConfigTree::Table(release)));
        }
        let mut profile: Vec<(String, ConfigTree)> = Vec::new();
        let outer = ("profile".to_owned(), ConfigTree::Table(release));
        proof {
            lemma_members_push(profile@, outer);
            assert(profile@ =~= Seq::empty());
        }
        profile.push(outer);
        proof {
            lemma_view_table(profile);
            assert(profile@.len() == 1 && single_keyed(profile@[0].1));
            assert(single_keyed(ConfigTree::Table(profile)));
        }
        match render(&ConfigTree::Table(profile)) {
            Some(text) => Ok(text),
            None => Err(Error::Unwritable),
        }
    }
}

/// The parsed manifest of the project.
pub struct Toml {
    table: ConfigTree,
}

impl View for Toml {
    type V = Tree;

    closed spec fn view(&self) -> Tree {
        self.table@
    }
}

impl Toml {
    /// The `profile.release` part of the manifest, if it has one.
    pub fn profile(&self) -> (found: Option<Profile<'_>>)
        ensures
            match found {
                Some(profile) => member(self@.get("profile"@), "release"@) == Some(profile@),
                None => member(self@.get("profile"@), "release"@) is None,
            },
    {
        match self.table.get("profile") {
            Some(profiles) => match profiles.get("release") {
                Some(table) => Some(Profile { table }),
                None => None,
            },
            None => None,
        }
    }
}

/// The manifest that a parsed file holds.
pub fn manifest(table: ConfigTree) -> (manifest: Toml)
    ensures
        manifest@ == table@,
{
    Toml { table }
}

/// A profile that sets `lto` and nothing else adds nothing to the identity
/// of a sysroot, as an empty profile does.
pub proof fn lemma_lto_alone_adds_nothing(members: Map<Seq<char>, Tree>)
    requires
        forall|key: Seq<char>| members.contains_key(key) ==> key == "lto"@,
    ensures
        contribution(Tree::Table(members)) == Contribution::Nothing,
        contribution(Tree::Table(members)) == contribution(Tree::Table(Map::empty())),
{
    assert(members.remove("lto"@) =~= Map::empty());
    assert(Map::<Seq<char>, Tree>::empty().remove("lto"@) =~= Map::empty());
}

/// Setting `lto` changes nothing: a profile adds to the identity of a
/// sysroot what it would add without that entry.
pub proof fn lemma_lto_excluded(members: Map<Seq<char>, Tree>, lto: Tree)
    ensures
        contribution(Tree::Table(members.insert("lto"@, lto))) == contribution(
            Tree::Table(members),
        ),
{
    assert(members.insert("lto"@, lto).remove("lto"@) =~= members.remove("lto"@));
}

/// Taking `lto` out is final: nothing is left to take out a second time.
pub proof fn lemma_stripped_twice(profile: Tree)
    ensures
        stripped(stripped(profile)) == stripped(profile),
        contribution(stripped(profile)) == contribution(profile),
{
    match profile {
        Tree::Table(members) => {
            assert(members.remove("lto"@).remove("lto"@) =~= members.remove("lto"@));
        },
        _ => {},
    }
}

/// What else a profile sets does count: two profiles that differ in
/// anything but `lto` are told apart before they are written.
pub proof fn lemma_rest_counts(first: Map<Seq<char>, Tree>, second: Map<Seq<char>, Tree>, key: Seq<char>)
    requires
        key != "lto"@,
        first.contains_key(key),
        !second.contains_key(key) || second[key] != first[key],
    ensures
        stripped(Tree::Table(first)) != stripped(Tree::Table(second)),
{
    assert(first.remove("lto"@).contains_key(key));
    assert(first.remove("lto"@)[key] == first[key]);
    if second.contains_key(key) {
        assert(second.remove("lto"@)[key] == second[key]);
    }
}

} // verus!
