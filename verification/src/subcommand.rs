//! The subcommand the user asked for, as far as the sysroot is concerned.

use vstd::prelude::*;
use vstd::std_specs::convert::FromSpecImpl;
use crate::text::str_eq;

verus! {

/// The subcommands that are told apart; every other name is `Other`.
#[derive(Clone, Copy, PartialEq, Eq, Structural)]
pub enum Subcommand {
    Clean,
    Doc,
    Init,
    New,
    Other,
    Search,
    Update,
}

impl Subcommand {
    /// The subcommand that a name stands for: an exact, case-sensitive match.
    pub open spec fn classify(name: Seq<char>) -> Subcommand {
        if name == "clean"@ {
            Subcommand::Clean
        } else if name == "doc"@ {
            Subcommand::Doc
        } else if name == "init"@ {
            Subcommand::Init
        } else if name == "new"@ {
            Subcommand::New
        } else if name == "search"@ {
            Subcommand::Search
        } else if name == "update"@ {
            Subcommand::Update
        } else {
            Subcommand::Other
        }
    }

    /// Whether the subcommand builds code, and so needs a sysroot.
    pub open spec fn sysroot_needed(self) -> bool {
        self is Doc || self is Other
    }

    /// Whether the subcommand needs a sysroot: false only for the five
    /// subcommands that compile nothing.
    pub fn needs_sysroot(&self) -> (needed: bool)
        ensures
            needed == self.sysroot_needed(),
    {
        match *self {
            Subcommand::Clean
            | Subcommand::Init
            | Subcommand::New
            | Subcommand::Search
            | Subcommand::Update => false,
            _ => true,
        }
    }
}

impl<'a> From<&'a str> for Subcommand {
    fn from(s: &'a str) -> (kind: Subcommand) {
        if str_eq(s, "clean") {
            Subcommand::Clean
        } else if str_eq(s, "doc") {
            Subcommand::Doc
        } else if str_eq(s, "init") {
            Subcommand::Init
        } else if str_eq(s, "new") {
            Subcommand::New
        } else if str_eq(s, "search") {
            Subcommand::Search
        } else if str_eq(s, "update") {
            Subcommand::Update
        } else {
            Subcommand::Other
        }
    }
}

impl<'a> FromSpecImpl<&'a str> for Subcommand {
    open spec fn obeys_from_spec() -> bool {
        true
    }

    open spec fn from_spec(s: &'a str) -> Subcommand {
        Subcommand::classify(s@)
    }
}

/// A name that is none of the six known ones is `Other`, and `Other` needs a
/// sysroot: what is not known is never skipped.
pub proof fn lemma_unknown_needs_sysroot(name: Seq<char>)
    requires
        name != "clean"@,
        name != "doc"@,
        name != "init"@,
        name != "new"@,
        name != "search"@,
        name != "update"@,
    ensures
        Subcommand::classify(name) == Subcommand::Other,
        Subcommand::classify(name).sysroot_needed(),
{
}

/// A sysroot is needed for `doc` and for every unknown name, and for
/// nothing else.
pub proof fn lemma_sysroot_needed(name: Seq<char>)
    ensures
        Subcommand::classify(name).sysroot_needed() <==> !(name == "clean"@ || name == "init"@
            || name == "new"@ || name == "search"@ || name == "update"@),
{
    reveal_strlit("clean");
    reveal_strlit("doc");
    reveal_strlit("init");
    reveal_strlit("new");
    reveal_strlit("search");
    reveal_strlit("update");
    assert("doc"@.len() == 3 && "new"@.len() == 3 && "init"@.len() == 4 && "clean"@.len() == 5
        && "search"@.len() == 6 && "update"@.len() == 6);
    assert("doc"@[0] == 'd' && "new"@[0] == 'n' && "search"@[0] == 's' && "update"@[0] == 'u');
}

} // verus!
