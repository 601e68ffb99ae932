//! Compiler flags: where they come from, and how they are handed on.

use std::collections::hash_map::DefaultHasher;
use vstd::prelude::*;
use vstd::string::StringExecFns;
use crate::config::{member, Config};
use crate::digest::{hash_str, lemma_writes_first, writes};
use crate::error::{Error, Shape};
use crate::text::{
    copy_strings, join, joined, split_whitespace, starts_with, str_eq, to_uppercase, uppercase,
    words,
};
use crate::value::{trees, Tree, ConfigTree};

verus! {

/// The part of the configuration file that an entry was found in.
#[derive(Clone, Copy, Debug, PartialEq, Eq, Structural)]
pub enum Source {
    /// `target.<target>.<tool>`
    Target,
    /// `build.<tool>`
    Build,
}

/// The value of the first variable called `name`.
pub open spec fn variable(env: Seq<(String, String)>, name: Seq<char>) -> Option<Seq<char>>
    decreases env.len(),
{
    if env.len() == 0 {
        None
    } else if env[0].0@ == name {
        Some(env[0].1@)
    } else {
        variable(env.drop_first(), name)
    }
}

/// The entry that applies to `tool` when building for `target`: the one of
/// the target where there is one, else the build-wide one. The source is
/// `Build` whenever the target has no entry, whether or not `build` has one.
pub open spec fn entry(config: Tree, target: Seq<char>, tool: Seq<char>) -> (Source, Option<Tree>) {
    match member(member(config.get("target"@), target), tool) {
        Some(value) => (Source::Target, Some(value)),
        None => (Source::Build, member(config.get("build"@), tool)),
    }
}

/// The strings of an array of strings; any other value has none.
pub open spec fn strings(value: Tree) -> Option<Seq<Seq<char>>> {
    match value {
        Tree::Array(a) => if forall|i: int| 0 <= i < a.len() ==> (#[trigger] a[i]) is String {
            Some(Seq::new(a.len(), |i: int| a[i]->String_0))
        } else {
            None
        },
        _ => None,
    }
}

/// The dotted path of the key that an entry was found under.
pub open spec fn key_path(source: Source, target: Seq<char>, tool: Seq<char>) -> Seq<char> {
    match source {
        Source::Build => "build."@ + tool,
        Source::Target => "target."@ + target + "."@ + tool,
    }
}

/// What the resolution of a tool's flags comes to.
pub enum Resolution {
    /// These flags, in this order.
    Flags(Seq<Seq<char>>),
    /// The entry found in this part of the file is no array of strings.
    Malformed(Source),
}

/// The tree of a configuration file that may be absent.
pub open spec fn tree_of(config: Option<&Config>) -> Option<Tree> {
    match config {
        Some(c) => Some(c@),
        None => None,
    }
}

/// The flags for `tool`, as mathematics, where `name` is what the tool's
/// variable is called. First match wins: the variable, split at whitespace;
/// else the entry of the configuration file; else no flags.
pub open spec fn resolution_named(
    env: Seq<(String, String)>,
    name: Seq<char>,
    config: Option<Tree>,
    target: Seq<char>,
    tool: Seq<char>,
) -> Resolution {
    match variable(env, name) {
        Some(raw) => Resolution::Flags(words(raw)),
        None => match config {
            None => Resolution::Flags(Seq::empty()),
            Some(config) => match entry(config, target, tool) {
                (_, None) => Resolution::Flags(Seq::empty()),
                (source, Some(value)) => match strings(value) {
                    Some(flags) => Resolution::Flags(flags),
                    None => Resolution::Malformed(source),
                },
            },
        },
    }
}

/// The flags for `tool`, as mathematics: its variable is called by its
/// name in upper case.
pub open spec fn resolution(
    env: Seq<(String, String)>,
    config: Option<Tree>,
    target: Seq<char>,
    tool: Seq<char>,
) -> Resolution {
    resolution_named(env, uppercase(tool), config, target, tool)
}

/// Looks `name` up among the variables.
pub fn lookup_variable<'a>(env: &'a Vec<(String, String)>, name: &str) -> (found: Option<&'a str>)
    ensures
        match found {
            Some(value) => variable(env@, name@) == Some(value@),
            None => variable(env@, name@) is None,
        },
{
    let mut i: usize = 0;
    proof {
        assert(env@.skip(0) =~= env@);
    }
    while i < env.len()
        invariant
            i <= env.len(),
            variable(env@, name@) == variable(env@.skip(i as int), name@),
        decreases env.len() - i,
    {
        proof {
            assert(env@.skip(i as int).drop_first() =~= env@.skip(i + 1));
        }
        if str_eq(env[i].0.as_str(), name) {
            return Some(env[i].1.as_str());
        }
        i += 1;
    }
    None
}

/// Finds the entry for `tool` in the configuration file, and says which
/// part of the file it was looked for in last.
pub fn find_entry<'a>(table: &'a ConfigTree, target: &str, tool: &str) -> (found: (
    Source,
    Option<&'a ConfigTree>,
))
    ensures
        found.0 == entry(table@, target@, tool@).0,
        match found.1 {
            Some(value) => entry(table@, target@, tool@).1 == Some(value@),
            None => entry(table@, target@, tool@).1 is None,
        },
{
    let in_target = match table.get("target") {
        Some(targets) => match targets.get(target) {
            Some(section) => section.get(tool),
            None => None,
        },
        None => None,
    };
    match in_target {
        Some(value) => (Source::Target, Some(value)),
        None => {
            let in_build = match table.get("build") {
                Some(build) => build.get(tool),
                None => None,
            };
            (Source::Build, in_build)
        },
    }
}

/// Reads `value` as an array of strings.
pub fn string_array(value: &ConfigTree) -> (found: Option<Vec<String>>)
    ensures
        match found {
            Some(flags) => strings(value@) == Some(flags.deep_view()),
            None => strings(value@) is None,
        },
{
    match value.as_array() {
        None => None,
        Some(array) => {
            let mut flags: Vec<String> = Vec::new();
            let mut i: usize = 0;
            while i < array.len()
                invariant
                    i <= array.len(),
                    value@ == Tree::Array(trees(array@)),
                    flags@.len() == i,
                    forall|j: int| 0 <= j < i ==> (#[trigger] trees(array@)[j]) is String,
                    forall|j: int|
                        0 <= j < i ==> (#[trigger] flags@[j])@ == trees(array@)[j]->String_0,
                decreases array.len() - i,
            {
                match array[i].as_str() {
                    Some(flag) => {
                        flags.push(flag.to_owned());
                    },
                    None => {
                        assert(!(trees(array@)[i as int] is String));
                        return None;
                    },
                }
                i += 1;
            }
            proof {
                assert(flags.deep_view() =~= strings(value@)->0);
            }
            Some(flags)
        },
    }
}

/// The dotted path of the key that an entry was found under.
pub fn key_of(source: Source, target: &str, tool: &str) -> (key: String)
    ensures
        key@ == key_path(source, target@, tool@),
{
    match source {
        Source::Build => {
            let mut key = String::from_str("build.");
            key.append(tool);
            key
        },
        Source::Target => {
            let mut key = String::from_str("target.");
            key.append(target);
            key.append(".");
            key.append(tool);
            key
        },
    }
}

/// The flags for `tool` when building for `target`, where `name` is what
/// the tool's variable is called.
///
/// The variable overrides the configuration file altogether. Without it the
/// entry of the target applies, else the build-wide one; an entry that is no
/// array of strings is an error that names its key. No source at all means
/// no flags.
pub fn flags_named(
    env: &Vec<(String, String)>,
    name: &str,
    config: Option<&Config>,
    target: &str,
    tool: &str,
) -> (resolved: Result<Vec<String>, Error>)
    ensures
        match resolution_named(env@, name@, tree_of(config), target@, tool@) {
            Resolution::Flags(flags) => resolved matches Ok(found) && found.deep_view() == flags,
            Resolution::Malformed(source) => {
                &&& resolved matches Err(Error::ConfigShape { key, expected })
                &&& key@ == key_path(source, target@, tool@)
                &&& expected == Shape::ArrayOfStrings
            },
        },
{
    if let Some(raw) = lookup_variable(env, name) {
        return Ok(split_whitespace(raw));
    }
    match config {
        None => {
            let none: Vec<String> = Vec::new();
            assert(none.deep_view() =~= Seq::<Seq<char>>::empty());
            Ok(none)
        },
        Some(config) => {
            let (source, found) = find_entry(config.table(), target, tool);
            match found {
                None => {
                    let none: Vec<String> = Vec::new();
                    assert(none.deep_view() =~= Seq::<Seq<char>>::empty());
                    Ok(none)
                },
                Some(value) => match string_array(value) {
                    Some(flags) => Ok(flags),
                    None => Err(
                        Error::ConfigShape {
                            key: key_of(source, target, tool),
                            expected: Shape::ArrayOfStrings,
                        },
                    ),
                },
            }
        },
    }
}

/// The flags for `tool` when building for `target`.
///
/// A variable of the environment called by the tool's name in upper case
/// overrides the configuration file altogether; the rest is as in
/// `flags_named`.
pub fn flags(
    env: &Vec<(String, String)>,
    config: Option<&Config>,
    target: &str,
    tool: &str,
) -> (resolved: Result<Vec<String>, Error>)
    ensures
        match resolution(env@, tree_of(config), target@, tool@) {
            Resolution::Flags(flags) => resolved matches Ok(found) && found.deep_view() == flags,
            Resolution::Malformed(source) => {
                &&& resolved matches Err(Error::ConfigShape { key, expected })
                &&& key@ == key_path(source, target@, tool@)
                &&& expected == Shape::ArrayOfStrings
            },
        },
{
    let name = to_uppercase(tool);
    flags_named(env, name.as_str(), config, target, tool)
}

/// Whether a value of the codegen option passes arguments to the linker.
pub open spec fn is_linker_arg(value: Seq<char>) -> bool {
    "link-arg="@.is_prefix_of(value) || "link-args="@.is_prefix_of(value)
}

/// The flags that count for the identity of a sysroot, in their order: all
/// but each `-C` that is followed by linker arguments, and those arguments.
///
/// A `-C` takes the flag after it as its value, whatever that flag is; a
/// `-C` at the very end has no value and counts by itself.
pub open spec fn hashed(flags: Seq<Seq<char>>) -> Seq<Seq<char>>
    decreases flags.len(),
{
    if flags.len() == 0 {
        Seq::empty()
    } else if flags[0] == "-C"@ && flags.len() >= 2 {
        if is_linker_arg(flags[1]) {
            hashed(flags.skip(2))
        } else {
            seq![flags[0]] + (seq![flags[1]] + hashed(flags.skip(2)))
        }
    } else {
        seq![flags[0]] + hashed(flags.skip(1))
    }
}

/// Each flag between single quotes.
pub open spec fn quoted(flags: Seq<Seq<char>>) -> Seq<Seq<char>> {
    Seq::new(flags.len(), |i: int| "'"@ + flags[i] + "'"@)
}

/// The flags for the compiler.
pub struct Rustflags {
    flags: Vec<String>,
}

impl Clone for Rustflags {
    fn clone(&self) -> (copy: Rustflags)
        ensures
            copy@ == self@,
    {
        Rustflags { flags: copy_strings(&self.flags) }
    }
}

impl View for Rustflags {
    type V = Seq<Seq<char>>;

    closed spec fn view(&self) -> Seq<Seq<char>> {
        self.flags.deep_view()
    }
}

impl Rustflags {
    /// Hashes the flags that count for the identity of a sysroot, one by
    /// one and in their order. Arguments for the linker are left out: they
    /// name paths of this machine and do not change what is compiled.
    pub fn hash(&self, hasher: &mut DefaultHasher)
        ensures
            final(hasher)@ == old(hasher)@ + writes(hashed(self@)),
    {
        let ghost start = hasher@;
        let n = self.flags.len();
        let mut i: usize = 0;
        proof {
            assert(self@.skip(0) =~= self@);
        }
        while i < n
            invariant
                n == self.flags.len(),
                i <= n,
                hasher@ + writes(hashed(self@.skip(i as int))) == start + writes(hashed(self@)),
            decreases n - i,
        {
            let ghost rest = self@.skip(i as int);
            let ghost before = hasher@;
            let flag = self.flags[i].as_str();
            proof {
                assert(rest[0] == flag@);
                assert(rest.skip(1) =~= self@.skip(i + 1));
            }
            if str_eq(flag, "-C") && i + 1 < n {
                let next = self.flags[i + 1].as_str();
                proof {
                    assert(rest[1] == next@);
                    assert(rest.skip(2) =~= self@.skip(i + 2));
                }
                if starts_with(next, "link-arg=") || starts_with(next, "link-args=") {
                } else {
                    hash_str(flag, hasher);
                    hash_str(next, hasher);
                    proof {
                        let tail = hashed(rest.skip(2));
                        lemma_writes_first(next@, tail);
                        lemma_writes_first(flag@, seq![next@] + tail);
                        assert(before + (writes(seq![flag@]) + writes(tail)) =~= before
                            + writes(seq![flag@]) + writes(tail));
                        assert(hasher@ + writes(tail) =~= before + writes(hashed(rest)));
                    }
                }
                i += 2;
            } else {
                hash_str(flag, hasher);
                proof {
                    let tail = hashed(rest.skip(1));
                    lemma_writes_first(flag@, tail);
                    assert(hasher@ + writes(tail) =~= before + writes(hashed(rest)));
                }
                i += 1;
            }
        }
        proof {
            assert(self@.skip(n as int) =~= Seq::<Seq<char>>::empty());
            assert(hasher@ + Seq::<Seq<u8>>::empty() =~= hasher@);
        }
    }

    /// Adds a flag at the end.
    pub fn push(&mut self, flag: &str)
        ensures
            final(self)@ == old(self)@.push(flag@),
    {
        let ghost before = self.flags.deep_view();
        self.flags.push(flag.to_owned());
        proof {
            assert(self.flags.deep_view() =~= before.push(flag@));
        }
    }

    /// The flags as the sysroot builder takes them: followed by `--sysroot`
    /// and the directory `home`, with the unit separator between each two,
    /// so that a flag may hold spaces.
    pub fn build_for_xargo(&self, home: &str) -> (text: String)
        ensures
            text@ == joined(self@ + seq!["--sysroot"@, home@], "\x1f"@),
    {
        let mut flags = copy_strings(&self.flags);
        flags.push("--sysroot".to_owned());
        flags.push(home.to_owned());
        proof {
            assert(flags.deep_view() =~= self@ + seq!["--sysroot"@, home@]);
        }
        join(&flags, "\x1f")
    }

    /// The flags for display: each between single quotes, with a space
    /// between each two.
    pub fn to_string(&self) -> (text: String)
        ensures
            text@ == joined(quoted(self@), " "@),
    {
        let mut shown: Vec<String> = Vec::new();
        let mut i: usize = 0;
        while i < self.flags.len()
            invariant
                i <= self.flags.len(),
                shown@.len() == i,
                forall|j: int|
                    0 <= j < i ==> (#[trigger] shown@[j])@ == "'"@ + self.flags@[j]@ + "'"@,
            decreases self.flags.len() - i,
        {
            let mut one = String::from_str("'");
            one.append(self.flags[i].as_str());
            one.append("'");
            shown.push(one);
            i += 1;
        }
        proof {
            assert(shown.deep_view() =~= quoted(self@));
        }
        join(&shown, " ")
    }
}

/// The flags for the compiler when building for `target`.
pub fn rustflags(env: &Vec<(String, String)>, config: Option<&Config>, target: &str) -> (resolved:
    Result<Rustflags, Error>)
    ensures
        match resolution(env@, tree_of(config), target@, "rustflags"@) {
            Resolution::Flags(flags) => resolved matches Ok(found) && found@ == flags,
            Resolution::Malformed(source) => {
                &&& resolved matches Err(Error::ConfigShape { key, expected })
                &&& key@ == key_path(source, target@, "rustflags"@)
                &&& expected == Shape::ArrayOfStrings
            },
        },
{
    match flags(env, config, target, "rustflags") {
        Ok(flags) => Ok(Rustflags { flags }),
        Err(e) => Err(e),
    }
}

/// The flags for the documentation tool.
pub struct Rustdocflags {
    flags: Vec<String>,
}

impl View for Rustdocflags {
    type V = Seq<Seq<char>>;

    closed spec fn view(&self) -> Seq<Seq<char>> {
        self.flags.deep_view()
    }
}

impl Rustdocflags {
    /// The flags as the sysroot builder takes them: followed by `--sysroot`
    /// and the directory `home`, with the unit separator between each two,
    /// so that a flag may hold spaces.
    pub fn for_xargo(self, home: &str) -> (text: String)
        ensures
            text@ == joined(self@ + seq!["--sysroot"@, home@], "\x1f"@),
    {
        let mut flags = self.flags;
        let ghost before = flags.deep_view();
        flags.push("--sysroot".to_owned());
        flags.push(home.to_owned());
        proof {
            assert(flags.deep_view() =~= before + seq!["--sysroot"@, home@]);
        }
        join(&flags, "\x1f")
    }
}

/// The flags for the documentation tool when building for `target`.
pub fn rustdocflags(env: &Vec<(String, String)>, config: Option<&Config>, target: &str) -> (resolved:
    Result<Rustdocflags, Error>)
    ensures
        match resolution(env@, tree_of(config), target@, "rustdocflags"@) {
            Resolution::Flags(flags) => resolved matches Ok(found) && found@ == flags,
            Resolution::Malformed(source) => {
                &&& resolved matches Err(Error::ConfigShape { key, expected })
                &&& key@ == key_path(source, target@, "rustdocflags"@)
                &&& expected == Shape::ArrayOfStrings
            },
        },
{
    match flags(env, config, target, "rustdocflags") {
        Ok(flags) => Ok(Rustdocflags { flags }),
        Err(e) => Err(e),
    }
}

/// The environment overrides everything else: where the tool's variable is
/// set, the flags are the words of its value, whatever the configuration
/// file holds and whatever the target is.
pub proof fn lemma_environment_overrides(
    env: Seq<(String, String)>,
    name: Seq<char>,
    raw: Seq<char>,
    config: Option<Tree>,
    target: Seq<char>,
    tool: Seq<char>,
)
    requires
        variable(env, name) == Some(raw),
    ensures
        resolution_named(env, name, config, target, tool) == Resolution::Flags(words(raw)),
        name == uppercase(tool) ==> resolution(env, config, target, tool) == Resolution::Flags(
            words(raw),
        ),
{
}

/// The entry of the target comes before the build-wide one: where the
/// environment is silent and the target has an entry, that entry alone
/// decides, whatever `build` holds.
pub proof fn lemma_target_before_build(
    env: Seq<(String, String)>,
    name: Seq<char>,
    config: Tree,
    target: Seq<char>,
    tool: Seq<char>,
    value: Tree,
)
    requires
        variable(env, name) is None,
        member(member(config.get("target"@), target), tool) == Some(value),
    ensures
        resolution_named(env, name, Some(config), target, tool) == match strings(value) {
            Some(flags) => Resolution::Flags(flags),
            None => Resolution::Malformed(Source::Target),
        },
{
}

/// Without an entry for the target the build-wide entry decides, and
/// without that one too there are no flags, which is no error.
pub proof fn lemma_build_fallback(
    env: Seq<(String, String)>,
    name: Seq<char>,
    config: Tree,
    target: Seq<char>,
    tool: Seq<char>,
)
    requires
        variable(env, name) is None,
        member(member(config.get("target"@), target), tool) is None,
    ensures
        resolution_named(env, name, Some(config), target, tool) == match member(config.get("build"@), tool) {
            None => Resolution::Flags(Seq::empty()),
            Some(value) => match strings(value) {
                Some(flags) => Resolution::Flags(flags),
                None => Resolution::Malformed(Source::Build),
            },
        },
{
}

/// An entry that is no array of strings is rejected, and the part of the
/// file that it was found in is named: no flags are made up in its place.
pub proof fn lemma_malformed_is_rejected(
    env: Seq<(String, String)>,
    name: Seq<char>,
    config: Tree,
    target: Seq<char>,
    tool: Seq<char>,
)
    requires
        variable(env, name) is None,
        entry(config, target, tool).1 matches Some(value) && strings(value) is None,
    ensures
        resolution_named(env, name, Some(config), target, tool) == Resolution::Malformed(
            entry(config, target, tool).0,
        ),
{
}

/// A string is no array of strings, and neither is an array that holds
/// anything but strings.
pub proof fn lemma_not_strings(text: Seq<char>, array: Seq<Tree>, at: int)
    requires
        0 <= at < array.len(),
        !(array[at] is String),
    ensures
        strings(Tree::String(text)) is None,
        strings(Tree::Array(array)) is None,
{
}

/// Arguments for the linker do not count: a `-C` with linker arguments
/// after it adds nothing to what is hashed, whatever the arguments are.
pub proof fn lemma_linker_args_excluded(value: Seq<char>, rest: Seq<Seq<char>>)
    requires
        is_linker_arg(value),
    ensures
        hashed(seq!["-C"@, value] + rest) == hashed(rest),
{
    let flags = seq!["-C"@, value] + rest;
    assert(flags[0] == "-C"@);
    assert(flags[1] == value);
    assert(flags.skip(2) =~= rest);
}

/// Two lists of flags that differ only in the linker arguments after a
/// leading `-C` are hashed alike.
pub proof fn lemma_linker_args_alike(first: Seq<char>, second: Seq<char>, rest: Seq<Seq<char>>)
    requires
        is_linker_arg(first),
        is_linker_arg(second),
    ensures
        hashed(seq!["-C"@, first] + rest) == hashed(seq!["-C"@, second] + rest),
{
    lemma_linker_args_excluded(first, rest);
    lemma_linker_args_excluded(second, rest);
}

/// Any other value of `-C` counts, together with its `-C`: both are hashed,
/// in their order, before what follows.
pub proof fn lemma_codegen_option_kept(value: Seq<char>, rest: Seq<Seq<char>>)
    requires
        !is_linker_arg(value),
    ensures
        hashed(seq!["-C"@, value] + rest) == seq!["-C"@, value] + hashed(rest),
{
    let flags = seq!["-C"@, value] + rest;
    assert(flags[0] == "-C"@);
    assert(flags[1] == value);
    assert(flags.skip(2) =~= rest);
    assert(seq![flags[0]] + (seq![flags[1]] + hashed(rest)) =~= seq!["-C"@, value] + hashed(rest));
}

/// Two values of `-C` that are no linker arguments and differ give
/// different flags to hash.
pub proof fn lemma_codegen_options_differ(first: Seq<char>, second: Seq<char>)
    requires
        !is_linker_arg(first),
        !is_linker_arg(second),
        first != second,
    ensures
        hashed(seq!["-C"@, first]) != hashed(seq!["-C"@, second]),
{
    let none = Seq::<Seq<char>>::empty();
    lemma_codegen_option_kept(first, none);
    lemma_codegen_option_kept(second, none);
    assert(seq!["-C"@, first] + none =~= seq!["-C"@, first]);
    assert(seq!["-C"@, second] + none =~= seq!["-C"@, second]);
    assert(hashed(none) =~= none);
    assert((seq!["-C"@, first] + none)[1] == first);
    assert((seq!["-C"@, second] + none)[1] == second);
}

} // verus!
