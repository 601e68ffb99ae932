use std::collections::hash_map::DefaultHasher;
use std::hash::Hasher;

use xargo::text::{is_whitespace, join, split_whitespace};
use xargo::{flags, flags_named, rustdocflags, rustflags};
use xargo::{Config, ConfigTree, Error, Rustflags, Shape};

fn s(text: &str) -> String {
    text.to_string()
}

fn strings(items: &[&str]) -> ConfigTree {
    ConfigTree::Array(items.iter().map(|i| ConfigTree::String(s(i))).collect())
}

fn table(entries: Vec<(&str, ConfigTree)>) -> ConfigTree {
    ConfigTree::Table(entries.into_iter().map(|(k, v)| (s(k), v)).collect())
}

fn env(name: &str, value: &str) -> Vec<(String, String)> {
    vec![(s("HOME"), s("/home/me")), (s(name), s(value))]
}

fn no_env() -> Vec<(String, String)> {
    vec![(s("HOME"), s("/home/me"))]
}

fn both() -> Config {
    Config::new(table(vec![
        ("target", table(vec![("T", table(vec![("rustflags", strings(&["-a"]))]))])),
        ("build", table(vec![("rustflags", strings(&["-b"]))])),
    ]))
}

fn from_env(value: &str) -> Rustflags {
    rustflags(&env("RUSTFLAGS", value), None, "T").unwrap()
}

fn digest_of(flags: &Rustflags) -> u64 {
    let mut hasher = DefaultHasher::new();
    flags.hash(&mut hasher);
    hasher.finish()
}

fn digest_of_strings(items: &[&str]) -> u64 {
    let mut hasher = DefaultHasher::new();
    for item in items {
        std::hash::Hash::hash(*item, &mut hasher);
    }
    hasher.finish()
}

#[test]
fn environment_wins_over_any_config() {
    let expected = vec![s("-C"), s("foo"), s("-C"), s("bar")];
    let e = env("RUSTFLAGS", "-C foo -C bar");
    assert_eq!(flags(&e, None, "T", "rustflags"), Ok(expected.clone()));
    assert_eq!(flags(&e, Some(&both()), "T", "rustflags"), Ok(expected.clone()));
    assert_eq!(flags(&e, Some(&both()), "U", "rustflags"), Ok(expected.clone()));
    let broken = Config::new(table(vec![("build", table(vec![("rustflags", ConfigTree::Integer(1))]))]));
    assert_eq!(flags(&e, Some(&broken), "T", "rustflags"), Ok(expected));
}

#[test]
fn environment_name_is_the_tool_in_upper_case() {
    let e = env("RUSTDOCFLAGS", "--cfg docs");
    assert_eq!(flags(&e, Some(&both()), "T", "rustdocflags"), Ok(vec![s("--cfg"), s("docs")]));
    assert_eq!(flags(&e, Some(&both()), "T", "rustflags"), Ok(vec![s("-a")]));
    let lower = env("rustflags", "-x");
    assert_eq!(flags(&lower, Some(&both()), "T", "rustflags"), Ok(vec![s("-a")]));
}

#[test]
fn environment_value_is_split_at_any_whitespace() {
    let e = env("RUSTFLAGS", "  -C\tfoo \n\n -C\u{a0}bar\u{3000}");
    assert_eq!(
        flags(&e, None, "T", "rustflags"),
        Ok(vec![s("-C"), s("foo"), s("-C"), s("bar")])
    );
    assert_eq!(flags(&env("RUSTFLAGS", ""), Some(&both()), "T", "rustflags"), Ok(vec![]));
    assert_eq!(flags(&env("RUSTFLAGS", " \t "), Some(&both()), "T", "rustflags"), Ok(vec![]));
}

#[test]
fn split_agrees_with_std() {
    for text in ["", " ", "a", " a", "a ", "a b", "  a\t\tb\n", "né\u{2003}ço\u{85}x", "-C link-arg=-Tlink.x"] {
        let expected: Vec<String> = text.split_whitespace().map(|w| w.to_string()).collect();
        assert_eq!(split_whitespace(text), expected, "{:?}", text);
    }
}

#[test]
fn whitespace_is_what_std_calls_whitespace() {
    for code in 0..=0x10FFFFu32 {
        if let Some(c) = char::from_u32(code) {
            assert_eq!(is_whitespace(c), c.is_whitespace(), "U+{:04X}", code);
        }
    }
}

#[test]
fn target_entry_comes_before_build_entry() {
    assert_eq!(flags(&no_env(), Some(&both()), "T", "rustflags"), Ok(vec![s("-a")]));
    assert_eq!(flags(&no_env(), Some(&both()), "U", "rustflags"), Ok(vec![s("-b")]));
}

#[test]
fn flags_keep_their_order() {
    let config = Config::new(table(vec![(
        "build",
        table(vec![("rustflags", strings(&["-C", "opt-level=3", "--cfg", "x", "-C"]))]),
    )]));
    assert_eq!(
        flags(&no_env(), Some(&config), "T", "rustflags"),
        Ok(vec![s("-C"), s("opt-level=3"), s("--cfg"), s("x"), s("-C")])
    );
}

#[test]
fn nothing_configured_means_no_flags() {
    assert_eq!(flags(&no_env(), None, "T", "rustflags"), Ok(vec![]));
    assert_eq!(flags(&Vec::new(), None, "T", "rustflags"), Ok(vec![]));
    let empty = Config::new(table(vec![]));
    assert_eq!(flags(&no_env(), Some(&empty), "T", "rustflags"), Ok(vec![]));
    let other_tool = Config::new(table(vec![("build", table(vec![("rustdocflags", strings(&["-d"]))]))]));
    assert_eq!(flags(&no_env(), Some(&other_tool), "T", "rustflags"), Ok(vec![]));
    let no_table = Config::new(ConfigTree::Integer(3));
    assert_eq!(flags(&no_env(), Some(&no_table), "T", "rustflags"), Ok(vec![]));
    let empty_array = Config::new(table(vec![("build", table(vec![("rustflags", strings(&[]))]))]));
    assert_eq!(flags(&no_env(), Some(&empty_array), "T", "rustflags"), Ok(vec![]));
}

#[test]
fn malformed_build_entry_is_rejected() {
    let config = Config::new(table(vec![(
        "build",
        table(vec![("rustflags", ConfigTree::String(s("not-an-array")))]),
    )]));
    let error = flags(&no_env(), Some(&config), "T", "rustflags").unwrap_err();
    assert_eq!(
        error,
        Error::ConfigShape { key: s("build.rustflags"), expected: Shape::ArrayOfStrings }
    );
    assert_eq!(error.message(), ".cargo/config: build.rustflags must be an array of strings");
    assert!(rustflags(&no_env(), Some(&config), "T").is_err());
}

#[test]
fn malformed_target_entry_is_rejected() {
    let config = Config::new(table(vec![
        ("target", table(vec![("T", table(vec![("rustflags", ConfigTree::Boolean(true))]))])),
        ("build", table(vec![("rustflags", strings(&["-b"]))])),
    ]));
    let error = flags(&no_env(), Some(&config), "T", "rustflags").unwrap_err();
    assert_eq!(
        error,
        Error::ConfigShape { key: s("target.T.rustflags"), expected: Shape::ArrayOfStrings }
    );
    assert_eq!(error.message(), ".cargo/config: target.T.rustflags must be an array of strings");
    assert_eq!(flags(&no_env(), Some(&config), "U", "rustflags"), Ok(vec![s("-b")]));
}

#[test]
fn array_with_an_element_that_is_no_string_is_rejected() {
    let mixed = ConfigTree::Array(vec![ConfigTree::String(s("-a")), ConfigTree::Integer(1)]);
    let config = Config::new(table(vec![("build", table(vec![("rustdocflags", mixed)]))]));
    let error = rustdocflags(&no_env(), Some(&config), "T").err().unwrap();
    assert_eq!(
        error,
        Error::ConfigShape { key: s("build.rustdocflags"), expected: Shape::ArrayOfStrings }
    );
}

#[test]
fn later_entry_under_a_key_counts() {
    let config = Config::new(table(vec![
        ("build", table(vec![("rustflags", strings(&["-old"]))])),
        ("build", table(vec![("rustflags", strings(&["-x"])), ("rustflags", strings(&["-new"]))])),
    ]));
    assert_eq!(flags(&no_env(), Some(&config), "T", "rustflags"), Ok(vec![s("-new")]));
}

#[test]
fn first_variable_of_a_name_counts() {
    let e = vec![(s("RUSTFLAGS"), s("-first")), (s("RUSTFLAGS"), s("-second"))];
    assert_eq!(flags(&e, None, "T", "rustflags"), Ok(vec![s("-first")]));
}

#[test]
fn linker_arguments_do_not_change_the_digest() {
    let a = digest_of(&from_env("-C link-arg=/tmp/a"));
    let b = digest_of(&from_env("-C link-arg=/tmp/b"));
    assert_eq!(a, b);
    assert_eq!(a, DefaultHasher::new().finish());
    let plural = digest_of(&from_env("-C link-args=-L/x"));
    assert_eq!(plural, a);
    let around = digest_of(&from_env("--cfg a -C link-arg=/tmp/a -O"));
    assert_eq!(around, digest_of(&from_env("--cfg a -C link-arg=/elsewhere -O")));
    assert_eq!(around, digest_of_strings(&["--cfg", "a", "-O"]));
}

#[test]
fn other_codegen_options_change_the_digest() {
    let two = digest_of(&from_env("-C opt-level=2"));
    let three = digest_of(&from_env("-C opt-level=3"));
    assert_ne!(two, three);
    assert_eq!(two, digest_of_strings(&["-C", "opt-level=2"]));
}

#[test]
fn digest_follows_the_order_of_the_flags() {
    assert_ne!(digest_of(&from_env("-a -b")), digest_of(&from_env("-b -a")));
    assert_eq!(digest_of(&from_env("-a -b")), digest_of_strings(&["-a", "-b"]));
    assert_ne!(digest_of(&from_env("ab c")), digest_of(&from_env("a bc")));
}

#[test]
fn codegen_marker_at_the_end_is_hashed_alone() {
    assert_eq!(digest_of(&from_env("-O -C")), digest_of_strings(&["-O", "-C"]));
    assert_eq!(digest_of(&from_env("-C")), digest_of_strings(&["-C"]));
}

#[test]
fn codegen_marker_takes_the_next_flag_as_its_value() {
    // the second `-C` is the value of the first, so the linker argument stands alone
    assert_eq!(
        digest_of(&from_env("-C -C link-arg=x")),
        digest_of_strings(&["-C", "-C", "link-arg=x"])
    );
    // a linker argument without `-C` before it is hashed
    assert_eq!(digest_of(&from_env("link-arg=x")), digest_of_strings(&["link-arg=x"]));
    // only the two prefixes are linker arguments
    assert_eq!(
        digest_of(&from_env("-C linker=ld")),
        digest_of_strings(&["-C", "linker=ld"])
    );
    assert_eq!(digest_of(&from_env("-C link-arg")), digest_of_strings(&["-C", "link-arg"]));
}

#[test]
fn hashing_goes_on_from_the_state_it_is_given() {
    let mut hasher = DefaultHasher::new();
    std::hash::Hash::hash("before", &mut hasher);
    from_env("-C link-arg=x -O").hash(&mut hasher);
    assert_eq!(hasher.finish(), digest_of_strings(&["before", "-O"]));
}

#[test]
fn push_adds_at_the_end() {
    let mut flags = from_env("-a");
    flags.push("--cfg");
    flags.push("x y");
    assert_eq!(flags.to_string(), "'-a' '--cfg' 'x y'");
}

#[test]
fn display_quotes_each_flag() {
    assert_eq!(from_env("").to_string(), "");
    assert_eq!(from_env("-a").to_string(), "'-a'");
    assert_eq!(from_env("-C opt-level=3").to_string(), "'-C' 'opt-level=3'");
}

#[test]
fn rustflags_for_the_sysroot_builder() {
    assert_eq!(
        from_env("-C opt-level=3").build_for_xargo("/home/me/.xargo"),
        "-C\u{1f}opt-level=3\u{1f}--sysroot\u{1f}/home/me/.xargo"
    );
    assert_eq!(from_env("").build_for_xargo("/h"), "--sysroot\u{1f}/h");
    let mut spaced = from_env("");
    spaced.push("--cfg a b");
    assert_eq!(spaced.build_for_xargo("/h"), "--cfg a b\u{1f}--sysroot\u{1f}/h");
}

#[test]
fn rustdocflags_for_the_sysroot_builder() {
    let flags = rustdocflags(&env("RUSTDOCFLAGS", "--cfg docs"), None, "T").ok().unwrap();
    assert_eq!(
        flags.for_xargo("/home/me/.xargo"),
        "--cfg\u{1f}docs\u{1f}--sysroot\u{1f}/home/me/.xargo"
    );
    let none = rustdocflags(&no_env(), None, "T").ok().unwrap();
    assert_eq!(none.for_xargo("/h"), "--sysroot\u{1f}/h");
}

#[test]
fn rustdocflags_with_spaces_stay_apart() {
    let flags = rustdocflags(&env("RUSTDOCFLAGS", "--cfg docsrs"), None, "T").ok().unwrap();
    assert_eq!(flags.for_xargo("/h"), "--cfg\u{1f}docsrs\u{1f}--sysroot\u{1f}/h");
    let config = Config::new(table(vec![(
        "build",
        table(vec![("rustdocflags", strings(&["--cfg", "feature=\"a b\""]))]),
    )]));
    let spaced = rustdocflags(&no_env(), Some(&config), "T").ok().unwrap();
    assert_eq!(spaced.for_xargo("/my home"), "--cfg\u{1f}feature=\"a b\"\u{1f}--sysroot\u{1f}/my home");
}

#[test]
fn flags_under_a_given_variable_name() {
    let e = env("MYFLAGS", "-x  -y");
    assert_eq!(flags_named(&e, "MYFLAGS", Some(&both()), "T", "rustflags"), Ok(vec![s("-x"), s("-y")]));
    assert_eq!(flags_named(&e, "OTHER", Some(&both()), "T", "rustflags"), Ok(vec![s("-a")]));
    assert_eq!(flags_named(&e, "OTHER", Some(&both()), "U", "rustflags"), Ok(vec![s("-b")]));
    assert_eq!(flags_named(&e, "OTHER", None, "U", "rustflags"), Ok(vec![]));
    let broken = Config::new(table(vec![("build", table(vec![("rustflags", ConfigTree::Integer(1))]))]));
    assert_eq!(
        flags_named(&e, "OTHER", Some(&broken), "T", "rustflags"),
        Err(Error::ConfigShape { key: s("build.rustflags"), expected: Shape::ArrayOfStrings })
    );
    assert_eq!(flags_named(&e, "MYFLAGS", Some(&broken), "T", "rustflags"), Ok(vec![s("-x"), s("-y")]));
}

#[test]
fn clone_keeps_the_flags() {
    let flags = from_env("-a -b");
    assert_eq!(flags.clone().to_string(), "'-a' '-b'");
}

#[test]
fn join_puts_the_separator_between() {
    assert_eq!(join(&vec![], ", "), "");
    assert_eq!(join(&vec![s("a")], ", "), "a");
    assert_eq!(join(&vec![s("a"), s(""), s("c")], ", "), "a, , c");
}
