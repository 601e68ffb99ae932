use xargo::Subcommand;

#[test]
fn known_subcommands_are_told_apart() {
    assert!(Subcommand::from("clean") == Subcommand::Clean);
    assert!(Subcommand::from("doc") == Subcommand::Doc);
    assert!(Subcommand::from("init") == Subcommand::Init);
    assert!(Subcommand::from("new") == Subcommand::New);
    assert!(Subcommand::from("search") == Subcommand::Search);
    assert!(Subcommand::from("update") == Subcommand::Update);
}

#[test]
fn unknown_names_are_other() {
    for name in ["frobnicate", "build", "", "Clean", "CLEAN", "clean ", " doc", "docs", "ne", "updat"] {
        assert!(Subcommand::from(name) == Subcommand::Other, "{:?}", name);
    }
}

#[test]
fn clean_needs_no_sysroot() {
    assert!(!Subcommand::from("clean").needs_sysroot());
}

#[test]
fn doc_needs_a_sysroot() {
    assert!(Subcommand::from("doc").needs_sysroot());
}

#[test]
fn unknown_subcommand_needs_a_sysroot() {
    let kind = Subcommand::from("frobnicate");
    assert!(kind == Subcommand::Other);
    assert!(kind.needs_sysroot());
}

#[test]
fn sysroot_is_needed_by_doc_and_other_only() {
    assert!(!Subcommand::Clean.needs_sysroot());
    assert!(Subcommand::Doc.needs_sysroot());
    assert!(!Subcommand::Init.needs_sysroot());
    assert!(!Subcommand::New.needs_sysroot());
    assert!(Subcommand::Other.needs_sysroot());
    assert!(!Subcommand::Search.needs_sysroot());
    assert!(!Subcommand::Update.needs_sysroot());
}

#[test]
fn subcommands_are_copied_freely() {
    let kind = Subcommand::Doc;
    let copy = kind;
    assert!(kind == copy);
    assert!(kind.clone() == Subcommand::Doc);
}
