use xargo::{candidates, choose_start, root, search_start, Error, XargoMode};

fn s(text: &str) -> String {
    text.to_string()
}

fn probed(dirs: &[(&str, bool)]) -> Vec<(String, bool)> {
    dirs.iter().map(|(d, m)| (s(d), *m)).collect()
}

#[test]
fn marker_depends_on_the_mode() {
    assert_eq!(XargoMode::Build.marker_name(), "Cargo.toml");
    assert_eq!(XargoMode::Check.marker_name(), "Xargo.toml");
}

#[test]
fn search_without_any_marker_finds_nothing() {
    let dirs = candidates("/work/project/src");
    let nowhere: Vec<(String, bool)> = dirs.into_iter().map(|d| (d, false)).collect();
    assert_eq!(nowhere.len(), 4);
    assert_eq!(root(&nowhere), None);
    assert_eq!(root(&Vec::new()), None);
}

#[test]
fn nearest_directory_with_the_marker_is_the_root() {
    let found = root(&probed(&[("/a/b/c", false), ("/a/b", true), ("/a", true), ("/", false)]));
    assert_eq!(found.unwrap().path(), "/a/b");
    let here = root(&probed(&[("/a/b/c", true), ("/a/b", false)]));
    assert_eq!(here.unwrap().path(), "/a/b/c");
    let top = root(&probed(&[("/a", false), ("/", true)]));
    assert_eq!(top.unwrap().path(), "/");
}

#[test]
fn search_looks_at_each_ancestor_once() {
    // three components and the top: four directories, and no more
    let dirs = candidates("/work/project/src");
    assert_eq!(dirs, vec![s("/work/project/src"), s("/work/project"), s("/work"), s("/")]);
    assert_eq!(candidates("/").len(), 1);
    assert_eq!(candidates("a/b/c/d").len(), 5);
}

#[test]
fn candidates_go_up_to_the_top() {
    assert_eq!(candidates("/a/b/c"), vec![s("/a/b/c"), s("/a/b"), s("/a"), s("/")]);
    assert_eq!(candidates("/"), vec![s("/")]);
    assert_eq!(candidates("a/b"), vec![s("a/b"), s("a"), s("")]);
    assert_eq!(candidates(""), vec![s("")]);
}

#[test]
fn search_starts_in_the_directory_of_the_manifest() {
    assert_eq!(search_start(Some("/work/project/Cargo.toml"), Some("/elsewhere")), Ok(s("/work/project")));
    assert_eq!(search_start(Some("/work/project/Cargo.toml"), None), Ok(s("/work/project")));
    assert_eq!(search_start(Some("Cargo.toml"), Some("/elsewhere")), Ok(s("")));
}

#[test]
fn manifest_path_without_a_parent_is_kept() {
    assert_eq!(search_start(Some("/"), Some("/elsewhere")), Ok(s("/")));
    assert_eq!(search_start(Some(""), None), Ok(s("")));
}

#[test]
fn search_starts_in_the_current_directory_otherwise() {
    assert_eq!(search_start(None, Some("/work/project/src")), Ok(s("/work/project/src")));
}

#[test]
fn unknown_current_directory_is_an_error() {
    assert_eq!(search_start(None, None), Err(Error::DirectoryAccess));
    assert_eq!(choose_start(None, None, None), Err(Error::DirectoryAccess));
    assert_eq!(choose_start(None, Some("/ignored"), None), Err(Error::DirectoryAccess));
    assert_eq!(Error::DirectoryAccess.message(), "couldn't get the current directory");
}

#[test]
fn start_is_chosen_from_what_is_known() {
    assert_eq!(choose_start(Some("/p/Cargo.toml"), Some("/p"), Some("/cwd")), Ok(s("/p")));
    assert_eq!(choose_start(Some("/"), None, Some("/cwd")), Ok(s("/")));
    assert_eq!(choose_start(None, None, Some("/cwd")), Ok(s("/cwd")));
}
