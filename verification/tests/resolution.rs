use asset_pipeline::paths::{join_path, resolve, set_ext, split_path};

#[test]
fn resolution_is_path_relative_and_extension_fixed() {
    assert_eq!(resolve("pages/home.js", "./util"), "pages/util.js");
}

#[test]
fn resolution_from_a_root_level_file() {
    assert_eq!(resolve("home.js", "./util"), "util.js");
}

#[test]
fn resolution_climbs_parent_directories() {
    assert_eq!(resolve("pages/admin/home.js", "../shared/util"), "pages/shared/util.js");
}

#[test]
fn resolution_overwrites_an_existing_extension() {
    assert_eq!(resolve("pages/home.js", "./util.ts"), "pages/util.js");
    assert_eq!(resolve("pages/home.js", "./style.css"), "pages/style.js");
}

#[test]
fn resolution_of_a_bare_sibling_name() {
    assert_eq!(resolve("pages/home.js", "util"), "pages/util.js");
}

#[test]
fn split_and_join_round_trip() {
    let segs = split_path("a/b/c.js");
    assert_eq!(segs, vec!["a".to_string(), "b".to_string(), "c.js".to_string()]);
    assert_eq!(join_path(&segs), "a/b/c.js");
}

#[test]
fn set_ext_rewrites_only_the_trailing_extension() {
    assert_eq!(set_ext("style.scss", "css"), "style.css");
    assert_eq!(set_ext("archive.tar.gz", "css"), "archive.tar.css");
    assert_eq!(set_ext("noext", "css"), "noext.css");
    assert_eq!(set_ext(".hidden", "css"), ".hidden.css");
}
