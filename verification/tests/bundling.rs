use asset_pipeline::bundler::{bundle, bundle_entry, load, BuildIssue, MetaHook};
use asset_pipeline::store::SourceStore;

fn store_of(files: &[(&str, &str)]) -> SourceStore {
    let mut store = SourceStore::new();
    for (path, content) in files {
        store.insert(path.to_string(), content.to_string());
    }
    store
}

#[test]
fn diamond_dependency_bundles_shared_module_once() {
    let store = store_of(&[
        ("a.js", "import b from \"./b\";\nimport c from \"./c\";\nlet marker_a = 0;"),
        ("b.js", "import d from \"./d\";\nlet marker_b = 1;"),
        ("c.js", "import d from \"./d\";\nlet marker_c = 2;"),
        ("d.js", "let marker_d = 3;"),
    ]);
    let art = bundle_entry(&"a.js".to_string(), &store).unwrap();
    assert_eq!(art.entry, "a.js");
    assert_eq!(art.text.matches("marker_a").count(), 1);
    assert_eq!(art.text.matches("marker_b").count(), 1);
    assert_eq!(art.text.matches("marker_c").count(), 1);
    assert_eq!(art.text.matches("marker_d").count(), 1);
    assert!(!art.text.contains("import"));
}

#[test]
fn cyclic_imports_terminate_with_each_module_once() {
    let store = store_of(&[
        ("a.js", "import b from \"./b\";\nlet marker_a = 0;"),
        ("b.js", "import a from \"./a\";\nlet marker_b = 1;"),
    ]);
    let art = bundle_entry(&"a.js".to_string(), &store).unwrap();
    assert_eq!(art.text.matches("marker_a").count(), 1);
    assert_eq!(art.text.matches("marker_b").count(), 1);
}

#[test]
fn rebuild_with_unchanged_sources_is_byte_identical() {
    let store = store_of(&[
        ("a.js", "import b from \"./b\";\nlet marker_a = 0;"),
        ("b.js", "let marker_b = 1;"),
    ]);
    let first = bundle_entry(&"a.js".to_string(), &store).unwrap();
    let second = bundle_entry(&"a.js".to_string(), &store).unwrap();
    assert_eq!(first.text, second.text);
    assert_eq!(first.entry, second.entry);
}

#[test]
fn missing_import_fails_with_resolved_path() {
    let store = store_of(&[("a.js", "import x from \"./nope\";")]);
    match bundle_entry(&"a.js".to_string(), &store) {
        Err(BuildIssue::MissingModule(p)) => assert_eq!(p, "nope.js"),
        _ => panic!("expected a missing-module failure"),
    }
}

#[test]
fn unparsable_module_fails_with_its_path() {
    let store = store_of(&[("a.js", "import b from \"./b\";"), ("b.js", "let let ((( =")]);
    match bundle_entry(&"a.js".to_string(), &store) {
        Err(BuildIssue::ParseFailed(p)) => assert_eq!(p, "b.js"),
        _ => panic!("expected a parse failure"),
    }
}

#[test]
fn bundle_reprints_rather_than_copying_source_text() {
    let src = "let   spaced    =     1;";
    let store = store_of(&[("m.js", src)]);
    let art = bundle_entry(&"m.js".to_string(), &store).unwrap();
    assert_ne!(art.text, src);
    assert!(art.text.contains("spaced"));
}

#[test]
fn bundle_list_stops_at_first_failing_entry() {
    let store = store_of(&[("good.js", "let ok = 1;")]);
    let files = vec!["good.js".to_string(), "gone.js".to_string()];
    match bundle(&files, &store) {
        Err(BuildIssue::MissingModule(p)) => assert_eq!(p, "gone.js"),
        _ => panic!("expected the second entry to fail"),
    }
    let fine = bundle(&vec!["good.js".to_string()], &store).unwrap();
    assert_eq!(fine.len(), 1);
    assert!(fine[0].text.contains("ok"));
}

#[test]
fn source_store_keeps_first_copy_per_path() {
    let mut store = SourceStore::new();
    store.insert("x.js".to_string(), "let first = 1;".to_string());
    store.insert("x.js".to_string(), "let second = 2;".to_string());
    assert_eq!(store.get(&"x.js".to_string()).unwrap(), "let first = 1;");
}

#[test]
fn load_reads_through_the_source_map() {
    let store = store_of(&[("m.js", "import x from \"./x\";\nlet body = 1;")]);
    let rec = load(&store, &"m.js".to_string()).unwrap();
    assert_eq!(rec.path, "m.js");
    assert_eq!(rec.imports, vec!["./x".to_string()]);
    assert!(rec.printed.contains("body"));
    match load(&store, &"gone.js".to_string()) {
        Err(BuildIssue::MissingModule(p)) => assert_eq!(p, "gone.js"),
        _ => panic!("expected a missing-module failure"),
    }
}

#[test]
fn default_metadata_hook_contributes_nothing() {
    assert_eq!(MetaHook::Noop.import_meta_props().len(), 0);
}
