use asset_pipeline::plan::{plan_styles, script_entries, FsEntry};
use asset_pipeline::serve::{asset_outcome, asset_target, dev_style_outcome, serve_style};
use asset_pipeline::serve::{ServeOutcome, StylePlan};

fn entry(path: &str, is_file: bool) -> FsEntry {
    FsEntry { path: path.to_string(), is_file }
}

#[test]
fn partials_and_hidden_styles_are_never_standalone_outputs() {
    let files = vec![
        entry("a.scss", true),
        entry("_b.scss", true),
        entry(".hidden.scss", true),
        entry("sub", false),
    ];
    let plan = plan_styles("assets", &files);
    assert_eq!(plan.len(), 1);
    assert_eq!(plan[0].source, "a.scss");
    assert_eq!(plan[0].dest, "assets/a.css");
    assert!(!plan.iter().any(|e| e.dest == "assets/_b.css"));
    assert!(!plan.iter().any(|e| e.dest == "assets/b.css"));
}

#[test]
fn nested_style_outputs_mirror_the_source_tree() {
    let files = vec![entry("css/sub/x.scss", true)];
    let plan = plan_styles("assets", &files);
    assert_eq!(plan.len(), 1);
    assert_eq!(plan[0].dest, "assets/css/sub/x.css");
}

#[test]
fn script_entries_skip_partials_hidden_files_and_directories() {
    let files = vec![
        entry("js/app.js", true),
        entry("js/_shared.js", true),
        entry("js/.secret.js", true),
        entry("js", false),
    ];
    assert_eq!(script_entries(&files), vec!["js/app.js".to_string()]);
}

#[test]
fn development_serving_always_recompiles_the_source() {
    let css = "css".to_string();
    match serve_style("main", true, Some(&css), None) {
        StylePlan::DevCompile(p) => assert_eq!(p, "css/main.scss"),
        _ => panic!("development must recompile from source"),
    }
}

#[test]
fn production_serving_hands_out_the_precompiled_file() {
    let assets = "assets".to_string();
    match serve_style("main", false, None, Some(&assets)) {
        StylePlan::ProdFile(p) => assert_eq!(p, "assets/main.css"),
        _ => panic!("production must serve the precompiled file"),
    }
}

#[test]
fn missing_configuration_is_reported_not_crashed() {
    assert!(matches!(serve_style("main", true, None, None), StylePlan::MissingConfig));
    assert!(matches!(serve_style("main", false, None, None), StylePlan::MissingConfig));
}

#[test]
fn dev_compilation_outcomes_are_classified() {
    assert!(matches!(dev_style_outcome(false, None), ServeOutcome::NotFound));
    assert!(matches!(dev_style_outcome(true, None), ServeOutcome::CompileError));
    match dev_style_outcome(true, Some("body{}".to_string())) {
        ServeOutcome::Content(b) => assert_eq!(b, "body{}"),
        _ => panic!("fresh output must pass through unchanged"),
    }
}

#[test]
fn missing_asset_is_a_not_found_outcome() {
    assert!(matches!(asset_outcome(None), ServeOutcome::NotFound));
    assert!(asset_target(None, "x.png").is_none());
    let assets = "assets".to_string();
    assert_eq!(asset_target(Some(&assets), "img/x.png").unwrap(), "assets/img/x.png");
}
