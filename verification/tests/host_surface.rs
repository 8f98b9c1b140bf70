use asset_pipeline::plan::{handle_build, FsEntry};
use asset_pipeline::store::SourceStore;
use asset_pipeline::template_helpers::asset;
use asset_pipeline::{AssetsCliModule, AssetsModule, AssetsRoutesModule, CliAction, CliIssue};

#[test]
fn asset_urls_route_images_to_the_image_directory() {
    assert_eq!(asset("logo.png"), "/assets/img/logo.png");
    assert_eq!(asset("pic.JPEG"), "/assets/img/pic.JPEG");
    assert_eq!(asset("anim.gif"), "/assets/img/anim.gif");
}

#[test]
fn asset_urls_route_other_extensions_by_lowered_name() {
    assert_eq!(asset("doc.PDF"), "/assets/pdf/doc.PDF");
    assert_eq!(asset("site.css"), "/assets/css/site.css");
}

#[test]
fn asset_urls_without_extension_sit_at_the_root() {
    assert_eq!(asset("noext"), "/assets/noext");
    assert_eq!(asset(".hidden"), "/assets/.hidden");
}

#[test]
fn config_applies_directory_defaults() {
    let m = AssetsModule;
    let cfg = m.config(None, None);
    assert_eq!(cfg, vec![
        ("css_dir".to_string(), "css".to_string()),
        ("assets_dir".to_string(), "assets".to_string()),
    ]);
    let cfg = m.config(Some("styles".to_string()), None);
    assert_eq!(cfg[0].1, "styles");
    assert_eq!(cfg[1].1, "assets");
}

#[test]
fn module_identity_and_contributions() {
    let m = AssetsModule;
    assert_eq!(m.identifier(), "asset_pipeline");
    assert_eq!(m.version(), "0.1.0");
    let routes = AssetsRoutesModule.routes();
    assert_eq!(routes, vec![("assets".to_string(), "/<file_name..>".to_string())]);
    let cli = AssetsCliModule;
    assert_eq!(cli.arg(), Some("assets".to_string()));
    assert_eq!(cli.app(), vec!["build".to_string()]);
}

#[test]
fn cli_dispatch_accepts_build_and_rejects_the_rest() {
    let cli = AssetsCliModule;
    assert!(matches!(cli.handle(None), Err(CliIssue::NoCommand)));
    let build = "build".to_string();
    assert!(matches!(cli.handle(Some(&build)), Ok(CliAction::Build)));
    let other = "deploy".to_string();
    match cli.handle(Some(&other)) {
        Err(CliIssue::UnknownCommand(u)) => assert_eq!(u, "deploy"),
        _ => panic!("unknown subcommands must be rejected"),
    }
}

#[test]
fn full_build_plans_styles_and_bundles_scripts() {
    let css_files = vec![
        FsEntry { path: "css/a.scss".to_string(), is_file: true },
        FsEntry { path: "css/_part.scss".to_string(), is_file: true },
    ];
    let js_files = vec![
        FsEntry { path: "js/app.js".to_string(), is_file: true },
        FsEntry { path: "js/_lib.js".to_string(), is_file: true },
    ];
    let mut store = SourceStore::new();
    store.insert(
        "js/app.js".to_string(),
        "import lib from \"./_lib\";\nlet marker_app = 1;".to_string(),
    );
    store.insert("js/_lib.js".to_string(), "let marker_lib = 2;".to_string());
    let assets = "assets".to_string();
    let out = handle_build(&css_files, &js_files, &store, &assets).unwrap();
    assert_eq!(out.styles.len(), 1);
    assert_eq!(out.styles[0].dest, "assets/css/a.css");
    assert_eq!(out.scripts.len(), 1);
    assert_eq!(out.scripts[0].dest, "assets/js/app.js");
    assert!(out.scripts[0].text.contains("marker_app"));
    assert!(out.scripts[0].text.contains("marker_lib"));
}
