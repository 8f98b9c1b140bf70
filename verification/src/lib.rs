//! A verified static-asset build pipeline: script bundling by module-graph
//! traversal and stylesheet planning, with development/production serving.

use vstd::prelude::*;

pub mod plan;
pub mod serve;
pub mod template_helpers;
pub mod bundler;
pub mod paths;
pub mod store;

verus! {

/// A file name is a standalone build entry only when it neither starts
/// with an underscore (a partial) nor with a dot (a hidden file).
pub open spec fn entry_name_spec(name: Seq<char>) -> bool {
    name.len() > 0 && name[0] != '_' && name[0] != '.'
}

/// Pure filter predicate over a file name, as used by both the script and
/// the style tree walks.
pub fn is_entry_name(name: &str) -> (r: bool)
    ensures
        r == entry_name_spec(name@),
{
    if name.unicode_len() == 0 {
        return false;
    }
    let c = name.get_char(0);
    c != '_' && c != '.'
}

/// The asset pipeline as the hosting process sees it: it names itself,
/// contributes configuration defaults, and hands out its route and
/// command-line contributions.
pub struct AssetsModule;

impl AssetsModule {
    /// The module's identifier, as registered with the host.
    pub fn identifier(&self) -> (r: &'static str)
        ensures
            r@ == "asset_pipeline"@,
    {
        "asset_pipeline"
    }

    /// The module's version, as registered with the host.
    pub fn version(&self) -> (r: &'static str)
        ensures
            r@ == "0.1.0"@,
    {
        "0.1.0"
    }

    /// Contributes the pipeline's configuration entries, applying the fixed
    /// directory defaults wherever the host supplied no value.
    pub fn config(&self, css_dir: Option<String>, assets_dir: Option<String>) -> (r: Vec<
        (String, String),
    >)
        ensures
            r@.len() == 2,
            r@[0].0@ == "css_dir"@,
            r@[1].0@ == "assets_dir"@,
            r@[0].1@ == (match css_dir {
                Some(v) => v@,
                None => "css"@,
            }),
            r@[1].1@ == (match assets_dir {
                Some(v) => v@,
                None => "assets"@,
            }),
    {
        let css = match css_dir {
            Some(v) => v,
            None => "css".to_owned(),
        };
        let assets = match assets_dir {
            Some(v) => v,
            None => "assets".to_owned(),
        };
        let mut r: Vec<(String, String)> = Vec::new();
        r.push(("css_dir".to_owned(), css));
        r.push(("assets_dir".to_owned(), assets));
        r
    }

    /// The module's command-line contribution.
    pub fn cli(&self) -> (r: AssetsCliModule)
    {
        AssetsCliModule
    }

    /// The module's route contribution.
    pub fn routes(&self) -> (r: AssetsRoutesModule)
    {
        AssetsRoutesModule
    }
}

/// The pipeline's route contribution: one catch-all asset route under the
/// assets namespace.
pub struct AssetsRoutesModule;

impl AssetsRoutesModule {
    /// The mount point and route pattern the host should register.
    pub fn routes(&self) -> (r: Vec<(String, String)>)
        ensures
            r@.len() == 1,
            r@[0].0@ == "assets"@,
            r@[0].1@ == "/<file_name..>"@,
    {
        let mut r: Vec<(String, String)> = Vec::new();
        r.push(("assets".to_owned(), "/<file_name..>".to_owned()));
        r
    }
}

/// What the command line asked the pipeline to do.
pub enum CliAction {
    /// Run one full build of scripts and styles.
    Build,
}

/// Why a command-line dispatch failed.
pub enum CliIssue {
    /// No subcommand was supplied.
    NoCommand,
    /// The supplied subcommand is not one of ours.
    UnknownCommand(String),
}

/// The pipeline's command-line contribution: one `assets` subcommand with a
/// single `build` action.
pub struct AssetsCliModule;

impl AssetsCliModule {
    /// The argument under which the host dispatches to this module.
    pub fn arg(&self) -> (r: Option<String>)
        ensures
            r matches Some(s) && s@ == "assets"@,
    {
        Some("assets".to_owned())
    }

    /// The subcommands this module understands.
    pub fn app(&self) -> (r: Vec<String>)
        ensures
            r@.len() == 1,
            r@[0]@ == "build"@,
    {
        let mut r: Vec<String> = Vec::new();
        r.push("build".to_owned());
        r
    }

    /// Dispatches a parsed subcommand to the action it stands for. A
    /// missing or unknown subcommand is a structured error, not a crash.
    pub fn handle(&self, sub: Option<&String>) -> (r: Result<CliAction, CliIssue>)
        ensures
            sub is None ==> (r matches Err(e) && e is NoCommand),
            sub matches Some(s) ==> ((s@ == "build"@ ==> (r matches Ok(a) && a is Build)) && (s@
                != "build"@ ==> (r matches Err(e) && e matches CliIssue::UnknownCommand(u) && u@
                == s@))),
    {
        match sub {
            None => Err(CliIssue::NoCommand),
            Some(s) => {
                let build: String = "build".to_owned();
                if *s == build {
                    Ok(CliAction::Build)
                } else {
                    Err(CliIssue::UnknownCommand(s.clone()))
                }
            },
        }
    }
}

} // verus!
