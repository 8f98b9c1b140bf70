//! Request-time serving decisions: the development/production stylesheet
//! switch and the static-asset lookup, kept apart from the I/O that
//! executes them.

use vstd::prelude::*;

use crate::plan::under_root;
use crate::plan::under_root_spec;

verus! {

/// The style-source extension appended in development mode.
pub open spec fn scss_suffix() -> Seq<char> {
    seq!['.', 's', 'c', 's', 's']
}

/// The compiled-style extension appended in production mode.
pub open spec fn css_suffix() -> Seq<char> {
    seq!['.', 'c', 's', 's']
}

/// How a stylesheet request is to be satisfied.
pub enum StylePlan {
    /// Development: recompile this source file now and return the bytes,
    /// so every request reflects the current on-disk source.
    DevCompile(String),
    /// Production: hand out this precompiled file as written by the last
    /// build, never recompiling.
    ProdFile(String),
    /// The directory this mode needs is not configured.
    MissingConfig,
}

/// Decides how to serve a named stylesheet. In a development environment
/// the name resolves to a source file under the style source root and is
/// recompiled per request; in any other environment it resolves to the
/// precompiled file under the output root.
pub fn serve_style(name: &str, dev: bool, css_dir: Option<&String>, assets_dir: Option<&String>)
    -> (r: StylePlan)
    ensures
        dev ==> (match css_dir {
            Some(d) => r matches StylePlan::DevCompile(p) && p@ == under_root_spec(d@, name@)
                + scss_suffix(),
            None => r is MissingConfig,
        }),
        !dev ==> (match assets_dir {
            Some(a) => r matches StylePlan::ProdFile(p) && p@ == under_root_spec(a@, name@)
                + css_suffix(),
            None => r is MissingConfig,
        }),
{
    if dev {
        match css_dir {
            Some(d) => {
                let mut p = under_root(d.as_str(), name);
                p.append(".scss");
                proof {
                    reveal_strlit(".scss");
                    assert(p@ =~= under_root_spec(d@, name@) + scss_suffix());
                }
                StylePlan::DevCompile(p)
            },
            None => StylePlan::MissingConfig,
        }
    } else {
        match assets_dir {
            Some(a) => {
                let mut p = under_root(a.as_str(), name);
                p.append(".css");
                proof {
                    reveal_strlit(".css");
                    assert(p@ =~= under_root_spec(a@, name@) + css_suffix());
                }
                StylePlan::ProdFile(p)
            },
            None => StylePlan::MissingConfig,
        }
    }
}

/// What a serving request ends in.
pub enum ServeOutcome {
    /// The response body to send.
    Content(String),
    /// A structured not-found response, never a crash.
    NotFound,
    /// A server-side compilation failure, distinct from not-found.
    CompileError,
}

/// Classifies a development-mode recompilation: a missing source is
/// not-found; a source that failed to compile is a server error; fresh
/// output is passed through unchanged.
pub fn dev_style_outcome(source_exists: bool, compiled: Option<String>) -> (r: ServeOutcome)
    ensures
        !source_exists ==> r is NotFound,
        source_exists ==> (match compiled {
            Some(c) => r matches ServeOutcome::Content(b) && b@ == c@,
            None => r is CompileError,
        }),
{
    if !source_exists {
        ServeOutcome::NotFound
    } else {
        match compiled {
            Some(c) => ServeOutcome::Content(c),
            None => ServeOutcome::CompileError,
        }
    }
}

/// Resolves a static-asset request to the file to hand out: the requested
/// name under the configured asset root. An absent configuration is a
/// not-found condition, not a crash.
pub fn asset_target(assets_dir: Option<&String>, file_name: &str) -> (r: Option<String>)
    ensures
        r matches Some(p) ==> assets_dir matches Some(a) && p@ == under_root_spec(a@, file_name@),
        r is None ==> assets_dir is None,
{
    match assets_dir {
        Some(a) => Some(under_root(a.as_str(), file_name)),
        None => None,
    }
}

/// Classifies a static-asset read: a file that could not be opened is a
/// structured not-found response.
pub fn asset_outcome(contents: Option<String>) -> (r: ServeOutcome)
    ensures
        contents matches Some(c) ==> r matches ServeOutcome::Content(b) && b@ == c@,
        contents is None ==> r is NotFound,
{
    match contents {
        Some(c) => ServeOutcome::Content(c),
        None => ServeOutcome::NotFound,
    }
}

} // verus!
