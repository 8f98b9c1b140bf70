//! Build planning: which walked files are standalone entries, where their
//! outputs land, and the full-build orchestration over scripts and styles.

use vstd::prelude::*;

use crate::bundler;
use crate::bundler::BuildIssue;
use crate::bundler::BundleArtifact;
use crate::bundler::bundle_text;
use crate::bundler::walk_err_matches;
use crate::entry_name_spec;
use crate::is_entry_name;
use crate::paths::join_segs;
use crate::paths::set_ext;
use crate::paths::split_path;
use crate::paths::split_segs;
use crate::paths::with_ext;
use crate::store::SourceStore;

verus! {

/// One entry met while walking a source tree: its path relative to the walk
/// root, and whether it is a regular file.
pub struct FsEntry {
    pub path: String,
    pub is_file: bool,
}

/// The plain view of a walked entry list.
pub open spec fn fs_view(files: Seq<FsEntry>) -> Seq<(Seq<char>, bool)> {
    files.map_values(|e: FsEntry| (e.path@, e.is_file))
}

/// The file name of a path: its last `/`-separated segment.
pub open spec fn file_name_spec(path: Seq<char>) -> Seq<char> {
    split_segs(path).last()
}

/// Extracts a path's file name.
pub fn file_name(path: &str) -> (r: String)
    ensures
        r@ == file_name_spec(path@),
{
    let segs = split_path(path);
    let n: usize = segs.len();
    segs[n - 1].clone()
}

/// A walked entry is a standalone build target when it is a regular file
/// whose name starts with neither `_` (a partial) nor `.` (hidden).
pub open spec fn eligible_spec(e: (Seq<char>, bool)) -> bool {
    e.1 && entry_name_spec(file_name_spec(e.0))
}

/// The stylesheet output extension.
pub open spec fn css_ext() -> Seq<char> {
    seq!['c', 's', 's']
}

/// A path with its file name's extension rewritten to the stylesheet
/// output extension.
pub open spec fn css_path_spec(path: Seq<char>) -> Seq<char> {
    let segs = split_segs(path);
    join_segs(segs.drop_last().push(with_ext(segs.last(), css_ext())))
}

/// An output path under the output root: the root, a separator, then the
/// input path, mirroring the input tree.
pub open spec fn under_root_spec(root: Seq<char>, path: Seq<char>) -> Seq<char> {
    root + seq!['/'] + path
}

/// Joins an output root and a relative path.
pub fn under_root(root: &str, path: &str) -> (r: String)
    ensures
        r@ == under_root_spec(root@, path@),
{
    let mut r = root.to_owned();
    r.append("/");
    r.append(path);
    proof {
        reveal_strlit("/");
        assert(r@ =~= under_root_spec(root@, path@));
    }
    r
}

/// One planned stylesheet compilation: source path and output path.
pub struct StyleEntry {
    pub source: String,
    pub dest: String,
}

/// The plain view of a style plan.
pub open spec fn plan_view(plan: Seq<StyleEntry>) -> Seq<(Seq<char>, Seq<char>)> {
    plan.map_values(|e: StyleEntry| (e.source@, e.dest@))
}

/// The style plan for a walked tree: every eligible file, paired with its
/// mirrored output path, extension rewritten; partials and hidden files are
/// never standalone entries.
pub open spec fn style_plan_spec(
    out_root: Seq<char>,
    files: Seq<(Seq<char>, bool)>,
) -> Seq<(Seq<char>, Seq<char>)>
    decreases files.len(),
{
    if files.len() == 0 {
        Seq::empty()
    } else {
        let pre = style_plan_spec(out_root, files.drop_last());
        if eligible_spec(files.last()) {
            pre.push((files.last().0, under_root_spec(out_root, css_path_spec(files.last().0))))
        } else {
            pre
        }
    }
}

/// Plans the style build over a walked source tree.
pub fn plan_styles(out_root: &str, files: &Vec<FsEntry>) -> (r: Vec<StyleEntry>)
    ensures
        plan_view(r@) == style_plan_spec(out_root@, fs_view(files@)),
{
    let mut plan: Vec<StyleEntry> = Vec::new();
    let n: usize = files.len();
    let mut i: usize = 0;
    while i < n
        invariant
            0 <= i <= n,
            n == files.len(),
            plan_view(plan@) == style_plan_spec(out_root@, fs_view(files@).subrange(0, i as int)),
        decreases n - i,
    {
        let ghost pre = plan_view(plan@);
        let name = file_name(files[i].path.as_str());
        if files[i].is_file && is_entry_name(name.as_str()) {
            let segs = split_path(files[i].path.as_str());
            let m: usize = segs.len();
            let renamed = set_ext(segs[m - 1].as_str(), "css");
            let mut out_segs = segs;
            let _ = out_segs.pop();
            out_segs.push(renamed);
            let rel = crate::paths::join_path(&out_segs);
            proof {
                reveal_strlit("css");
                assert("css"@ =~= css_ext());
                assert(out_segs.deep_view() =~= split_segs(files@[i as int].path@).drop_last().push(
                    with_ext(split_segs(files@[i as int].path@).last(), css_ext()),
                ));
            }
            let dest = under_root(out_root, rel.as_str());
            let source = files[i].path.clone();
            plan.push(StyleEntry { source, dest });
        }
        proof {
            let fv = fs_view(files@);
            assert(fv.subrange(0, (i + 1) as int).drop_last() =~= fv.subrange(0, i as int));
            assert(fv.subrange(0, (i + 1) as int).last() == fv[i as int]);
            assert(fv[i as int] == (files@[i as int].path@, files@[i as int].is_file));
            assert(plan_view(plan@) =~= style_plan_spec(out_root@, fv.subrange(0, (i + 1) as int)));
        }
        i += 1;
    }
    proof {
        assert(fs_view(files@).subrange(0, n as int) =~= fs_view(files@));
    }
    plan
}

/// Partials and hidden files are never standalone style outputs, and every
/// eligible file is planned exactly once, in walk order.
pub proof fn lemma_style_plan_filters(out_root: Seq<char>, files: Seq<(Seq<char>, bool)>)
    ensures
        forall|k: int|
            0 <= k < style_plan_spec(out_root, files).len() ==> entry_name_spec(
                file_name_spec(#[trigger] style_plan_spec(out_root, files)[k].0),
            ),
        forall|i: int|
            0 <= i < files.len() && eligible_spec(#[trigger] files[i]) ==> style_plan_spec(
                out_root,
                files,
            ).contains((files[i].0, under_root_spec(out_root, css_path_spec(files[i].0)))),
    decreases files.len(),
{
    if files.len() > 0 {
        lemma_style_plan_filters(out_root, files.drop_last());
        let plan = style_plan_spec(out_root, files);
        let pre = style_plan_spec(out_root, files.drop_last());
        assert forall|i: int|
            0 <= i < files.len() && eligible_spec(#[trigger] files[i]) implies plan.contains(
            (files[i].0, under_root_spec(out_root, css_path_spec(files[i].0))),
        ) by {
            let target = (files[i].0, under_root_spec(out_root, css_path_spec(files[i].0)));
            if i < files.len() - 1 {
                assert(files.drop_last()[i] == files[i]);
                assert(pre.contains(target));
                let k = choose|k: int| 0 <= k < pre.len() && pre[k] == target;
                assert(plan[k] == target);
            } else {
                assert(files.last() == files[i]);
                assert(plan[plan.len() - 1] == target);
            }
        }
    }
}

/// The script entry list: every eligible walked file, in walk order.
pub open spec fn script_entries_spec(files: Seq<(Seq<char>, bool)>) -> Seq<Seq<char>>
    decreases files.len(),
{
    if files.len() == 0 {
        Seq::empty()
    } else {
        let pre = script_entries_spec(files.drop_last());
        if eligible_spec(files.last()) {
            pre.push(files.last().0)
        } else {
            pre
        }
    }
}

/// Selects the standalone script entries from a walked tree.
pub fn script_entries(files: &Vec<FsEntry>) -> (r: Vec<String>)
    ensures
        r.deep_view() == script_entries_spec(fs_view(files@)),
{
    let mut out: Vec<String> = Vec::new();
    let n: usize = files.len();
    let mut i: usize = 0;
    while i < n
        invariant
            0 <= i <= n,
            n == files.len(),
            out.deep_view() == script_entries_spec(fs_view(files@).subrange(0, i as int)),
        decreases n - i,
    {
        let name = file_name(files[i].path.as_str());
        if files[i].is_file && is_entry_name(name.as_str()) {
            out.push(files[i].path.clone());
        }
        proof {
            let fv = fs_view(files@);
            assert(fv.subrange(0, (i + 1) as int).drop_last() =~= fv.subrange(0, i as int));
            assert(fv.subrange(0, (i + 1) as int).last() == fv[i as int]);
            assert(fv[i as int] == (files@[i as int].path@, files@[i as int].is_file));
            assert(out.deep_view() =~= script_entries_spec(fv.subrange(0, (i + 1) as int)));
        }
        i += 1;
    }
    proof {
        assert(fs_view(files@).subrange(0, n as int) =~= fs_view(files@));
    }
    out
}

/// One emitted script bundle: destination path and the bytes to write.
pub struct ScriptOutput {
    pub dest: String,
    pub text: String,
}

/// Everything a full build emits: the style compilations to run, and the
/// already-merged script bundles to write.
pub struct BuildOutput {
    pub styles: Vec<StyleEntry>,
    pub scripts: Vec<ScriptOutput>,
}

/// Plans and computes one full build: styles first, then scripts, as the
/// build command does. A failing script bundle aborts the whole build;
/// style compilation failures are per-file matters left to the caller.
pub fn handle_build(
    css_files: &Vec<FsEntry>,
    js_files: &Vec<FsEntry>,
    store: &SourceStore,
    assets_dir: &String,
) -> (r: Result<BuildOutput, BuildIssue>)
    ensures
        r matches Ok(out) ==> plan_view(out.styles@) == style_plan_spec(
            assets_dir@,
            fs_view(css_files@),
        ),
        r matches Ok(out) ==> {
            let entries = script_entries_spec(fs_view(js_files@));
            &&& out.scripts@.len() == entries.len()
            &&& forall|i: int| #![trigger out.scripts@[i]]
                0 <= i < entries.len() ==> (out.scripts@[i].dest@ == under_root_spec(
                    assets_dir@,
                    entries[i],
                ) && bundle_text(entries[i], store.entries()) == Some(out.scripts@[i].text@))
        },
        r matches Err(e) ==> exists|i: int|
            0 <= i < script_entries_spec(fs_view(js_files@)).len() && walk_err_matches(
                #[trigger] bundler::walk(
                    seq![script_entries_spec(fs_view(js_files@))[i]],
                    Seq::<Seq<char>>::empty(),
                    store.entries(),
                ),
                e,
            ) && forall|j: int|
                0 <= j < i ==> #[trigger] bundle_text(
                    script_entries_spec(fs_view(js_files@))[j],
                    store.entries(),
                ) is Some,
{
    let styles = plan_styles(assets_dir.as_str(), css_files);
    let entries = script_entries(js_files);
    let arts: Vec<BundleArtifact> = match bundler::bundle(&entries, store) {
        Ok(a) => a,
        Err(e) => {
            proof {
                let dv = entries.deep_view();
                let sp = script_entries_spec(fs_view(js_files@));
                let i = choose|i: int|
                    0 <= i < dv.len() && walk_err_matches(
                        #[trigger] bundler::walk(
                            seq![dv[i]],
                            Seq::<Seq<char>>::empty(),
                            store.entries(),
                        ),
                        e,
                    ) && forall|j: int|
                        0 <= j < i ==> #[trigger] bundle_text(dv[j], store.entries()) is Some;
                assert(sp[i] == dv[i]);
                assert(walk_err_matches(
                    bundler::walk(seq![sp[i]], Seq::<Seq<char>>::empty(), store.entries()),
                    e,
                ));
                assert forall|j: int| 0 <= j < i implies #[trigger] bundle_text(
                    sp[j],
                    store.entries(),
                ) is Some by {
                    assert(sp[j] == dv[j]);
                    assert(bundle_text(dv[j], store.entries()) is Some);
                }
            }
            return Err(e);
        },
    };
    let mut scripts: Vec<ScriptOutput> = Vec::new();
    let n: usize = arts.len();
    let mut i: usize = 0;
    while i < n
        invariant
            0 <= i <= n,
            n == arts.len(),
            scripts@.len() == i,
            arts@.len() == script_entries_spec(fs_view(js_files@)).len(),
            forall|j: int| #![trigger arts@[j]]
                0 <= j < arts@.len() ==> (arts@[j].entry@ == script_entries_spec(
                    fs_view(js_files@),
                )[j] && bundle_text(script_entries_spec(fs_view(js_files@))[j], store.entries())
                    == Some(arts@[j].text@)),
            forall|j: int| #![trigger scripts@[j]]
                0 <= j < i as int ==> (scripts@[j].dest@ == under_root_spec(
                    assets_dir@,
                    script_entries_spec(fs_view(js_files@))[j],
                ) && bundle_text(script_entries_spec(fs_view(js_files@))[j], store.entries())
                    == Some(scripts@[j].text@)),
        decreases n - i,
    {
        let dest = under_root(assets_dir.as_str(), arts[i].entry.as_str());
        let text = arts[i].text.clone();
        scripts.push(ScriptOutput { dest, text });
        i += 1;
    }
    Ok(BuildOutput { styles, scripts })
}

} // verus!
