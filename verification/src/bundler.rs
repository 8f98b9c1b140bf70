//! The module bundler: a worklist walk over the import graph of one entry
//! file, deduplicating modules, tolerant of cycles, followed by a
//! deterministic merge of the reprinted modules.

use vstd::prelude::*;
use vstd::seq_lib::lemma_seq_contains_after_push;
use vstd::seq_lib::lemma_seq_concat_contains_all_elements;
use vstd::seq_lib::seq_to_set_is_finite;
use vstd::set::group_set_axioms;

use crate::paths::resolve;
use crate::paths::resolve_spec;
use crate::store::SourceStore;
use crate::store::lookup;
use crate::store::keys_of;
use crate::store::lemma_lookup_some_is_key;

use swc_common::FileName;
use swc_common::FilePathMapping;
use swc_common::SourceMap;
use swc_common::sync::Lrc;
use swc_ecma_ast::ModuleDecl;
use swc_ecma_ast::ModuleItem;
use swc_ecma_codegen::Emitter;
use swc_ecma_codegen::text_writer::JsWriter;
use swc_ecma_parser::Parser;
use swc_ecma_parser::StringInput;
use swc_ecma_parser::Syntax;

verus! {

/// The raw import specifiers that parsing a script source yields, in source
/// order. A fixed parse dialect makes this a function of the text alone.
pub uninterp spec fn imports_of(src: Seq<char>) -> Seq<Seq<char>>;

/// Whether a script source parses under the fixed dialect.
pub uninterp spec fn parses_ok(src: Seq<char>) -> bool;

/// The reprinted text of a script source with its import declarations
/// removed: parse, drop the imports that the merge has already satisfied,
/// then serialize with the fixed line ending and no minification. A
/// function of the text alone.
pub uninterp spec fn printed_form(src: Seq<char>) -> Seq<char>;

/// Relies on swc_ecma_parser::Parser::parse_module: parsing a fixed
/// ECMAScript dialect is deterministic in the source text, and the import
/// declarations it finds are the module's raw import specifiers.
#[verifier::external_body]
fn parse_imports(src: &String) -> (r: Option<Vec<String>>)
    ensures
        r is Some <==> parses_ok(src@),
        r matches Some(v) ==> v.deep_view() == imports_of(src@),
{
    let cm: Lrc<SourceMap> = Lrc::new(SourceMap::new(FilePathMapping::empty()));
    let fm = cm.new_source_file(FileName::Anon.into(), src.clone());
    let mut parser = Parser::new(Syntax::Es(Default::default()), StringInput::from(&*fm), None);
    let module = parser.parse_module().ok()?;
    let mut out: Vec<String> = Vec::new();
    for item in module.body.iter() {
        if let ModuleItem::ModuleDecl(ModuleDecl::Import(d)) = item {
            out.push(d.src.value.to_string_lossy().into_owned());
        }
    }
    Some(out)
}

/// Relies on swc_ecma_parser::Parser::parse_module and
/// swc_ecma_codegen::Emitter::emit_module: reprinting a parsed module with a
/// fixed configuration (newline line ending, no minification) is
/// deterministic in the source text, and writing to an in-memory buffer
/// cannot fail. The module's import declarations are left out of the
/// print: the bundle merge has already inlined what they named.
#[verifier::external_body]
fn print_module(src: &String) -> (r: Option<String>)
    ensures
        r is Some <==> parses_ok(src@),
        r matches Some(t) ==> t@ == printed_form(src@),
{
    let cm: Lrc<SourceMap> = Lrc::new(SourceMap::new(FilePathMapping::empty()));
    let fm = cm.new_source_file(FileName::Anon.into(), src.clone());
    let mut parser = Parser::new(Default::default(), StringInput::from(&*fm), None);
    let mut module = parser.parse_module().ok()?;
    module.body.retain(|i| !matches!(i, ModuleItem::ModuleDecl(ModuleDecl::Import(_))));
    let mut buf: Vec<u8> = Vec::new();
    let wr = JsWriter::new(cm.clone(), "\n", &mut buf, None);
    let mut emitter = Emitter { cfg: Default::default(), cm, comments: None, wr };
    emitter.emit_module(&module).ok()?;
    String::from_utf8(buf).ok()
}

/// The import specifiers of a module, each resolved against the module's
/// own path.
pub open spec fn resolved_imports(p: Seq<char>, content: Seq<char>) -> Seq<Seq<char>> {
    Seq::new(imports_of(content).len(), |i: int| resolve_spec(p, imports_of(content)[i]))
}

/// What a worklist walk of the module graph ends in.
pub enum WalkOutcome {
    /// Every reachable module was loaded once; the paths in discovery order.
    Done(Seq<Seq<char>>),
    /// A needed module path is not in the source store.
    Missing(Seq<char>),
    /// A needed module's source does not parse.
    Unparsed(Seq<char>),
}

/// The number of stored paths not yet visited: the walk's termination
/// measure.
pub open spec fn unvisited_count(
    entries: Seq<(Seq<char>, Seq<char>)>,
    visited: Seq<Seq<char>>,
) -> nat {
    keys_of(entries).to_set().difference(visited.to_set()).len()
}

/// Visiting a stored, unvisited path shrinks the unvisited count.
pub proof fn lemma_unvisited_decreases(
    entries: Seq<(Seq<char>, Seq<char>)>,
    visited: Seq<Seq<char>>,
    p: Seq<char>,
)
    requires
        keys_of(entries).contains(p),
        !visited.contains(p),
    ensures
        unvisited_count(entries, visited.push(p)) < unvisited_count(entries, visited),
{
    broadcast use group_set_axioms, seq_to_set_is_finite, lemma_seq_contains_after_push;

    let s = keys_of(entries).to_set();
    let v = visited.to_set();
    let v2 = visited.push(p).to_set();
    assert(v2 =~= v.insert(p));
    assert(s.difference(v2) =~= s.difference(v).remove(p));
    assert(s.difference(v).finite());
    assert(s.difference(v).contains(p));
    assert(s.difference(v).remove(p).len() == s.difference(v).len() - 1);
}

/// The worklist walk itself: pop a path; skip it when already visited,
/// fail when it is unavailable or unparsable, otherwise record it and
/// enqueue its resolved imports. The skip on an already-visited path is
/// what makes cyclic and diamond-shaped graphs safe.
pub open spec fn walk(
    work: Seq<Seq<char>>,
    visited: Seq<Seq<char>>,
    entries: Seq<(Seq<char>, Seq<char>)>,
) -> WalkOutcome
    decreases unvisited_count(entries, visited), work.len(),
    via walk_decreases
{
    if work.len() == 0 {
        WalkOutcome::Done(visited)
    } else {
        let p = work.first();
        if visited.contains(p) {
            walk(work.drop_first(), visited, entries)
        } else {
            match lookup(entries, p) {
                Option::None => WalkOutcome::Missing(p),
                Option::Some(content) => {
                    if !parses_ok(content) {
                        WalkOutcome::Unparsed(p)
                    } else {
                        walk(
                            work.drop_first() + resolved_imports(p, content),
                            visited.push(p),
                            entries,
                        )
                    }
                },
            }
        }
    }
}

#[via_fn]
proof fn walk_decreases(
    work: Seq<Seq<char>>,
    visited: Seq<Seq<char>>,
    entries: Seq<(Seq<char>, Seq<char>)>,
) {
    if work.len() > 0 {
        let p = work.first();
        if !visited.contains(p) {
            match lookup(entries, p) {
                Option::Some(content) => {
                    if parses_ok(content) {
                        lemma_lookup_some_is_key(entries, p);
                        lemma_unvisited_decreases(entries, visited, p);
                    }
                },
                Option::None => {},
            }
        }
    }
}

/// Module `q` is stored and one of its resolved imports is `x`.
pub open spec fn imports_edge(
    entries: Seq<(Seq<char>, Seq<char>)>,
    q: Seq<char>,
    x: Seq<char>,
) -> bool {
    lookup(entries, q) matches Some(c) && resolved_imports(q, c).contains(x)
}

/// A pending path is accounted for: it is the entry itself, or an import of
/// a module already visited.
pub open spec fn origin_ok(
    entries: Seq<(Seq<char>, Seq<char>)>,
    entry: Seq<char>,
    visited: Seq<Seq<char>>,
    x: Seq<char>,
) -> bool {
    x == entry || exists|q: Seq<char>| visited.contains(q) && #[trigger] imports_edge(
        entries,
        q,
        x,
    )
}

/// Every module in the order is the entry or was imported by an earlier
/// module: nothing unreachable from the entry is ever bundled.
pub open spec fn discovery_justified(
    entries: Seq<(Seq<char>, Seq<char>)>,
    entry: Seq<char>,
    order: Seq<Seq<char>>,
) -> bool {
    forall|i: int|
        0 <= i < order.len() ==> (#[trigger] order[i] == entry || exists|j: int|
            0 <= j < i && #[trigger] imports_edge(entries, order[j], order[i]))
}

/// Every resolved import of every bundled module is itself bundled: the
/// order is transitively closed over imports.
pub open spec fn closed_under_imports(
    entries: Seq<(Seq<char>, Seq<char>)>,
    order: Seq<Seq<char>>,
) -> bool {
    forall|i: int, x: Seq<char>|
        0 <= i < order.len() && #[trigger] imports_edge(entries, order[i], x) ==> order.contains(x)
}

/// A justified path stays justified when the visited list grows.
proof fn lemma_origin_monotone(
    entries: Seq<(Seq<char>, Seq<char>)>,
    entry: Seq<char>,
    visited: Seq<Seq<char>>,
    p: Seq<char>,
    x: Seq<char>,
)
    requires
        origin_ok(entries, entry, visited, x),
    ensures
        origin_ok(entries, entry, visited.push(p), x),
{
    if x != entry {
        let q = choose|q: Seq<char>| visited.contains(q) && #[trigger] imports_edge(entries, q, x);
        let i = choose|i: int| 0 <= i < visited.len() && visited[i] == q;
        assert(visited.push(p)[i] == q);
        assert(visited.push(p).contains(q));
    }
}

/// After visiting `p`, every pending path is still justified.
proof fn lemma_work2_origin(
    entries: Seq<(Seq<char>, Seq<char>)>,
    entry: Seq<char>,
    work: Seq<Seq<char>>,
    visited: Seq<Seq<char>>,
    p: Seq<char>,
    content: Seq<char>,
)
    requires
        work.len() > 0,
        work.first() == p,
        lookup(entries, p) == Some(content),
        forall|k: int| 0 <= k < work.len() ==> origin_ok(entries, entry, visited, #[trigger] work[k]),
    ensures
        forall|k: int|
            0 <= k < (work.drop_first() + resolved_imports(p, content)).len() ==> origin_ok(
                entries,
                entry,
                visited.push(p),
                #[trigger] (work.drop_first() + resolved_imports(p, content))[k],
            ),
{
    let work2 = work.drop_first() + resolved_imports(p, content);
    let rest = work.drop_first();
    assert forall|k: int| 0 <= k < work2.len() implies origin_ok(
        entries,
        entry,
        visited.push(p),
        #[trigger] work2[k],
    ) by {
        if k < rest.len() {
            assert(work2[k] == work[k + 1]);
            lemma_origin_monotone(entries, entry, visited, p, work[k + 1]);
        } else {
            assert(work2[k] == resolved_imports(p, content)[k - rest.len()]);
            assert(resolved_imports(p, content).contains(work2[k]));
            assert(imports_edge(entries, p, work2[k]));
            assert(visited.push(p)[visited.len() as int] == p);
            assert(visited.push(p).contains(p));
        }
    }
}

/// Appending a justified path keeps the discovery order justified.
proof fn lemma_justified_push(
    entries: Seq<(Seq<char>, Seq<char>)>,
    entry: Seq<char>,
    visited: Seq<Seq<char>>,
    p: Seq<char>,
)
    requires
        discovery_justified(entries, entry, visited),
        origin_ok(entries, entry, visited, p),
    ensures
        discovery_justified(entries, entry, visited.push(p)),
{
    let visited2 = visited.push(p);
    assert forall|i: int| 0 <= i < visited2.len() implies (#[trigger] visited2[i] == entry
        || exists|j: int| 0 <= j < i && #[trigger] imports_edge(entries, visited2[j], visited2[i]))
        by {
        if i < visited.len() {
            assert(visited2[i] == visited[i]);
            if visited[i] != entry {
                let j = choose|j: int|
                    0 <= j < i && #[trigger] imports_edge(entries, visited[j], visited[i]);
                assert(visited2[j] == visited[j]);
                assert(imports_edge(entries, visited2[j], visited2[i]));
            }
        } else {
            assert(visited2[i] == p);
            if p != entry {
                let q = choose|q: Seq<char>|
                    visited.contains(q) && #[trigger] imports_edge(entries, q, p);
                let j = choose|j: int| 0 <= j < visited.len() && visited[j] == q;
                assert(visited2[j] == q);
                assert(imports_edge(entries, visited2[j], visited2[i]));
            }
        }
    }
}

/// After visiting `p`, every import of a visited module is visited or
/// still pending.
proof fn lemma_edges_transfer(
    entries: Seq<(Seq<char>, Seq<char>)>,
    work: Seq<Seq<char>>,
    visited: Seq<Seq<char>>,
    p: Seq<char>,
    content: Seq<char>,
)
    requires
        work.len() > 0,
        work.first() == p,
        lookup(entries, p) == Some(content),
        forall|i: int, x: Seq<char>|
            0 <= i < visited.len() && #[trigger] imports_edge(entries, visited[i], x)
                ==> visited.contains(x) || work.contains(x),
    ensures
        forall|i: int, x: Seq<char>|
            0 <= i < visited.push(p).len() && #[trigger] imports_edge(
                entries,
                visited.push(p)[i],
                x,
            ) ==> visited.push(p).contains(x) || (work.drop_first() + resolved_imports(
                p,
                content,
            )).contains(x),
{
    let visited2 = visited.push(p);
    let rest = work.drop_first();
    let work2 = rest + resolved_imports(p, content);
    assert forall|i: int, x: Seq<char>|
        0 <= i < visited2.len() && #[trigger] imports_edge(entries, visited2[i], x)
            implies visited2.contains(x) || work2.contains(x) by {
        if i < visited.len() {
            assert(visited2[i] == visited[i]);
            assert(visited.contains(x) || work.contains(x));
            if visited.contains(x) {
                let m = choose|m: int| 0 <= m < visited.len() && visited[m] == x;
                assert(visited2[m] == x);
                assert(visited2.contains(x));
            } else {
                let k = choose|k: int| 0 <= k < work.len() && work[k] == x;
                if k == 0 {
                    assert(visited2[visited.len() as int] == p);
                    assert(visited2.contains(x));
                } else {
                    assert(work2[k - 1] == rest[k - 1]);
                    assert(rest[k - 1] == work[k]);
                    assert(work2.contains(x));
                }
            }
        } else {
            assert(visited2[i] == p);
            let m = choose|m: int|
                0 <= m < resolved_imports(p, content).len() && resolved_imports(p, content)[m]
                    == x;
            assert(work2[rest.len() + m] == x);
            assert(work2.contains(x));
        }
    }
}

/// The walk's inductive invariant: from any intermediate state whose
/// pending work is justified, a finished walk yields a duplicate-free,
/// justified, import-closed discovery order extending the visited prefix.
pub proof fn lemma_walk_invariants(
    entries: Seq<(Seq<char>, Seq<char>)>,
    entry: Seq<char>,
    work: Seq<Seq<char>>,
    visited: Seq<Seq<char>>,
)
    requires
        visited.no_duplicates(),
        forall|k: int| 0 <= k < work.len() ==> origin_ok(entries, entry, visited, #[trigger] work[k]),
        discovery_justified(entries, entry, visited),
        forall|i: int, x: Seq<char>|
            0 <= i < visited.len() && #[trigger] imports_edge(entries, visited[i], x)
                ==> visited.contains(x) || work.contains(x),
    ensures
        walk(work, visited, entries) matches WalkOutcome::Done(order) ==> {
            &&& order.no_duplicates()
            &&& visited.is_prefix_of(order)
            &&& forall|k: int| 0 <= k < work.len() ==> order.contains(#[trigger] work[k])
            &&& discovery_justified(entries, entry, order)
            &&& closed_under_imports(entries, order)
        },
    decreases unvisited_count(entries, visited), work.len(), 1int,
{
    if work.len() == 0 {
        assert(visited.is_prefix_of(visited)) by {
            assert(visited.subrange(0, visited.len() as int) =~= visited);
        }
        assert forall|i: int, x: Seq<char>|
            0 <= i < visited.len() && #[trigger] imports_edge(entries, visited[i], x)
                implies visited.contains(x) by {
            assert(!work.contains(x));
        }
    } else {
        let p = work.first();
        if visited.contains(p) {
            lemma_walk_inv_skip(entries, entry, work, visited);
        } else {
            match lookup(entries, p) {
                Option::None => {},
                Option::Some(content) => {
                    if parses_ok(content) {
                        lemma_walk_inv_visit(entries, entry, work, visited, content);
                    }
                },
            }
        }
    }
}

/// The induction step for a path that was already visited: it is dropped
/// from the worklist and nothing else changes.
#[verifier::spinoff_prover]
proof fn lemma_walk_inv_skip(
    entries: Seq<(Seq<char>, Seq<char>)>,
    entry: Seq<char>,
    work: Seq<Seq<char>>,
    visited: Seq<Seq<char>>,
)
    requires
        work.len() > 0,
        visited.contains(work.first()),
        visited.no_duplicates(),
        forall|k: int| 0 <= k < work.len() ==> origin_ok(entries, entry, visited, #[trigger] work[k]),
        discovery_justified(entries, entry, visited),
        forall|i: int, x: Seq<char>|
            0 <= i < visited.len() && #[trigger] imports_edge(entries, visited[i], x)
                ==> visited.contains(x) || work.contains(x),
    ensures
        walk(work, visited, entries) matches WalkOutcome::Done(order) ==> {
            &&& order.no_duplicates()
            &&& visited.is_prefix_of(order)
            &&& forall|k: int| 0 <= k < work.len() ==> order.contains(#[trigger] work[k])
            &&& discovery_justified(entries, entry, order)
            &&& closed_under_imports(entries, order)
        },
    decreases unvisited_count(entries, visited), work.len(), 0int,
{
    let p = work.first();
    let rest = work.drop_first();
    assert(work[0] == p);
    assert(forall|k: int| 0 <= k < rest.len() ==> #[trigger] rest[k] == work[k + 1]);
    assert forall|i: int, x: Seq<char>|
        0 <= i < visited.len() && #[trigger] imports_edge(entries, visited[i], x)
            implies visited.contains(x) || rest.contains(x) by {
        if !visited.contains(x) {
            let k = choose|k: int| 0 <= k < work.len() && work[k] == x;
            if k == 0 {
                assert(visited.contains(x));
            } else {
                assert(rest[k - 1] == x);
                assert(rest.contains(x));
            }
        }
    }
    lemma_walk_invariants(entries, entry, rest, visited);
    if let WalkOutcome::Done(order) = walk(work, visited, entries) {
        assert(order.contains(p)) by {
            let i = choose|i: int| 0 <= i < visited.len() && visited[i] == p;
            assert(order.subrange(0, visited.len() as int) =~= visited);
            assert(order.subrange(0, visited.len() as int)[i] == order[i]);
            assert(order[i] == p);
        }
        assert forall|k: int| 0 <= k < work.len() implies order.contains(#[trigger] work[k]) by {
            if k > 0 {
                assert(rest[k - 1] == work[k]);
                assert(rest.contains(work[k]));
            }
        }
    }
}

/// The induction step for a newly visited path: it joins the discovery
/// order and its resolved imports join the worklist.
#[verifier::rlimit(100)]
#[verifier::spinoff_prover]
proof fn lemma_walk_inv_visit(
    entries: Seq<(Seq<char>, Seq<char>)>,
    entry: Seq<char>,
    work: Seq<Seq<char>>,
    visited: Seq<Seq<char>>,
    content: Seq<char>,
)
    requires
        work.len() > 0,
        !visited.contains(work.first()),
        lookup(entries, work.first()) == Some(content),
        parses_ok(content),
        visited.no_duplicates(),
        forall|k: int| 0 <= k < work.len() ==> origin_ok(entries, entry, visited, #[trigger] work[k]),
        discovery_justified(entries, entry, visited),
        forall|i: int, x: Seq<char>|
            0 <= i < visited.len() && #[trigger] imports_edge(entries, visited[i], x)
                ==> visited.contains(x) || work.contains(x),
    ensures
        walk(work, visited, entries) matches WalkOutcome::Done(order) ==> {
            &&& order.no_duplicates()
            &&& visited.is_prefix_of(order)
            &&& forall|k: int| 0 <= k < work.len() ==> order.contains(#[trigger] work[k])
            &&& discovery_justified(entries, entry, order)
            &&& closed_under_imports(entries, order)
        },
    decreases unvisited_count(entries, visited), work.len(), 0int,
{
    let p = work.first();
    let rest = work.drop_first();
    let visited2 = visited.push(p);
    let work2 = rest + resolved_imports(p, content);
    assert(work[0] == p);
    assert(forall|k: int| 0 <= k < rest.len() ==> #[trigger] rest[k] == work[k + 1]);
    lemma_lookup_some_is_key(entries, p);
    lemma_unvisited_decreases(entries, visited, p);
    assert(visited2.no_duplicates()) by {
        assert(forall|i: int| 0 <= i < visited.len() ==> #[trigger] visited2[i] == visited[i]);
        assert(visited2[visited.len() as int] == p);
    }
    lemma_work2_origin(entries, entry, work, visited, p, content);
    assert(origin_ok(entries, entry, visited, p));
    lemma_justified_push(entries, entry, visited, p);
    lemma_edges_transfer(entries, work, visited, p, content);
    lemma_walk_invariants(entries, entry, work2, visited2);
    assert(walk(work, visited, entries) == walk(work2, visited2, entries));
    if let WalkOutcome::Done(order) = walk(work, visited, entries) {
        assert(order.subrange(0, visited2.len() as int) =~= visited2);
        assert(visited.is_prefix_of(order)) by {
            assert forall|t: int| 0 <= t < visited.len() implies order[t] == visited[t] by {
                assert(order.subrange(0, visited2.len() as int)[t] == order[t]);
                assert(visited2[t] == visited[t]);
            }
            assert(order.subrange(0, visited.len() as int) =~= visited);
        }
        assert(order[visited.len() as int] == p) by {
            let vl = visited.len() as int;
            assert(order.subrange(0, visited2.len() as int)[vl] == order[vl]);
            assert(visited2[visited.len() as int] == p);
        }
        assert forall|k: int| 0 <= k < work.len() implies order.contains(#[trigger] work[k]) by {
            if k == 0 {
                assert(order[visited.len() as int] == p);
            } else {
                assert(rest[k - 1] == work[k]);
                assert(work2[k - 1] == work[k]);
                assert(work2.contains(work[k]));
                let m = choose|m: int| 0 <= m < work2.len() && work2[m] == work[k];
                assert(order.contains(work2[m]));
            }
        }
    }
}

/// For a finished walk from one entry: the discovery order holds the entry,
/// holds no module twice however many modules import it, is transitively
/// closed over imports, and contains nothing the entry does not reach.
pub proof fn lemma_walk_correct(entries: Seq<(Seq<char>, Seq<char>)>, entry: Seq<char>)
    ensures
        walk(seq![entry], Seq::<Seq<char>>::empty(), entries) matches WalkOutcome::Done(order)
            ==> {
            &&& order.no_duplicates()
            &&& order.contains(entry)
            &&& discovery_justified(entries, entry, order)
            &&& closed_under_imports(entries, order)
        },
{
    let work = seq![entry];
    let visited = Seq::<Seq<char>>::empty();
    assert(forall|k: int|
        0 <= k < work.len() ==> origin_ok(entries, entry, visited, #[trigger] work[k]));
    lemma_walk_invariants(entries, entry, work, visited);
    if let WalkOutcome::Done(order) = walk(work, visited, entries) {
        assert(order.contains(work[0]));
    }
}

/// Re-running a build against unchanged sources is idempotent: the bundled
/// text for an entry is a function of the stored sources alone, so any two
/// successful runs emit byte-identical output.
pub proof fn lemma_rebuild_identical(
    entries: Seq<(Seq<char>, Seq<char>)>,
    entry: Seq<char>,
    t1: Seq<char>,
    t2: Seq<char>,
)
    requires
        bundle_text(entry, entries) == Some(t1),
        bundle_text(entry, entries) == Some(t2),
    ensures
        t1 == t2,
{
}

/// One loaded module: its resolved path, the raw import specifiers found by
/// the parse, and the reprinted module text. Never mutated after creation.
pub struct ModuleRecord {
    pub path: String,
    pub imports: Vec<String>,
    pub printed: String,
}

/// Why a script build failed. A script build is fatal end to end: the first
/// failing module aborts the entry's bundle.
#[derive(Debug)]
pub enum BuildIssue {
    /// A resolved import path had no source on disk.
    MissingModule(String),
    /// A module's source failed to parse under the fixed dialect.
    ParseFailed(String),
}

/// A record faithfully describes the stored module at its path.
pub open spec fn record_wf(entries: Seq<(Seq<char>, Seq<char>)>, rec: ModuleRecord) -> bool {
    &&& lookup(entries, rec.path@) matches Some(c)
    &&& rec.imports.deep_view() == imports_of(lookup(entries, rec.path@).unwrap())
    &&& rec.printed@ == printed_form(lookup(entries, rec.path@).unwrap())
}

/// The paths of a record list.
pub open spec fn paths_of(recs: Seq<ModuleRecord>) -> Seq<Seq<char>> {
    recs.map_values(|r: ModuleRecord| r.path@)
}

/// The pluggable hook for import-metadata synthesis. The pipeline's
/// policy never synthesises any properties, but the extension point exists
/// so a host can see where one would plug in.
pub enum MetaHook {
    /// The default hook: contributes no import-metadata properties.
    Noop,
}

impl MetaHook {
    /// The import-metadata properties this hook contributes.
    pub fn import_meta_props(&self) -> (r: Vec<(String, String)>)
        ensures
            self is Noop ==> r@.len() == 0,
    {
        match self {
            MetaHook::Noop => Vec::new(),
        }
    }
}

/// Loads one module through the source map: looks the path up, parses it
/// for its raw import specifiers, and keeps its reprinted text. A path
/// without a stored source, or one that does not parse, fails the build.
pub fn load(store: &SourceStore, path: &String) -> (r: Result<ModuleRecord, BuildIssue>)
    ensures
        lookup(store.entries(), path@) is None ==> (r matches Err(e) && e
            matches BuildIssue::MissingModule(p) && p@ == path@),
        lookup(store.entries(), path@) matches Some(c) ==> {
            &&& !parses_ok(c) ==> (r matches Err(e) && e matches BuildIssue::ParseFailed(p) && p@
                == path@)
            &&& parses_ok(c) ==> (r matches Ok(rec) && rec.path@ == path@ && rec.imports.deep_view()
                == imports_of(c) && rec.printed@ == printed_form(c))
        },
{
    let content = match store.get(path) {
        Option::Some(c) => c,
        Option::None => {
            return Err(BuildIssue::MissingModule(path.clone()));
        },
    };
    let imports = match parse_imports(content) {
        Option::Some(v) => v,
        Option::None => {
            return Err(BuildIssue::ParseFailed(path.clone()));
        },
    };
    let printed = print_module(content).unwrap();
    Ok(ModuleRecord { path: path.clone(), imports, printed })
}

/// Checks whether a path is already among the loaded records.
fn contains_path(recs: &Vec<ModuleRecord>, p: &String) -> (r: bool)
    ensures
        r == paths_of(recs@).contains(p@),
{
    let n: usize = recs.len();
    let mut i: usize = 0;
    while i < n
        invariant
            0 <= i <= n,
            n == recs.len(),
            forall|j: int| 0 <= j < i ==> paths_of(recs@)[j] != p@,
        decreases n - i,
    {
        if p.eq(&recs[i].path) {
            assert(paths_of(recs@)[i as int] == p@);
            return true;
        }
        i += 1;
    }
    false
}

/// The merged bundle text: the reprinted form of every module in discovery
/// order, concatenated.
pub open spec fn merged_text(
    order: Seq<Seq<char>>,
    entries: Seq<(Seq<char>, Seq<char>)>,
) -> Seq<char>
    decreases order.len(),
{
    if order.len() == 0 {
        Seq::empty()
    } else {
        merged_text(order.drop_last(), entries) + (match lookup(entries, order.last()) {
            Option::Some(c) => printed_form(c),
            Option::None => Seq::<char>::empty(),
        })
    }
}

/// The bundled output text for one entry, when the walk succeeds.
pub open spec fn bundle_text(
    entry: Seq<char>,
    entries: Seq<(Seq<char>, Seq<char>)>,
) -> Option<Seq<char>> {
    match walk(seq![entry], Seq::<Seq<char>>::empty(), entries) {
        WalkOutcome::Done(order) => Some(merged_text(order, entries)),
        _ => None,
    }
}

/// How a walk failure surfaces as a build issue.
pub open spec fn walk_err_matches(w: WalkOutcome, e: BuildIssue) -> bool {
    ||| (w matches WalkOutcome::Missing(p) && e matches BuildIssue::MissingModule(s) && s@ == p)
    ||| (w matches WalkOutcome::Unparsed(p) && e matches BuildIssue::ParseFailed(s) && s@ == p)
}

/// One merged artifact: the entry path it was built for and the bundle text.
pub struct BundleArtifact {
    pub entry: String,
    pub text: String,
}

/// Bundles one entry file: transitively loads every imported module once,
/// then merges the reprinted modules in discovery order.
pub fn bundle_entry(entry: &String, store: &SourceStore) -> (r: Result<
    BundleArtifact,
    BuildIssue,
>)
    ensures
        walk(seq![entry@], Seq::<Seq<char>>::empty(), store.entries())
            matches WalkOutcome::Done(order) ==> (r matches Ok(art) && art.entry@ == entry@
            && art.text@ == merged_text(order, store.entries())),
        r matches Ok(art) ==> (bundle_text(entry@, store.entries()) == Some(art.text@)
            && art.entry@ == entry@),
        r matches Err(e) ==> walk_err_matches(
            walk(seq![entry@], Seq::<Seq<char>>::empty(), store.entries()),
            e,
        ),
{
    let ghost entries = store.entries();
    let ghost init_work: Seq<Seq<char>> = seq![entry@];
    let mut work: Vec<String> = Vec::new();
    work.push(entry.clone());
    let mut recs: Vec<ModuleRecord> = Vec::new();
    proof {
        assert(work.deep_view() =~= init_work);
        assert(paths_of(recs@) =~= Seq::<Seq<char>>::empty());
    }
    while work.len() > 0
        invariant
            walk(work.deep_view(), paths_of(recs@), entries) == walk(
                seq![entry@],
                Seq::<Seq<char>>::empty(),
                entries,
            ),
            forall|i: int| 0 <= i < recs@.len() ==> record_wf(entries, #[trigger] recs@[i]),
            entries == store.entries(),
        decreases unvisited_count(entries, paths_of(recs@)), work.len(),
    {
        let ghost pre_work = work.deep_view();
        let ghost pre_visited = paths_of(recs@);
        let p = work.remove(0);
        proof {
            assert(work.deep_view() =~= pre_work.drop_first());
            assert(pre_work.first() == p@);
        }
        if contains_path(&recs, &p) {
            proof {
                assert(walk(pre_work, pre_visited, entries) == walk(
                    work.deep_view(),
                    pre_visited,
                    entries,
                ));
            }
        } else {
            let rec = match load(store, &p) {
                Ok(rec) => rec,
                Err(e) => {
                    proof {
                        if lookup(entries, p@) is None {
                            assert(walk(pre_work, pre_visited, entries) == WalkOutcome::Missing(
                                p@,
                            ));
                        } else {
                            assert(walk(pre_work, pre_visited, entries) == WalkOutcome::Unparsed(
                                p@,
                            ));
                        }
                    }
                    return Err(e);
                },
            };
            let imports = rec.imports;
            let printed = rec.printed;
            let ghost cv = lookup(entries, p@).unwrap();
            let ghost base_work = work.deep_view();
            let n: usize = imports.len();
            let mut j: usize = 0;
            while j < n
                invariant
                    0 <= j <= n,
                    n == imports.len(),
                    imports.deep_view() == imports_of(cv),
                    work.deep_view() == base_work + Seq::new(
                        j as nat,
                        |k: int| resolve_spec(p@, imports.deep_view()[k]),
                    ),
                decreases n - j,
            {
                let target = resolve(p.as_str(), imports[j].as_str());
                let ghost before = work.deep_view();
                let ghost tv = target@;
                work.push(target);
                proof {
                    assert(imports.deep_view()[j as int] == imports@[j as int]@);
                    assert(tv == resolve_spec(p@, imports.deep_view()[j as int]));
                    assert(work.deep_view() =~= before.push(tv));
                    assert(before.push(tv) =~= base_work + Seq::new(
                        (j + 1) as nat,
                        |k: int| resolve_spec(p@, imports.deep_view()[k]),
                    ));
                }
                j += 1;
            }
            proof {
                assert(Seq::new(n as nat, |k: int| resolve_spec(p@, imports.deep_view()[k]))
                    =~= resolved_imports(p@, cv));
                assert(work.deep_view() =~= pre_work.drop_first() + resolved_imports(p@, cv));
            }
            let ghost pv = p@;
            recs.push(ModuleRecord { path: p, imports, printed });
            proof {
                assert(paths_of(recs@) =~= pre_visited.push(pv));
                assert(walk(pre_work, pre_visited, entries) == walk(
                    work.deep_view(),
                    paths_of(recs@),
                    entries,
                ));
                lemma_lookup_some_is_key(entries, pv);
                lemma_unvisited_decreases(entries, pre_visited, pv);
            }
        }
    }
    proof {
        assert(walk(work.deep_view(), paths_of(recs@), entries) == WalkOutcome::Done(
            paths_of(recs@),
        ));
    }
    let ghost order = paths_of(recs@);
    let mut text = String::new();
    let m: usize = recs.len();
    let mut i: usize = 0;
    proof {
        assert(merged_text(order.subrange(0, 0), entries) == Seq::<char>::empty());
    }
    while i < m
        invariant
            0 <= i <= m,
            m == recs.len(),
            order == paths_of(recs@),
            forall|k: int| 0 <= k < recs@.len() ==> record_wf(entries, #[trigger] recs@[k]),
            text@ == merged_text(order.subrange(0, i as int), entries),
        decreases m - i,
    {
        text.append(recs[i].printed.as_str());
        proof {
            let pre = order.subrange(0, i as int);
            let post = order.subrange(0, (i + 1) as int);
            assert(post.drop_last() =~= pre);
            assert(post.last() == order[i as int]);
            assert(record_wf(entries, recs@[i as int]));
        }
        i += 1;
    }
    proof {
        assert(order.subrange(0, m as int) =~= order);
    }
    Ok(BundleArtifact { entry: entry.clone(), text })
}

/// Bundles every entry file in turn. The first failing entry aborts the
/// whole script build, as a broken dependency graph cannot partially bundle.
pub fn bundle(files: &Vec<String>, store: &SourceStore) -> (r: Result<
    Vec<BundleArtifact>,
    BuildIssue,
>)
    ensures
        r matches Ok(arts) ==> (arts@.len() == files@.len() && forall|i: int|
            0 <= i < arts@.len() ==> (#[trigger] arts@[i].entry@ == files.deep_view()[i]
                && bundle_text(files.deep_view()[i], store.entries()) == Some(arts@[i].text@))),
        r matches Err(e) ==> exists|i: int|
            0 <= i < files@.len() && walk_err_matches(
                #[trigger] walk(
                    seq![files.deep_view()[i]],
                    Seq::<Seq<char>>::empty(),
                    store.entries(),
                ),
                e,
            ) && forall|j: int|
                0 <= j < i ==> #[trigger] bundle_text(files.deep_view()[j], store.entries())
                    is Some,
{
    let n: usize = files.len();
    let mut arts: Vec<BundleArtifact> = Vec::new();
    let mut i: usize = 0;
    while i < n
        invariant
            0 <= i <= n,
            n == files.len(),
            arts@.len() == i,
            forall|j: int| #![trigger arts@[j]]
                0 <= j < i as int ==> (arts@[j].entry@ == files.deep_view()[j]
                    && bundle_text(files.deep_view()[j], store.entries()) == Some(arts@[j].text@)),
        decreases n - i,
    {
        match bundle_entry(&files[i], store) {
            Ok(art) => {
                let ghost ae = art.entry@;
                let ghost at = art.text@;
                let ghost pre_arts = arts@;
                arts.push(art);
                proof {
                    assert(files.deep_view()[i as int] == files@[i as int]@);
                    assert(arts@[i as int].entry@ == ae);
                    assert(arts@[i as int].text@ == at);
                    assert(bundle_text(files.deep_view()[i as int], store.entries()) == Some(at));
                    assert forall|j: int| #![trigger arts@[j]] 0 <= j < i + 1 implies (
                        arts@[j].entry@ == files.deep_view()[j] && bundle_text(
                            files.deep_view()[j],
                            store.entries(),
                        ) == Some(arts@[j].text@)) by {
                        if j < i as int {
                            assert(arts@[j] == pre_arts[j]);
                            assert(pre_arts[j].entry@ == files.deep_view()[j]);
                        }
                    }
                }
            },
            Err(e) => {
                proof {
                    assert(files.deep_view()[i as int] == files@[i as int]@);
                    assert(walk_err_matches(
                        walk(
                            seq![files.deep_view()[i as int]],
                            Seq::<Seq<char>>::empty(),
                            store.entries(),
                        ),
                        e,
                    ));
                    assert forall|j: int| 0 <= j < i as int implies #[trigger] bundle_text(
                        files.deep_view()[j],
                        store.entries(),
                    ) is Some by {
                        assert(arts@[j].entry@ == files.deep_view()[j]);
                    }
                }
                return Err(e);
            },
        }
        i += 1;
    }
    Ok(arts)
}

} // verus!
