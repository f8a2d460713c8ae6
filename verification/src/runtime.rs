//! The scheduler: the runtime that decides when each file is parsed, when
//! it is safe to lint it, and when its memory is reclaimed.
//!
//! The runtime works over a [`Host`], which records what the external
//! collaborators answer for every path.  With cross-module analysis off,
//! every entry path is processed fully independently; with it on, files
//! are processed in bounded waves, discovered dependencies are parsed into
//! a persistent module graph, dependency tables are linked once a wave's
//! results are complete, and only then are the wave's entry files linted
//! and their contents retired.

use vstd::prelude::*;
use vstd::pervasive::VecAdditionalExecFns;
use crate::host::{
    apply_fixes, copy_diags, diag_view, diag_views, find_file, has_edit,
    lemma_file_of_index, parse_error_views_from, lint_views_from, read_error_diagnostic,
    read_error_view, spec_delivery_views, spec_file_delivery_views, spec_file_edits_wf,
    spec_file_of, spec_fixed_text, spec_has_edit, spec_has_file, spec_idx_of, spec_host_wf,
    Diagnostic, Host, HostFile, HostSection,
};
use crate::linter::Linter;
use crate::pool::AllocatorPool;
use crate::textscan::{is_processable_path, spec_is_processable_path};

verus! {

/// The lightweight record of one parsed section: the specifiers it
/// requests, and, once its wave is linked, which graph entries they load.
#[derive(Debug)]
pub struct ModuleRecord {
    /// The import specifiers the section requests, in source order.
    pub requests: Vec<String>,
    /// The linked dependency table: specifier and the graph index of the
    /// dependency's entry.  Written exactly once, when the wave that parsed
    /// this record has completed, before any reader can observe it.
    pub loaded: Vec<(String, usize)>,
}

/// One path's entry in the module graph: one record per parsed section.
#[derive(Debug)]
pub struct GraphEntry {
    pub path: String,
    pub records: Vec<ModuleRecord>,
}

/// The persistent module graph: append-only within a run, single writer.
/// Only lightweight records live here; source text and semantic content
/// never outlive the wave that produced them.
#[derive(Debug)]
pub struct ModuleGraph {
    pub entries: Vec<GraphEntry>,
}

/// Whether the graph holds an entry for this path.
pub open spec fn spec_graph_has(g: ModuleGraph, p: Seq<char>) -> bool {
    exists|k: int| 0 <= k < g.entries@.len() && (#[trigger] g.entries@[k]).path@ == p
}

impl ModuleGraph {
    /// An empty graph.
    pub fn new() -> (g: ModuleGraph)
        ensures
            g.entries@.len() == 0,
    {
        ModuleGraph { entries: Vec::new() }
    }

    /// How many paths the graph holds.
    pub fn len(&self) -> (n: usize)
        ensures
            n == self.entries@.len(),
    {
        self.entries.len()
    }

    /// Looks a path's entry up.
    pub fn get(&self, p: &String) -> (r: Option<&GraphEntry>)
        ensures
            match r {
                Some(e) => spec_graph_has(*self, p@) && e.path@ == p@ && exists|k: int|
                    0 <= k < self.entries@.len() && self.entries@[k] == *e,
                None => !spec_graph_has(*self, p@),
            },
    {
        let mut k: usize = 0;
        while k < self.entries.len()
            invariant
                k <= self.entries@.len(),
                forall|j: int| 0 <= j < k ==> (#[trigger] self.entries@[j]).path@ != p@,
            decreases self.entries@.len() - k,
        {
            if self.entries[k].path == *p {
                return Some(&self.entries[k]);
            }
            k = k + 1;
        }
        None
    }
}

/// One delivery of the diagnostic channel: a path and its diagnostics.
#[derive(Debug)]
pub struct Delivery {
    pub path: String,
    pub diagnostics: Vec<Diagnostic>,
}

/// One file rewrite the run performed.
#[derive(Debug)]
pub struct FileWrite {
    pub path: String,
    pub content: String,
}

/// Everything one run produced: the deliveries, the file rewrites, the
/// paths read, the paths whose content was retained into the lint stage,
/// the module graph, and how many arenas the pool created along the way.
#[derive(Debug)]
pub struct RunOutcome {
    pub deliveries: Vec<Delivery>,
    pub writes: Vec<FileWrite>,
    pub reads: Vec<String>,
    pub retained: Vec<String>,
    pub graph: ModuleGraph,
    pub arenas_created: u32,
}

/// Whether a path occurs among the first `n` of these paths.
pub open spec fn in_paths_prefix(paths: Seq<String>, n: int, p: Seq<char>) -> bool {
    exists|i: int| 0 <= i < n && (#[trigger] paths[i])@ == p
}

/// Whether a path occurs among these paths.
pub open spec fn in_paths(paths: Seq<String>, p: Seq<char>) -> bool {
    in_paths_prefix(paths, paths.len() as int, p)
}

/// Whether a delivery for this path occurred.
pub open spec fn delivered(dl: Seq<Delivery>, p: Seq<char>) -> bool {
    exists|k: int| 0 <= k < dl.len() && (#[trigger] dl[k]).path@ == p
}

/// Whether a write to this path occurred.
pub open spec fn written(ws: Seq<FileWrite>, p: Seq<char>) -> bool {
    exists|k: int| 0 <= k < ws.len() && (#[trigger] ws[k]).path@ == p
}

/// An entry path the run owes a delivery for: one the linter can process
/// at all.  Whether the file exists or can be read only changes what the
/// delivery reports, never whether one arrives.
pub open spec fn entry_deliverable(h: Host, p: Seq<char>) -> bool {
    spec_is_processable_path(p)
}

/// An entry path whose content survives into the lint stage: the host has
/// it and it can be read.
pub open spec fn entry_retained(h: Host, p: Seq<char>) -> bool {
    &&& spec_is_processable_path(p)
    &&& spec_has_file(h, p)
    &&& spec_file_of(h, p).readable
}

/// An entry path the run owes a file write for when fixing is enabled:
/// readable, with at least one fix, whose fixed text differs from the
/// text on disk.
pub open spec fn entry_fixable(h: Host, p: Seq<char>) -> bool {
    &&& entry_retained(h, p)
    &&& spec_has_edit(spec_file_of(h, p).sections@)
    &&& spec_fixed_text(spec_file_of(h, p)) != spec_file_of(h, p).content@
}

/// What every run promises, fast path and graph path alike.
///
/// Exactly one delivery arrives per processable entry path, carrying that
/// path's diagnostics as the host determines them; with fixing enabled,
/// exactly one write arrives per entry whose coalesced fixes change its
/// text, carrying the fixed text; content is retained into the lint stage
/// exactly for readable entry files; and no path is read twice.
pub open spec fn run_post(h: Host, entries: Seq<String>, fix: bool, o: RunOutcome) -> bool {
    &&& forall|a: int, b: int|
        0 <= a < b < o.deliveries@.len() ==> (#[trigger] o.deliveries@[a]).path@ != (
        #[trigger] o.deliveries@[b]).path@
    &&& forall|k: int|
        0 <= k < o.deliveries@.len() ==> in_paths(entries, (#[trigger] o.deliveries@[k]).path@)
            && entry_deliverable(h, o.deliveries@[k].path@) && diag_views(
            o.deliveries@[k].diagnostics@,
        ) == spec_delivery_views(h, o.deliveries@[k].path@)
    &&& forall|i: int|
        0 <= i < entries.len() && entry_deliverable(h, (#[trigger] entries[i])@) ==> delivered(
            o.deliveries@,
            entries[i]@,
        )
    &&& forall|a: int, b: int|
        0 <= a < b < o.writes@.len() ==> (#[trigger] o.writes@[a]).path@ != (
        #[trigger] o.writes@[b]).path@
    &&& o.writes@.len() == 0 || fix
    &&& forall|k: int|
        0 <= k < o.writes@.len() ==> in_paths(entries, (#[trigger] o.writes@[k]).path@)
            && entry_fixable(h, o.writes@[k].path@) && o.writes@[k].content@ == spec_fixed_text(
            spec_file_of(h, o.writes@[k].path@),
        )
    &&& fix ==> forall|i: int|
        0 <= i < entries.len() && entry_fixable(h, (#[trigger] entries[i])@) ==> written(
            o.writes@,
            entries[i]@,
        )
    &&& forall|a: int, b: int|
        0 <= a < b < o.retained@.len() ==> (#[trigger] o.retained@[a])@ != (
        #[trigger] o.retained@[b])@
    &&& forall|k: int|
        0 <= k < o.retained@.len() ==> in_paths(entries, (#[trigger] o.retained@[k])@)
            && entry_retained(h, o.retained@[k]@)
    &&& forall|i: int|
        0 <= i < entries.len() && entry_retained(h, (#[trigger] entries[i])@) ==> in_paths(
            o.retained@,
            entries[i]@,
        )
    &&& forall|a: int, b: int|
        0 <= a < b < o.reads@.len() ==> (#[trigger] o.reads@[a])@ != (#[trigger] o.reads@[b])@
    &&& forall|k: int|
        0 <= k < o.reads@.len() ==> spec_is_processable_path((#[trigger] o.reads@[k])@)
    &&& forall|i: int|
        0 <= i < entries.len() && entry_deliverable(h, (#[trigger] entries[i])@) ==> in_paths(
            o.reads@,
            entries[i]@,
        )
}

/// Whether a list of paths holds this path.
pub fn contains_path(v: &Vec<String>, p: &String) -> (r: bool)
    ensures
        r == in_paths(v@, p@),
{
    let mut i: usize = 0;
    while i < v.len()
        invariant
            i <= v@.len(),
            forall|j: int| 0 <= j < i ==> (#[trigger] v@[j])@ != p@,
        decreases v@.len() - i,
    {
        if v[i] == *p {
            proof {
                assert(in_paths(v@, p@));
            }
            return true;
        }
        i = i + 1;
    }
    false
}

/// The given paths with duplicates removed, first occurrences kept in
/// their order.
pub open spec fn spec_dedup(paths: Seq<String>) -> Seq<String>
    decreases paths.len(),
{
    if paths.len() == 0 {
        Seq::empty()
    } else {
        let d = spec_dedup(paths.drop_last());
        if in_paths(d, paths.last()@) {
            d
        } else {
            d.push(paths.last())
        }
    }
}

/// Keeps the first occurrence of every path, in order: the deduplicated
/// entry set.
pub fn dedup_paths(paths: &Vec<String>) -> (u: Vec<String>)
    ensures
        u@ == spec_dedup(paths@),
        forall|a: int, b: int| 0 <= a < b < u@.len() ==> (#[trigger] u@[a])@ != (#[trigger] u@[b])@,
        forall|p: Seq<char>| #[trigger] in_paths(u@, p) <==> in_paths(paths@, p),
{
    let mut u: Vec<String> = Vec::new();
    let mut i: usize = 0;
    proof {
        assert(u@ =~= spec_dedup(paths@.subrange(0, 0)));
    }
    while i < paths.len()
        invariant
            i <= paths@.len(),
            u@ == spec_dedup(paths@.subrange(0, i as int)),
            forall|a: int, b: int|
                0 <= a < b < u@.len() ==> (#[trigger] u@[a])@ != (#[trigger] u@[b])@,
            forall|p: Seq<char>| #[trigger] in_paths(u@, p) ==> in_paths_prefix(
                paths@,
                i as int,
                p,
            ),
            forall|j: int| 0 <= j < i ==> in_paths(u@, (#[trigger] paths@[j])@),
        decreases paths@.len() - i,
    {
        let ghost u0 = u@;
        proof {
            assert(paths@.subrange(0, i + 1).drop_last() =~= paths@.subrange(0, i as int));
            assert(paths@.subrange(0, i + 1).last() == paths@[i as int]);
        }
        if !contains_path(&u, &paths[i]) {
            u.push(paths[i].clone());
            proof {
                assert(u@ =~= u0.push(paths@[i as int]));
                assert forall|p: Seq<char>| #[trigger] in_paths(u@, p) implies in_paths_prefix(
                    paths@,
                    i + 1,
                    p,
                ) by {
                    let k = choose|k: int| 0 <= k < u@.len() && (#[trigger] u@[k])@ == p;
                    if k < u0.len() {
                        assert(in_paths(u0, p));
                    } else {
                        assert(paths@[i as int]@ == p);
                    }
                }
            }
        }
        proof {
            assert forall|j: int| 0 <= j < i + 1 implies in_paths(
                u@,
                (#[trigger] paths@[j])@,
            ) by {
                if j < i {
                    assert(in_paths(u0, paths@[j]@));
                    let k = choose|k: int| 0 <= k < u0.len() && (#[trigger] u0[k])@ == paths@[j]@;
                    assert(u@[k]@ == paths@[j]@);
                } else {
                    if in_paths(u0, paths@[j]@) {
                        let k = choose|k: int|
                            0 <= k < u0.len() && (#[trigger] u0[k])@ == paths@[j]@;
                        assert(u@[k]@ == paths@[j]@);
                    } else {
                        assert(u@[u@.len() - 1]@ == paths@[j]@);
                    }
                }
            }
        }
        i = i + 1;
    }
    proof {
        assert(paths@.subrange(0, paths@.len() as int) =~= paths@);
        assert forall|p: Seq<char>| in_paths(paths@, p) implies in_paths(u@, p) by {
            let j = choose|j: int| 0 <= j < paths@.len() && (#[trigger] paths@[j])@ == p;
            assert(in_paths(u@, paths@[j]@));
        }
        assert forall|p: Seq<char>| #[trigger] in_paths(u@, p) implies in_paths(paths@, p) by {
        }
    }
    u
}

/// Lexicographic order on paths, by character.
pub open spec fn spec_lex_le(a: Seq<char>, b: Seq<char>) -> bool
    decreases a.len(),
{
    if a.len() == 0 {
        true
    } else if b.len() == 0 {
        false
    } else if (a[0] as u32) < (b[0] as u32) {
        true
    } else if (a[0] as u32) > (b[0] as u32) {
        false
    } else {
        spec_lex_le(a.drop_first(), b.drop_first())
    }
}

/// The order is total.
pub proof fn lemma_lex_le_total(a: Seq<char>, b: Seq<char>)
    ensures
        spec_lex_le(a, b) || spec_lex_le(b, a),
    decreases a.len(),
{
    if a.len() > 0 && b.len() > 0 && (a[0] as u32) == (b[0] as u32) {
        lemma_lex_le_total(a.drop_first(), b.drop_first());
    }
}

/// Compares two paths in lexicographic order.
#[verifier::loop_isolation(false)]
pub fn path_le(a: &String, b: &String) -> (r: bool)
    ensures
        r == spec_lex_le(a@, b@),
{
    let at = a.as_str();
    let bt = b.as_str();
    let n = at.unicode_len();
    let m = bt.unicode_len();
    let mut i: usize = 0;
    proof {
        assert(a@.skip(0) =~= a@);
        assert(b@.skip(0) =~= b@);
    }
    while i < n && i < m
        invariant
            i <= n,
            i <= m,
            spec_lex_le(a@, b@) == spec_lex_le(a@.skip(i as int), b@.skip(i as int)),
            spec_lex_le(b@, a@) == spec_lex_le(b@.skip(i as int), a@.skip(i as int)),
        decreases n - i,
    {
        proof {
            assert(a@.skip(i as int).drop_first() =~= a@.skip(i + 1));
            assert(b@.skip(i as int).drop_first() =~= b@.skip(i + 1));
            assert(a@.skip(i as int)[0] == a@[i as int]);
            assert(b@.skip(i as int)[0] == b@[i as int]);
        }
        let ca = at.get_char(i) as u32;
        let cb = bt.get_char(i) as u32;
        if ca < cb {
            return true;
        }
        if ca > cb {
            return false;
        }
        i = i + 1;
    }
    proof {
        if i >= n {
            assert(a@.skip(i as int).len() == 0);
        } else {
            assert(b@.skip(i as int).len() == 0);
            assert(a@.skip(i as int).len() > 0);
        }
    }
    i >= n
}

/// Sorts distinct paths into descending order: deeper, later paths come
/// first.  Dependents of a path tend to sort after it, so the files most
/// likely to be leaves are processed early and their dependents' content
/// can be retired sooner.  This is a memory heuristic, not a correctness
/// requirement: which paths occur does not change.
#[verifier::loop_isolation(false)]
#[verifier::rlimit(60)]
pub fn sort_paths_desc(v: Vec<String>) -> (out: Vec<String>)
    requires
        forall|a: int, b: int| 0 <= a < b < v@.len() ==> (#[trigger] v@[a])@ != (#[trigger] v@[b])@,
    ensures
        out@.len() == v@.len(),
        forall|a: int, b: int|
            0 <= a < b < out@.len() ==> (#[trigger] out@[a])@ != (#[trigger] out@[b])@,
        forall|p: Seq<char>| #[trigger] in_paths(out@, p) <==> in_paths(v@, p),
        forall|a: int, b: int|
            0 <= a < b < out@.len() ==> spec_lex_le((#[trigger] out@[b])@, (#[trigger] out@[a])@),
{
    let ghost orig = v@;
    let mut rest = v;
    let mut out: Vec<String> = Vec::new();
    while rest.len() > 0
        invariant
            out@.len() + rest@.len() == orig.len(),
            forall|a: int, b: int|
                0 <= a < b < out@.len() ==> (#[trigger] out@[a])@ != (#[trigger] out@[b])@,
            forall|a: int, b: int|
                0 <= a < b < rest@.len() ==> (#[trigger] rest@[a])@ != (#[trigger] rest@[b])@,
            forall|a: int, b: int|
                0 <= a < out@.len() && 0 <= b < rest@.len() ==> (#[trigger] out@[a])@ != (
                #[trigger] rest@[b])@,
            forall|p: Seq<char>| #[trigger] in_paths(out@, p) ==> in_paths(orig, p),
            forall|p: Seq<char>| #[trigger] in_paths(rest@, p) ==> in_paths(orig, p),
            forall|p: Seq<char>| #[trigger]
                in_paths(orig, p) ==> in_paths(out@, p) || in_paths(rest@, p),
            forall|a: int, b: int|
                0 <= a < b < out@.len() ==> spec_lex_le(
                    (#[trigger] out@[b])@,
                    (#[trigger] out@[a])@,
                ),
            forall|a: int, b: int|
                0 <= a < out@.len() && 0 <= b < rest@.len() ==> spec_lex_le(
                    (#[trigger] rest@[b])@,
                    (#[trigger] out@[a])@,
                ),
        decreases rest@.len(),
    {
        // pick the largest remaining path
        let mut m: usize = 0;
        let mut j: usize = 1;
        proof {
            lemma_lex_le_total(rest@[0]@, rest@[0]@);
        }
        while j < rest.len()
            invariant
                m < rest@.len(),
                j <= rest@.len(),
                forall|k: int|
                    0 <= k < j ==> spec_lex_le((#[trigger] rest@[k])@, rest@[m as int]@),
            decreases rest@.len() - j,
        {
            if !path_le(&rest[j], &rest[m]) {
                proof {
                    lemma_lex_le_total(rest@[j as int]@, rest@[m as int]@);
                    assert forall|k: int|
                        0 <= k < j + 1 implies spec_lex_le(
                        (#[trigger] rest@[k])@,
                        rest@[j as int]@,
                    ) by {
                        if k < j {
                            lemma_lex_le_trans(rest@[k]@, rest@[m as int]@, rest@[j as int]@);
                        } else {
                            lemma_lex_le_total(rest@[k]@, rest@[k]@);
                        }
                    }
                }
                m = j;
            }
            j = j + 1;
        }
        let ghost rest0 = rest@;
        let chosen = rest.swap_remove(m);
        let ghost out0 = out@;
        out.push(chosen);
        proof {
            assert(out@.last() == rest0[m as int]);
            assert(forall|k: int|
                0 <= k < rest@.len() ==> (#[trigger] rest@[k]) == rest0[k] || rest@[k]
                    == rest0[rest0.len() - 1]);
            assert forall|a: int, b: int|
                0 <= a < b < rest@.len() implies (#[trigger] rest@[a])@ != (
            #[trigger] rest@[b])@ by {
                assert(rest@[a] == rest0[a] || rest@[a] == rest0[rest0.len() - 1]);
                assert(rest@[b] == rest0[b] || rest@[b] == rest0[rest0.len() - 1]);
            }
            assert forall|b: int|
                0 <= b < rest@.len() implies spec_lex_le(
                (#[trigger] rest@[b])@,
                out@.last()@,
            ) by {
                assert(rest@[b] == rest0[b] || rest@[b] == rest0[rest0.len() - 1]);
            }
            assert forall|p: Seq<char>| #[trigger] in_paths(out@, p) implies in_paths(
                orig,
                p,
            ) by {
                let k = choose|k: int| 0 <= k < out@.len() && (#[trigger] out@[k])@ == p;
                if k < out0.len() {
                    assert(out0[k]@ == p);
                    assert(in_paths(out0, p));
                } else {
                    assert(rest0[m as int]@ == p);
                    assert(in_paths(rest0, p));
                }
            }
            assert forall|p: Seq<char>| #[trigger] in_paths(rest@, p) implies in_paths(
                orig,
                p,
            ) by {
                let k = choose|k: int| 0 <= k < rest@.len() && (#[trigger] rest@[k])@ == p;
                assert(rest@[k] == rest0[k] || rest@[k] == rest0[rest0.len() - 1]);
                if rest@[k] == rest0[k] {
                    assert(rest0[k]@ == p);
                } else {
                    assert(rest0[rest0.len() - 1]@ == p);
                }
                assert(in_paths(rest0, p));
            }
            assert forall|p: Seq<char>| #[trigger] in_paths(orig, p) implies in_paths(out@, p)
                || in_paths(rest@, p) by {
                if in_paths(out0, p) {
                    let k = choose|k: int| 0 <= k < out0.len() && (#[trigger] out0[k])@ == p;
                    assert(out@[k]@ == p);
                    assert(in_paths(out@, p));
                } else if in_paths(rest0, p) {
                    let k = choose|k: int|
                        0 <= k < rest0.len() && (#[trigger] rest0[k])@ == p;
                    if k == m as int {
                        assert(out@[out@.len() - 1]@ == p);
                        assert(in_paths(out@, p));
                    } else if k == rest0.len() - 1 {
                        if m as int == rest0.len() - 1 {
                            assert(out@[out@.len() - 1]@ == p);
                            assert(in_paths(out@, p));
                        } else {
                            assert(rest@[m as int]@ == p);
                            assert(in_paths(rest@, p));
                        }
                    } else {
                        assert(rest@[k]@ == p);
                        assert(in_paths(rest@, p));
                    }
                }
            }
        }
    }
    proof {
        assert forall|p: Seq<char>| #[trigger] in_paths(out@, p) implies in_paths(v@, p) by {
        }
        assert forall|p: Seq<char>| in_paths(v@, p) implies #[trigger] in_paths(out@, p) by {
            if in_paths(rest@, p) {
                let k = choose|k: int| 0 <= k < rest@.len() && (#[trigger] rest@[k])@ == p;
                assert(false);
            }
        }
    }
    out
}

/// The order is transitive.
pub proof fn lemma_lex_le_trans(a: Seq<char>, b: Seq<char>, c: Seq<char>)
    requires
        spec_lex_le(a, b),
        spec_lex_le(b, c),
    ensures
        spec_lex_le(a, c),
    decreases a.len(),
{
    if a.len() > 0 && b.len() > 0 && c.len() > 0 {
        if (a[0] as u32) == (b[0] as u32) && (b[0] as u32) == (c[0] as u32) {
            lemma_lex_le_trans(a.drop_first(), b.drop_first(), c.drop_first());
        }
    }
}

/// The parser diagnostics of the failed sections, in section order.
pub fn parse_error_diags(sections: &Vec<HostSection>) -> (out: Vec<Diagnostic>)
    ensures
        diag_views(out@) == parse_error_views_from(sections@),
{
    let mut out: Vec<Diagnostic> = Vec::new();
    let mut j: usize = 0;
    proof {
        assert(diag_views(out@) =~= parse_error_views_from(sections@.subrange(0, 0)));
    }
    while j < sections.len()
        invariant
            j <= sections@.len(),
            diag_views(out@) == parse_error_views_from(sections@.subrange(0, j as int)),
        decreases sections@.len() - j,
    {
        proof {
            assert(sections@.subrange(0, j + 1).drop_last() =~= sections@.subrange(0, j as int));
            assert(sections@.subrange(0, j + 1).last() == sections@[j as int]);
        }
        copy_diags(&mut out, &sections[j].parse_errors);
        j = j + 1;
    }
    proof {
        assert(sections@.subrange(0, sections@.len() as int) =~= sections@);
    }
    out
}

/// Concatenating diagnostic lists concatenates their views.
pub proof fn lemma_diag_views_concat(a: Seq<Diagnostic>, b: Seq<Diagnostic>)
    ensures
        diag_views(a + b) == diag_views(a) + diag_views(b),
{
    assert(diag_views(a + b) =~= diag_views(a) + diag_views(b));
}

/// Builds the one delivery a file is owed: the read failure when it cannot
/// be read, otherwise its parser diagnostics followed by the rule engine's.
fn file_delivery(linter: &Linter, f: &HostFile) -> (out: Vec<Diagnostic>)
    ensures
        diag_views(out@) == spec_file_delivery_views(*f),
{
    if !f.readable {
        let d = read_error_diagnostic(&f.path);
        let out = vec![d];
        proof {
            assert(diag_views(out@) =~= seq![read_error_view(f.path@)]);
        }
        out
    } else {
        let mut out = parse_error_diags(&f.sections);
        let mut msgs = linter.run(&f.path, &f.sections);
        let ghost a = out@;
        let ghost b = msgs@;
        out.append(&mut msgs);
        proof {
            lemma_diag_views_concat(a, b);
        }
        out
    }
}

/// The runtime: the entry paths, the linter, the arena pool, and the mode
/// and worker count the run was configured with.
pub struct Runtime {
    /// The working directory diagnostics are reported relative to.
    pub cwd: String,
    /// The deduplicated entry paths.
    pub paths: Vec<String>,
    /// The linter run over every entry file.
    pub linter: Linter,
    /// Whether cross-module analysis builds the module graph.
    pub cross_module: bool,
    /// The path of the TypeScript project file handed to the resolver.
    pub tsconfig: Option<String>,
    /// The worker count the run was sized for; fixed for the run's
    /// lifetime so the pool's capacity assumptions stay valid.
    pub thread_count: usize,
    /// The pool of fixed-size arenas backing parse and lint tasks.
    pub allocator_pool: AllocatorPool,
}

impl Runtime {
    pub open spec fn wf(&self) -> bool {
        &&& self.allocator_pool.wf()
        &&& forall|a: int, b: int|
            0 <= a < b < self.paths@.len() ==> (#[trigger] self.paths@[a])@ != (
            #[trigger] self.paths@[b])@
        &&& 1 <= self.thread_count <= 0xFFFF
    }

    /// Builds a runtime: the worker count is fixed here, once, and the
    /// arena pool is sized for it without creating any arena yet.
    pub fn new(
        linter: Linter,
        cwd: String,
        cross_module: bool,
        tsconfig: Option<String>,
        thread_count: usize,
    ) -> (rt: Runtime)
        requires
            1 <= thread_count <= 0xFFFF,
        ensures
            rt.wf(),
            rt.linter == linter,
            rt.cwd == cwd,
            rt.cross_module == cross_module,
            rt.tsconfig == tsconfig,
            rt.thread_count == thread_count,
            rt.paths@.len() == 0,
            rt.allocator_pool.created() == 0,
    {
        Runtime {
            cwd,
            paths: Vec::new(),
            linter,
            cross_module,
            tsconfig,
            thread_count,
            allocator_pool: AllocatorPool::new(thread_count),
        }
    }

    /// Sets the entry paths: the given vector with duplicates removed and
    /// first-occurrence order preserved.  The graph path reorders its own
    /// working copy when it runs; the stored entries keep this order.
    pub fn with_paths(&mut self, paths: Vec<String>)
        requires
            old(self).wf(),
        ensures
            final(self).wf(),
            final(self).paths@ == spec_dedup(paths@),
            forall|p: Seq<char>| #[trigger]
                in_paths(final(self).paths@, p) <==> in_paths(paths@, p),
            forall|a: int, b: int|
                0 <= a < b < final(self).paths@.len() ==> (#[trigger] final(self).paths@[a])@
                    != (#[trigger] final(self).paths@[b])@,
            final(self).linter == old(self).linter,
            final(self).cwd == old(self).cwd,
            final(self).cross_module == old(self).cross_module,
            final(self).tsconfig == old(self).tsconfig,
            final(self).thread_count == old(self).thread_count,
            final(self).allocator_pool == old(self).allocator_pool,
    {
        self.paths = dedup_paths(&paths);
    }

    /// Processes every entry path independently: the fast path, used when
    /// cross-module analysis is off.  No graph is built and no task needs
    /// any other's result, so the paths are processed in entry order.
    #[verifier::loop_isolation(false)]
    fn run_fast(&mut self, host: &Host) -> (o: RunOutcome)
        requires
            spec_host_wf(*host),
            old(self).wf(),
            old(self).allocator_pool.next_id < u32::MAX,
        ensures
            final(self).wf(),
            run_post(
                *host,
                old(self).paths@,
                !old(self).linter.options.fix.is_none_spec(),
                o,
            ),
            o.graph.entries@.len() == 0,
            final(self).paths == old(self).paths,
            final(self).linter == old(self).linter,
            final(self).cwd == old(self).cwd,
            final(self).cross_module == old(self).cross_module,
            final(self).thread_count == old(self).thread_count,
            final(self).allocator_pool.created() <= old(self).allocator_pool.created() + 1,
            o.arenas_created == final(self).allocator_pool.created(),
    {
        let fix = self.linter.options.fix.is_some();
        let mut deliveries: Vec<Delivery> = Vec::new();
        let mut writes: Vec<FileWrite> = Vec::new();
        let mut reads: Vec<String> = Vec::new();
        let mut retained: Vec<String> = Vec::new();
        let ghost entries = self.paths@;
        let ghost pool0 = self.allocator_pool;
        let mut pos: usize = 0;
        while pos < self.paths.len()
            invariant
                pos <= entries.len(),
                self.paths == old(self).paths,
                self.paths@ == entries,
                fix == !old(self).linter.options.fix.is_none_spec(),
                self.linter == old(self).linter,
                self.cwd == old(self).cwd,
                self.cross_module == old(self).cross_module,
                self.tsconfig == old(self).tsconfig,
                self.thread_count == old(self).thread_count,
                self.allocator_pool.wf(),
                self.allocator_pool.outstanding@ == pool0.outstanding@,
                self.allocator_pool.created() <= pool0.created() + 1,
                self.allocator_pool.allocators@.len() > 0 || self.allocator_pool.created()
                    <= pool0.created(),
                // deliveries so far: one per processable entry among the first pos
                forall|a: int, b: int|
                    0 <= a < b < deliveries@.len() ==> (#[trigger] deliveries@[a]).path@ != (
                    #[trigger] deliveries@[b]).path@,
                forall|k: int|
                    0 <= k < deliveries@.len() ==> in_paths_prefix(
                        entries,
                        pos as int,
                        (#[trigger] deliveries@[k]).path@,
                    ) && entry_deliverable(*host, deliveries@[k].path@) && diag_views(
                        deliveries@[k].diagnostics@,
                    ) == spec_delivery_views(*host, deliveries@[k].path@),
                forall|i: int|
                    0 <= i < pos && entry_deliverable(*host, (#[trigger] entries[i])@)
                        ==> delivered(deliveries@, entries[i]@),
                // writes so far
                forall|a: int, b: int|
                    0 <= a < b < writes@.len() ==> (#[trigger] writes@[a]).path@ != (
                    #[trigger] writes@[b]).path@,
                writes@.len() == 0 || fix,
                forall|k: int|
                    0 <= k < writes@.len() ==> in_paths_prefix(
                        entries,
                        pos as int,
                        (#[trigger] writes@[k]).path@,
                    ) && entry_fixable(*host, writes@[k].path@) && writes@[k].content@
                        == spec_fixed_text(spec_file_of(*host, writes@[k].path@)),
                fix ==> forall|i: int|
                    0 <= i < pos && entry_fixable(*host, (#[trigger] entries[i])@) ==> written(
                        writes@,
                        entries[i]@,
                    ),
                // retained so far
                forall|a: int, b: int|
                    0 <= a < b < retained@.len() ==> (#[trigger] retained@[a])@ != (
                    #[trigger] retained@[b])@,
                forall|k: int|
                    0 <= k < retained@.len() ==> in_paths_prefix(
                        entries,
                        pos as int,
                        (#[trigger] retained@[k])@,
                    ) && entry_retained(*host, retained@[k]@),
                forall|i: int|
                    0 <= i < pos && entry_retained(*host, (#[trigger] entries[i])@) ==> in_paths(
                        retained@,
                        entries[i]@,
                    ),
                // reads so far
                forall|a: int, b: int|
                    0 <= a < b < reads@.len() ==> (#[trigger] reads@[a])@ != (
                    #[trigger] reads@[b])@,
                forall|k: int|
                    0 <= k < reads@.len() ==> in_paths_prefix(
                        entries,
                        pos as int,
                        (#[trigger] reads@[k])@,
                    ) && spec_is_processable_path(reads@[k]@),
                forall|idx: int|
                    0 <= idx < pos && entry_deliverable(*host, (#[trigger] entries[idx])@)
                        ==> in_paths(reads@, entries[idx]@),
            decreases entries.len() - pos,
        {
            let p = &self.paths[pos];
            let ghost pv = p@;
            let ghost dl0 = deliveries@;
            let ghost ws0 = writes@;
            let ghost rt0 = retained@;
            let ghost rd0 = reads@;
            proof {
                assert(forall|idx: int| 0 <= idx < pos ==> (#[trigger] entries[idx])@ != pv);
            }
            if is_processable_path(p) {
                // every processed file takes an arena from the pool for the
                // duration of its parse and lint, and returns it reset
                let guard = self.allocator_pool.get();
                self.allocator_pool.add(guard);
                proof {
                    assert(self.allocator_pool.outstanding@ =~= pool0.outstanding@);
                }
                reads.push(p.clone());
                let found = find_file(host, p);
                match found {
                    Option::None => {
                        let d = read_error_diagnostic(p);
                        let diags = vec![d];
                        proof {
                            assert(diag_views(diags@) =~= seq![read_error_view(pv)]);
                        }
                        deliveries.push(Delivery { path: p.clone(), diagnostics: diags });
                    },
                    Option::Some(i) => {
                        proof {
                            lemma_file_of_index(*host, i as int);
                        }
                        let diags = file_delivery(&self.linter, &host.files[i]);
                        deliveries.push(Delivery { path: p.clone(), diagnostics: diags });
                        if host.files[i].readable {
                            retained.push(p.clone());
                            if fix {
                                if has_edit(&host.files[i]) {
                                    let fixed = apply_fixes(&host.files[i]);
                                    if !(fixed == host.files[i].content) {
                                        writes.push(
                                            FileWrite { path: p.clone(), content: fixed },
                                        );
                                        proof {
                                            assert(entry_fixable(*host, pv));
                                            assert(writes@.last().path@ == pv);
                                            assert(writes@.last().content@ == spec_fixed_text(
                                                spec_file_of(*host, pv),
                                            ));
                                            assert(entries[pos as int]@ == pv);
                                            assert forall|k: int|
                                                0 <= k < writes@.len() implies in_paths_prefix(
                                                entries,
                                                pos + 1,
                                                (#[trigger] writes@[k]).path@,
                                            ) && entry_fixable(*host, writes@[k].path@)
                                                && writes@[k].content@ == spec_fixed_text(
                                                spec_file_of(*host, writes@[k].path@),
                                            ) by {
                                                if k < ws0.len() {
                                                    assert(writes@[k] == ws0[k]);
                                                    let q = choose|q: int|
                                                        0 <= q < pos && (#[trigger] entries[q])@
                                                            == ws0[k].path@;
                                                    assert(in_paths_prefix(
                                                        entries,
                                                        pos + 1,
                                                        writes@[k].path@,
                                                    ));
                                                } else {
                                                    assert(writes@[k].path@ == pv);
                                                }
                                            }
                                        }
                                    }
                                }
                            }
                        }
                    },
                }
                proof {
                    assert(deliveries@.len() == dl0.len() + 1);
                    assert(deliveries@.last().path@ == pv);
                    assert(entry_fixable(*host, pv) ==> entry_retained(*host, pv));
                }
            }
            proof {
                assert forall|i: int|
                    0 <= i < pos + 1 && entry_deliverable(*host, (#[trigger] entries[i])@)
                        implies delivered(deliveries@, entries[i]@) by {
                    if i < pos {
                        let k = choose|k: int|
                            0 <= k < dl0.len() && (#[trigger] dl0[k]).path@ == entries[i]@;
                        assert(deliveries@[k].path@ == entries[i]@);
                    } else {
                        assert(deliveries@[deliveries@.len() - 1].path@ == entries[i]@);
                    }
                }
                if fix {
                    assert forall|i: int|
                        0 <= i < pos + 1 && entry_fixable(*host, (#[trigger] entries[i])@)
                            implies written(writes@, entries[i]@) by {
                        if i < pos {
                            let k = choose|k: int|
                                0 <= k < ws0.len() && (#[trigger] ws0[k]).path@ == entries[i]@;
                            assert(writes@[k].path@ == entries[i]@);
                        } else {
                            assert(writes@[writes@.len() - 1].path@ == entries[i]@);
                        }
                    }
                }
                assert forall|k: int|
                    0 <= k < writes@.len() implies in_paths_prefix(
                    entries,
                    pos + 1,
                    (#[trigger] writes@[k]).path@,
                ) && entry_fixable(*host, writes@[k].path@) && writes@[k].content@
                    == spec_fixed_text(spec_file_of(*host, writes@[k].path@)) by {
                    if k < ws0.len() {
                        assert(writes@[k] == ws0[k]);
                        let q = choose|q: int|
                            0 <= q < pos && (#[trigger] entries[q])@ == ws0[k].path@;
                        assert(entries[q]@ == writes@[k].path@);
                    } else {
                        assert(writes@[k].path@ == pv);
                        assert(entries[pos as int]@ == pv);
                    }
                }
                assert forall|k: int|
                    0 <= k < retained@.len() implies in_paths_prefix(
                    entries,
                    pos + 1,
                    (#[trigger] retained@[k])@,
                ) && entry_retained(*host, retained@[k]@) by {
                    if k < rt0.len() {
                        assert(retained@[k] == rt0[k]);
                        let q = choose|q: int|
                            0 <= q < pos && (#[trigger] entries[q])@ == rt0[k]@;
                        assert(entries[q]@ == retained@[k]@);
                    } else {
                        assert(retained@[k]@ == pv);
                        assert(entries[pos as int]@ == pv);
                    }
                }
                assert forall|k: int|
                    0 <= k < deliveries@.len() implies in_paths_prefix(
                    entries,
                    pos + 1,
                    (#[trigger] deliveries@[k]).path@,
                ) && entry_deliverable(*host, deliveries@[k].path@) && diag_views(
                    deliveries@[k].diagnostics@,
                ) == spec_delivery_views(*host, deliveries@[k].path@) by {
                    if k < dl0.len() {
                        assert(deliveries@[k] == dl0[k]);
                        let q = choose|q: int|
                            0 <= q < pos && (#[trigger] entries[q])@ == dl0[k].path@;
                        assert(entries[q]@ == deliveries@[k].path@);
                    } else {
                        assert(deliveries@[k].path@ == pv);
                        assert(entries[pos as int]@ == pv);
                    }
                }
                assert forall|k: int|
                    0 <= k < reads@.len() implies in_paths_prefix(
                    entries,
                    pos + 1,
                    (#[trigger] reads@[k])@,
                ) && spec_is_processable_path(reads@[k]@) by {
                    if k < rd0.len() {
                        assert(reads@[k] == rd0[k]);
                        let q = choose|q: int|
                            0 <= q < pos && (#[trigger] entries[q])@ == rd0[k]@;
                        assert(entries[q]@ == reads@[k]@);
                    } else {
                        assert(reads@[k]@ == pv);
                        assert(entries[pos as int]@ == pv);
                    }
                }
                assert forall|idx: int|
                    0 <= idx < pos + 1 && entry_deliverable(*host, (#[trigger] entries[idx])@)
                    implies in_paths(reads@, entries[idx]@) by {
                    if idx < pos {
                        let k = choose|k: int|
                            0 <= k < rd0.len() && (#[trigger] rd0[k])@ == entries[idx]@;
                        assert(reads@[k]@ == entries[idx]@);
                    } else {
                        assert(reads@[reads@.len() - 1]@ == entries[idx]@);
                    }
                }
                assert forall|i: int|
                    0 <= i < pos + 1 && entry_retained(*host, (#[trigger] entries[i])@)
                        implies in_paths(retained@, entries[i]@) by {
                    if i < pos {
                        let k = choose|k: int|
                            0 <= k < rt0.len() && (#[trigger] rt0[k])@ == entries[i]@;
                        assert(retained@[k]@ == entries[i]@);
                    } else {
                        assert(retained@[retained@.len() - 1]@ == entries[i]@);
                    }
                }
            }
            pos = pos + 1;
        }
        let arenas_created = self.allocator_pool.created_count();
        RunOutcome {
            deliveries,
            writes,
            reads,
            retained,
            graph: ModuleGraph::new(),
            arenas_created,
        }
    }
}

/// How many entries of a boolean sequence are still false.
pub open spec fn count_false(s: Seq<bool>) -> nat
    decreases s.len(),
{
    if s.len() == 0 {
        0
    } else {
        count_false(s.drop_last()) + if s.last() {
            0nat
        } else {
            1nat
        }
    }
}

/// Setting a false entry to true lowers the count of false entries by one.
pub proof fn lemma_count_false_update(s: Seq<bool>, i: int)
    requires
        0 <= i < s.len(),
        !s[i],
    ensures
        count_false(s.update(i, true)) + 1 == count_false(s),
    decreases s.len(),
{
    if i == s.len() - 1 {
        assert(s.update(i, true).drop_last() =~= s.drop_last());
    } else {
        assert(s.update(i, true).drop_last() =~= s.drop_last().update(i, true));
        lemma_count_false_update(s.drop_last(), i);
    }
}

/// Whether an index occurs in this list.
pub open spec fn in_indices(v: Seq<usize>, i: int) -> bool {
    exists|k: int| 0 <= k < v.len() && (#[trigger] v[k]) as int == i
}

/// The sections of a file that parsed, in order.
pub open spec fn parsed_sections(sections: Seq<HostSection>) -> Seq<HostSection>
    decreases sections.len(),
{
    if sections.len() == 0 {
        Seq::empty()
    } else {
        parsed_sections(sections.drop_last()) + if sections.last().parse_errors@.len() == 0 {
            seq![sections.last()]
        } else {
            Seq::empty()
        }
    }
}

/// The import specifiers of a section, as views.
pub open spec fn section_specifiers(sec: HostSection) -> Seq<Seq<char>> {
    sec.imports@.map_values(|imp: crate::host::HostImport| imp.specifier@)
}

/// The views of a record's request list.
pub open spec fn request_views(rs: Seq<String>) -> Seq<Seq<char>> {
    rs.map_values(|s: String| s@)
}

/// The views of a record's linked dependency table.
pub open spec fn loaded_views(lv: Seq<(String, usize)>) -> Seq<(Seq<char>, int)> {
    lv.map_values(|e: (String, usize)| (e.0@, e.1 as int))
}

/// Whether the graph holds an entry with at least one record for this path.
pub open spec fn spec_graph_has_records(g: ModuleGraph, p: Seq<char>) -> bool {
    exists|k: int|
        0 <= k < g.entries@.len() && (#[trigger] g.entries@[k]).path@ == p
            && g.entries@[k].records@.len() > 0
}

/// The index of the entry with records for this path.
pub open spec fn spec_graph_record_idx(g: ModuleGraph, p: Seq<char>) -> int {
    choose|k: int|
        0 <= k < g.entries@.len() && (#[trigger] g.entries@[k]).path@ == p
            && g.entries@[k].records@.len() > 0
}

/// What one record's dependency table holds once its wave is linked: for
/// every import whose resolution succeeded and whose target has a module
/// record in the graph, the specifier and the graph index of the target.
/// An unresolved import, or one whose target never produced a record, is
/// silently dropped.
pub open spec fn spec_loaded_of(h: Host, g: ModuleGraph, imports: Seq<crate::host::HostImport>)
    -> Seq<(Seq<char>, int)>
    decreases imports.len(),
{
    if imports.len() == 0 {
        Seq::empty()
    } else {
        spec_loaded_of(h, g, imports.drop_last()) + {
            let imp = imports.last();
            if imp.resolved is Some && spec_graph_has_records(
                g,
                h.files@[imp.resolved->0 as int].path@,
            ) {
                seq![
                    (imp.specifier@, spec_graph_record_idx(
                        g,
                        h.files@[imp.resolved->0 as int].path@,
                    )),
                ]
            } else {
                Seq::empty()
            }
        }
    }
}

/// What the graph of a finished run holds.
///
/// Paths are distinct; every entry belongs to a processable host file; every
/// processable entry file of the run is in the graph; the graph is closed
/// under resolved imports of parsed sections; records mirror the parsed
/// sections with their request lists; and every record's dependency table
/// is linked exactly as [`spec_loaded_of`] describes.
pub open spec fn graph_post(h: Host, entries: Seq<String>, g: ModuleGraph) -> bool {
    &&& forall|a: int, b: int|
        0 <= a < b < g.entries@.len() ==> (#[trigger] g.entries@[a]).path@ != (
        #[trigger] g.entries@[b]).path@
    &&& forall|k: int|
        0 <= k < g.entries@.len() ==> spec_has_file(h, (#[trigger] g.entries@[k]).path@)
            && spec_is_processable_path(g.entries@[k].path@)
    &&& forall|i: int|
        0 <= i < entries.len() && spec_is_processable_path((#[trigger] entries[i])@)
            && spec_has_file(h, entries[i]@) ==> spec_graph_has(g, entries[i]@)
    &&& forall|k: int, m: int, w: int|
        #[trigger] graph_edge(h, g, k, m, w) ==> spec_graph_has(
            g,
            h.files@[graph_edge_target(h, g, k, m, w)].path@,
        )
    &&& forall|k: int|
        0 <= k < g.entries@.len() ==> graph_entry_records_ok(h, g, #[trigger] g.entries@[k])
}

/// An edge of the graph: entry `k`'s file is readable, its section `m`
/// parsed, and import `w` of that section resolved to a processable path.
pub open spec fn graph_edge(h: Host, g: ModuleGraph, k: int, m: int, w: int) -> bool {
    &&& 0 <= k < g.entries@.len()
    &&& spec_file_of(h, g.entries@[k].path@).readable
    &&& 0 <= m < spec_file_of(h, g.entries@[k].path@).sections@.len()
    &&& spec_file_of(h, g.entries@[k].path@).sections@[m].parse_errors@.len() == 0
    &&& 0 <= w < spec_file_of(h, g.entries@[k].path@).sections@[m].imports@.len()
    &&& spec_file_of(h, g.entries@[k].path@).sections@[m].imports@[w].resolved is Some
    &&& spec_is_processable_path(
        h.files@[spec_file_of(h, g.entries@[k].path@).sections@[m].imports@[w].resolved->0 as int].path@,
    )
}

/// The host file an edge points at.
pub open spec fn graph_edge_target(h: Host, g: ModuleGraph, k: int, m: int, w: int) -> int {
    spec_file_of(h, g.entries@[k].path@).sections@[m].imports@[w].resolved->0 as int
}

/// One graph entry's records mirror its file: an unreadable file has none,
/// a readable file has one per parsed section, carrying that section's
/// import specifiers as requests and the linked dependency table.
pub open spec fn graph_entry_records_ok(h: Host, g: ModuleGraph, e: GraphEntry) -> bool {
    let f = spec_file_of(h, e.path@);
    if !f.readable {
        e.records@.len() == 0
    } else {
        &&& e.records@.len() == parsed_sections(f.sections@).len()
        &&& forall|m: int|
            0 <= m < e.records@.len() ==> request_views((#[trigger] e.records@[m]).requests@)
                == section_specifiers(parsed_sections(f.sections@)[m])
        &&& forall|m: int|
            0 <= m < e.records@.len() ==> loaded_views((#[trigger] e.records@[m]).loaded@)
                == spec_loaded_of(h, g, parsed_sections(f.sections@)[m].imports@)
    }
}

/// Looks up the graph entry with records for a path.
fn find_graph_records(g: &ModuleGraph, p: &String) -> (r: Option<usize>)
    requires
        forall|a: int, b: int|
            0 <= a < b < g.entries@.len() ==> (#[trigger] g.entries@[a]).path@ != (
            #[trigger] g.entries@[b]).path@,
    ensures
        match r {
            Some(gi) => spec_graph_has_records(*g, p@) && gi < g.entries@.len()
                && g.entries@[gi as int].path@ == p@ && g.entries@[gi as int].records@.len() > 0
                && gi as int == spec_graph_record_idx(*g, p@),
            None => !spec_graph_has_records(*g, p@),
        },
{
    let mut k: usize = 0;
    while k < g.entries.len()
        invariant
            k <= g.entries@.len(),
            forall|j: int|
                0 <= j < k ==> (#[trigger] g.entries@[j]).path@ != p@ || g.entries@[j].records@.len()
                    == 0,
        decreases g.entries@.len() - k,
    {
        if g.entries[k].path == *p && g.entries[k].records.len() > 0 {
            proof {
                assert(spec_graph_has_records(*g, p@));
                let c = spec_graph_record_idx(*g, p@);
                assert(0 <= c < g.entries@.len() && g.entries@[c].path@ == p@
                    && g.entries@[c].records@.len() > 0);
                if c < k {
                    assert(g.entries@[c].path@ != g.entries@[k as int].path@);
                } else if c > k {
                    assert(g.entries@[k as int].path@ != g.entries@[c].path@);
                }
            }
            return Some(k);
        }
        k = k + 1;
    }
    None
}

/// Copies a section's import specifiers into a request list.
fn build_requests(sec: &HostSection) -> (rs: Vec<String>)
    ensures
        request_views(rs@) == section_specifiers(*sec),
{
    let mut rs: Vec<String> = Vec::new();
    let mut w: usize = 0;
    proof {
        assert(request_views(rs@) =~= section_specifiers(*sec).subrange(0, 0));
    }
    while w < sec.imports.len()
        invariant
            w <= sec.imports@.len(),
            request_views(rs@) == section_specifiers(*sec).subrange(0, w as int),
        decreases sec.imports@.len() - w,
    {
        let ghost rs0 = rs@;
        rs.push(sec.imports[w].specifier.clone());
        proof {
            assert(request_views(rs@) =~= request_views(rs0).push(
                sec.imports@[w as int].specifier@,
            ));
            assert(section_specifiers(*sec).subrange(0, w + 1) =~= section_specifiers(
                *sec,
            ).subrange(0, w as int).push(sec.imports@[w as int].specifier@));
        }
        w = w + 1;
    }
    proof {
        assert(section_specifiers(*sec).subrange(0, section_specifiers(*sec).len() as int)
            =~= section_specifiers(*sec));
    }
    rs
}

/// Builds one record's linked dependency table: for every import that
/// resolved to a path with a module record in the graph, the specifier and
/// the graph index of that record's entry.
fn build_loaded(h: &Host, g: &ModuleGraph, imports: &Vec<crate::host::HostImport>) -> (lv: Vec<
    (String, usize),
>)
    requires
        forall|a: int, b: int|
            0 <= a < b < g.entries@.len() ==> (#[trigger] g.entries@[a]).path@ != (
            #[trigger] g.entries@[b]).path@,
        forall|j: int|
            0 <= j < imports@.len() && (#[trigger] imports@[j]).resolved is Some
                ==> imports@[j].resolved->0 < h.files@.len(),
    ensures
        loaded_views(lv@) == spec_loaded_of(*h, *g, imports@),
{
    let mut lv: Vec<(String, usize)> = Vec::new();
    let mut w: usize = 0;
    proof {
        assert(loaded_views(lv@) =~= spec_loaded_of(*h, *g, imports@.subrange(0, 0)));
    }
    while w < imports.len()
        invariant
            w <= imports@.len(),
            loaded_views(lv@) == spec_loaded_of(*h, *g, imports@.subrange(0, w as int)),
        decreases imports@.len() - w,
    {
        proof {
            assert(imports@.subrange(0, w + 1).drop_last() =~= imports@.subrange(0, w as int));
            assert(imports@.subrange(0, w + 1).last() == imports@[w as int]);
        }
        let ghost lv0 = lv@;
        match imports[w].resolved {
            Option::None => {
            },
            Option::Some(d) => {
                proof {
                    assert(imports@[w as int].resolved == Some(d));
                }
                let dep_path = &h.files[d].path;
                let found = find_graph_records(g, dep_path);
                match found {
                    Option::None => {
                    },
                    Option::Some(gi) => {
                        lv.push((imports[w].specifier.clone(), gi));
                        proof {
                            assert(loaded_views(lv@) =~= loaded_views(lv0).push(
                                (imports@[w as int].specifier@, gi as int),
                            ));
                        }
                    },
                }
            },
        }
        proof {
            assert(loaded_views(lv@) =~= spec_loaded_of(*h, *g, imports@.subrange(0, w + 1)));
        }
        w = w + 1;
    }
    proof {
        assert(imports@.subrange(0, imports@.len() as int) =~= imports@);
    }
    lv
}

/// The unlinked records of a readable file: one per parsed section, with
/// that section's requests and an empty dependency table.
fn build_records(f: &HostFile) -> (rs: Vec<ModuleRecord>)
    ensures
        rs@.len() == parsed_sections(f.sections@).len(),
        forall|m: int|
            0 <= m < rs@.len() ==> request_views((#[trigger] rs@[m]).requests@)
                == section_specifiers(parsed_sections(f.sections@)[m]),
        forall|m: int| 0 <= m < rs@.len() ==> (#[trigger] rs@[m]).loaded@.len() == 0,
    decreases f.sections@.len(),
{
    let mut rs: Vec<ModuleRecord> = Vec::new();
    let mut j: usize = 0;
    proof {
        assert(parsed_sections(f.sections@.subrange(0, 0)).len() == 0);
    }
    while j < f.sections.len()
        invariant
            j <= f.sections@.len(),
            rs@.len() == parsed_sections(f.sections@.subrange(0, j as int)).len(),
            forall|m: int|
                0 <= m < rs@.len() ==> request_views((#[trigger] rs@[m]).requests@)
                    == section_specifiers(
                    parsed_sections(f.sections@.subrange(0, j as int))[m],
                ),
            forall|m: int| 0 <= m < rs@.len() ==> (#[trigger] rs@[m]).loaded@.len() == 0,
        decreases f.sections@.len() - j,
    {
        proof {
            assert(f.sections@.subrange(0, j + 1).drop_last() =~= f.sections@.subrange(
                0,
                j as int,
            ));
            assert(f.sections@.subrange(0, j + 1).last() == f.sections@[j as int]);
        }
        if f.sections[j].parse_errors.len() == 0 {
            let requests = build_requests(&f.sections[j]);
            rs.push(ModuleRecord { requests, loaded: Vec::new() });
            proof {
                assert(parsed_sections(f.sections@.subrange(0, j + 1)) =~= parsed_sections(
                    f.sections@.subrange(0, j as int),
                ).push(f.sections@[j as int]));
            }
        } else {
            proof {
                assert(parsed_sections(f.sections@.subrange(0, j + 1)) =~= parsed_sections(
                    f.sections@.subrange(0, j as int),
                ));
            }
        }
        j = j + 1;
    }
    proof {
        assert(f.sections@.subrange(0, f.sections@.len() as int) =~= f.sections@);
    }
    rs
}

/// The shape of one entry's records, before or after linking: none for an
/// unreadable file, one per parsed section with its requests otherwise.
pub open spec fn records_shape_ok(h: Host, e: GraphEntry) -> bool {
    let f = spec_file_of(h, e.path@);
    if !f.readable {
        e.records@.len() == 0
    } else {
        &&& e.records@.len() == parsed_sections(f.sections@).len()
        &&& forall|m: int|
            0 <= m < e.records@.len() ==> request_views((#[trigger] e.records@[m]).requests@)
                == section_specifiers(parsed_sections(f.sections@)[m])
    }
}

/// One entry is linked with respect to a graph.
pub open spec fn entry_linked(h: Host, g: ModuleGraph, e: GraphEntry) -> bool {
    forall|m: int|
        0 <= m < e.records@.len() ==> loaded_views((#[trigger] e.records@[m]).loaded@)
            == spec_loaded_of(
            h,
            g,
            parsed_sections(spec_file_of(h, e.path@).sections@)[m].imports@,
        )
}

/// Whether two graphs agree on paths and on which entries have records.
pub open spec fn graphs_agree(g1: ModuleGraph, g2: ModuleGraph) -> bool {
    &&& g1.entries@.len() == g2.entries@.len()
    &&& forall|k: int|
        0 <= k < g1.entries@.len() ==> (#[trigger] g1.entries@[k]).path@ == (
        #[trigger] g2.entries@[k]).path@ && (g1.entries@[k].records@.len() > 0) == (
        g2.entries@[k].records@.len() > 0)
}

/// A record's dependency table only depends on the graph's paths and on
/// which entries have records, so graphs that agree on those link alike.
pub proof fn lemma_loaded_stable(
    h: Host,
    g1: ModuleGraph,
    g2: ModuleGraph,
    imports: Seq<crate::host::HostImport>,
)
    requires
        graphs_agree(g1, g2),
        forall|a: int, b: int|
            0 <= a < b < g1.entries@.len() ==> (#[trigger] g1.entries@[a]).path@ != (
            #[trigger] g1.entries@[b]).path@,
    ensures
        spec_loaded_of(h, g1, imports) == spec_loaded_of(h, g2, imports),
    decreases imports.len(),
{
    if imports.len() > 0 {
        lemma_loaded_stable(h, g1, g2, imports.drop_last());
        let imp = imports.last();
        if imp.resolved is Some {
            let p = h.files@[imp.resolved->0 as int].path@;
            assert(spec_graph_has_records(g1, p) == spec_graph_has_records(g2, p)) by {
                if spec_graph_has_records(g1, p) {
                    let k = spec_graph_record_idx(g1, p);
                    assert(g2.entries@[k].path@ == p && g2.entries@[k].records@.len() > 0);
                }
                if spec_graph_has_records(g2, p) {
                    let k = spec_graph_record_idx(g2, p);
                    assert(g1.entries@[k].path@ == p && g1.entries@[k].records@.len() > 0);
                }
            }
            if spec_graph_has_records(g1, p) {
                assert(spec_graph_record_idx(g1, p) == spec_graph_record_idx(g2, p)) by {
                    let k1 = spec_graph_record_idx(g1, p);
                    let k2 = spec_graph_record_idx(g2, p);
                    assert(g2.entries@[k1].path@ == p && g2.entries@[k1].records@.len() > 0);
                    assert(g1.entries@[k2].path@ == p && g1.entries@[k2].records@.len() > 0);
                    if k1 < k2 {
                        assert(g1.entries@[k1].path@ != g1.entries@[k2].path@);
                    } else if k2 < k1 {
                        assert(g1.entries@[k2].path@ != g1.entries@[k1].path@);
                    }
                }
            }
        }
    }
}

/// Appending an entry for a fresh path does not change how a record whose
/// resolved, processable imports already have entries would link.
pub proof fn lemma_loaded_grow(
    h: Host,
    g: ModuleGraph,
    g2: ModuleGraph,
    imports: Seq<crate::host::HostImport>,
)
    requires
        forall|a: int, b: int|
            0 <= a < b < g.entries@.len() ==> (#[trigger] g.entries@[a]).path@ != (
            #[trigger] g.entries@[b]).path@,
        g2.entries@.len() == g.entries@.len() + 1,
        forall|k: int|
            0 <= k < g.entries@.len() ==> (#[trigger] g2.entries@[k]) == g.entries@[k],
        forall|k: int|
            0 <= k < g.entries@.len() ==> (#[trigger] g.entries@[k]).path@
                != g2.entries@[g.entries@.len() as int].path@,
        forall|j: int|
            0 <= j < imports.len() && (#[trigger] imports[j]).resolved is Some
                ==> imports[j].resolved->0 < h.files@.len(),
        forall|j: int|
            0 <= j < imports.len() && (#[trigger] imports[j]).resolved is Some && h.files@[(
            imports[j].resolved->0) as int].path@ == g2.entries@[g.entries@.len() as int].path@
                ==> spec_graph_has(g, h.files@[(imports[j].resolved->0) as int].path@),
    ensures
        spec_loaded_of(h, g2, imports) == spec_loaded_of(h, g, imports),
    decreases imports.len(),
{
    if imports.len() > 0 {
        lemma_loaded_grow(h, g, g2, imports.drop_last());
        let imp = imports.last();
        if imp.resolved is Some {
            let p = h.files@[imp.resolved->0 as int].path@;
            let newp = g2.entries@[g.entries@.len() as int].path@;
            if p == newp {
                let k = choose|k: int|
                    0 <= k < g.entries@.len() && (#[trigger] g.entries@[k]).path@ == p;
                assert(g.entries@[k].path@ != newp);
                assert(false);
            }
            assert(spec_graph_has_records(g2, p) == spec_graph_has_records(g, p)) by {
                if spec_graph_has_records(g, p) {
                    let k = spec_graph_record_idx(g, p);
                    assert(g2.entries@[k].path@ == p && g2.entries@[k].records@.len() > 0);
                }
                if spec_graph_has_records(g2, p) {
                    let k = spec_graph_record_idx(g2, p);
                    assert(k != g.entries@.len());
                    assert(g.entries@[k].path@ == p && g.entries@[k].records@.len() > 0);
                }
            }
            if spec_graph_has_records(g, p) {
                assert(spec_graph_record_idx(g2, p) == spec_graph_record_idx(g, p)) by {
                    let k1 = spec_graph_record_idx(g, p);
                    let k2 = spec_graph_record_idx(g2, p);
                    assert(g2.entries@[k1].path@ == p && g2.entries@[k1].records@.len() > 0);
                    assert(k2 != g.entries@.len());
                    assert(g.entries@[k2].path@ == p && g.entries@[k2].records@.len() > 0);
                    if k1 < k2 {
                        assert(g.entries@[k1].path@ != g.entries@[k2].path@);
                    } else if k2 < k1 {
                        assert(g.entries@[k2].path@ != g.entries@[k1].path@);
                    }
                }
            }
        }
    }
}

/// Lints one staged entry file: delivers its diagnostics, applies its
/// coalesced fixes with at most one write, and records that its content
/// was retained into the lint stage.
fn lint_one(
    linter: &Linter,
    host: &Host,
    i: usize,
    fix: bool,
    deliveries: &mut Vec<Delivery>,
    writes: &mut Vec<FileWrite>,
    retained: &mut Vec<String>,
)
    requires
        spec_host_wf(*host),
        i < host.files@.len(),
        spec_is_processable_path(host.files@[i as int].path@),
        host.files@[i as int].readable,
    ensures
        final(deliveries)@.len() == old(deliveries)@.len() + 1,
        final(deliveries)@.drop_last() == old(deliveries)@,
        final(deliveries)@.last().path@ == host.files@[i as int].path@,
        diag_views(final(deliveries)@.last().diagnostics@) == spec_delivery_views(
            *host,
            host.files@[i as int].path@,
        ),
        if fix && entry_fixable(*host, host.files@[i as int].path@) {
            final(writes)@.len() == old(writes)@.len() + 1
                && final(writes)@.drop_last() == old(writes)@
                && final(writes)@.last().path@ == host.files@[i as int].path@
                && final(writes)@.last().content@ == spec_fixed_text(
                spec_file_of(*host, host.files@[i as int].path@),
            )
        } else {
            final(writes)@ == old(writes)@
        },
        final(retained)@.len() == old(retained)@.len() + 1,
        final(retained)@.drop_last() == old(retained)@,
        final(retained)@.last()@ == host.files@[i as int].path@,
{
    proof {
        lemma_file_of_index(*host, i as int);
    }
    let f = &host.files[i];
    let diags = file_delivery(linter, f);
    deliveries.push(Delivery { path: f.path.clone(), diagnostics: diags });
    retained.push(f.path.clone());
    if fix && has_edit(f) {
        let fixed = apply_fixes(f);
        if !(fixed == f.content) {
            writes.push(FileWrite { path: f.path.clone(), content: fixed });
        }
    }
    proof {
        assert(final(deliveries)@.drop_last() =~= old(deliveries)@);
        assert(final(retained)@.drop_last() =~= old(retained)@);
        if fix && entry_fixable(*host, host.files@[i as int].path@) {
            assert(final(writes)@.drop_last() =~= old(writes)@);
        }
    }
}

/// Links every record of a completed wave: for each wave entry, the
/// dependency tables of its records are written, exactly once, from the
/// graph the wave produced.  This is the only mutation of a dependency
/// table, and it happens before any reader can observe the record.
fn link_wave(
    host: &Host,
    graph: &mut ModuleGraph,
    wave_links: &Vec<(usize, usize)>,
    Ghost(wave_start): Ghost<int>,
)
    requires
        spec_host_wf(*host),
        0 <= wave_start,
        wave_start + wave_links@.len() == old(graph).entries@.len(),
        forall|a: int, b: int|
            0 <= a < b < old(graph).entries@.len() ==> (#[trigger] old(graph).entries@[a]).path@
                != (#[trigger] old(graph).entries@[b]).path@,
        forall|t: int|
            0 <= t < wave_links@.len() ==> (#[trigger] wave_links@[t]).0 == wave_start + t
                && wave_links@[t].1 < host.files@.len() && old(graph).entries@[wave_start
                + t].path@ == host.files@[wave_links@[t].1 as int].path@,
        forall|k: int|
            0 <= k < old(graph).entries@.len() ==> spec_has_file(
                *host,
                (#[trigger] old(graph).entries@[k]).path@,
            ),
        forall|k: int|
            0 <= k < old(graph).entries@.len() ==> records_shape_ok(
                *host,
                #[trigger] old(graph).entries@[k],
            ),
        forall|k: int|
            0 <= k < wave_start ==> entry_linked(*host, *old(graph), #[trigger] old(
                graph,
            ).entries@[k]),
    ensures
        graphs_agree(*old(graph), *final(graph)),
        forall|k: int|
            0 <= k < final(graph).entries@.len() ==> (#[trigger] final(graph).entries@[k]).path@
                == old(graph).entries@[k].path@,
        forall|k: int|
            0 <= k < final(graph).entries@.len() ==> records_shape_ok(
                *host,
                #[trigger] final(graph).entries@[k],
            ),
        forall|k: int|
            0 <= k < final(graph).entries@.len() ==> entry_linked(
                *host,
                *final(graph),
                #[trigger] final(graph).entries@[k],
            ),
{
    let ghost g0 = *graph;
    let mut l: usize = 0;
    while l < wave_links.len()
        invariant
            graph.entries@.len() == g0.entries@.len(),
            forall|k: int|
                0 <= k < graph.entries@.len() ==> (#[trigger] graph.entries@[k]).path@
                    == g0.entries@[k].path@,
            graphs_agree(g0, *graph),
            forall|k: int|
                0 <= k < graph.entries@.len() ==> records_shape_ok(
                    *host,
                    #[trigger] graph.entries@[k],
                ),
            forall|k: int|
                0 <= k < wave_start ==> entry_linked(*host, *graph, #[trigger] graph.entries@[k]),
            forall|t: int|
                0 <= t < l ==> entry_linked(
                    *host,
                    *graph,
                    #[trigger] graph.entries@[wave_start + t],
                ),
        decreases wave_links@.len() - l,
    {
        let pair = wave_links[l];
        let g = pair.0;
        let i = pair.1;
        let f = &host.files[i];
        proof {
            lemma_file_of_index(*host, i as int);
        }
        let mut new_records: Vec<ModuleRecord> = Vec::new();
        if f.readable {
            let mut j: usize = 0;
            proof {
                assert(parsed_sections(f.sections@.subrange(0, 0)).len() == 0);
            }
            while j < f.sections.len()
                invariant
                    j <= f.sections@.len(),
                    new_records@.len() == parsed_sections(f.sections@.subrange(0, j as int)).len(),
                    forall|m: int|
                        0 <= m < new_records@.len() ==> request_views(
                            (#[trigger] new_records@[m]).requests@,
                        ) == section_specifiers(
                            parsed_sections(f.sections@.subrange(0, j as int))[m],
                        ),
                    forall|m: int|
                        0 <= m < new_records@.len() ==> loaded_views(
                            (#[trigger] new_records@[m]).loaded@,
                        ) == spec_loaded_of(
                            *host,
                            *graph,
                            parsed_sections(f.sections@.subrange(0, j as int))[m].imports@,
                        ),
                decreases f.sections@.len() - j,
            {
                proof {
                    assert(f.sections@.subrange(0, j + 1).drop_last() =~= f.sections@.subrange(
                        0,
                        j as int,
                    ));
                    assert(f.sections@.subrange(0, j + 1).last() == f.sections@[j as int]);
                }
                if f.sections[j].parse_errors.len() == 0 {
                    let requests = build_requests(&f.sections[j]);
                    let loaded = build_loaded(host, graph, &f.sections[j].imports);
                    new_records.push(ModuleRecord { requests, loaded });
                    proof {
                        assert(parsed_sections(f.sections@.subrange(0, j + 1)) =~= parsed_sections(
                            f.sections@.subrange(0, j as int),
                        ).push(f.sections@[j as int]));
                    }
                } else {
                    proof {
                        assert(parsed_sections(f.sections@.subrange(0, j + 1)) =~= parsed_sections(
                            f.sections@.subrange(0, j as int),
                        ));
                    }
                }
                j = j + 1;
            }
            proof {
                assert(f.sections@.subrange(0, f.sections@.len() as int) =~= f.sections@);
            }
        }
        let entry = GraphEntry { path: f.path.clone(), records: new_records };
        let ghost gpre = *graph;
        graph.entries.set(g, entry);
        proof {
            assert(gpre.entries@[g as int].records@.len() == graph.entries@[g as int].records@.len());
            assert(graphs_agree(gpre, *graph));
            assert(graphs_agree(g0, *graph));
            assert forall|k: int|
                0 <= k < wave_start implies entry_linked(
                *host,
                *graph,
                #[trigger] graph.entries@[k],
            ) by {
                assert(graph.entries@[k] == gpre.entries@[k]);
                lemma_loaded_stable_entry(*host, gpre, *graph, graph.entries@[k]);
            }
            assert forall|t: int|
                0 <= t < l + 1 implies entry_linked(
                *host,
                *graph,
                #[trigger] graph.entries@[wave_start + t],
            ) by {
                if t < l {
                    assert(graph.entries@[wave_start + t] == gpre.entries@[wave_start + t]);
                    lemma_loaded_stable_entry(*host, gpre, *graph, graph.entries@[wave_start + t]);
                } else {
                    lemma_loaded_stable_entry(*host, gpre, *graph, graph.entries@[g as int]);
                }
            }
        }
        l = l + 1;
    }
    proof {
        assert forall|k: int|
            0 <= k < graph.entries@.len() implies entry_linked(
            *host,
            *graph,
            #[trigger] graph.entries@[k],
        ) by {
            if k >= wave_start {
                assert(entry_linked(*host, *graph, graph.entries@[wave_start + (k - wave_start)]));
            }
        }
    }
}

/// An entry linked against one graph stays linked against any graph that
/// agrees with it.
pub proof fn lemma_loaded_stable_entry(h: Host, g1: ModuleGraph, g2: ModuleGraph, e: GraphEntry)
    requires
        graphs_agree(g1, g2),
        forall|a: int, b: int|
            0 <= a < b < g1.entries@.len() ==> (#[trigger] g1.entries@[a]).path@ != (
            #[trigger] g1.entries@[b]).path@,
        entry_linked(h, g1, e),
    ensures
        entry_linked(h, g2, e),
{
    assert forall|m: int|
        0 <= m < e.records@.len() implies loaded_views((#[trigger] e.records@[m]).loaded@)
        == spec_loaded_of(
        h,
        g2,
        parsed_sections(spec_file_of(h, e.path@).sections@)[m].imports@,
    ) by {
        lemma_loaded_stable(
            h,
            g1,
            g2,
            parsed_sections(spec_file_of(h, e.path@).sections@)[m].imports@,
        );
    }
}

/// A vector of `n` cleared flags.
fn make_flags(n: usize) -> (v: Vec<bool>)
    ensures
        v@.len() == n,
        forall|i: int| 0 <= i < n ==> !(#[trigger] v@[i]),
{
    let mut v: Vec<bool> = Vec::new();
    let mut t: usize = 0;
    while t < n
        invariant
            t <= n,
            v@.len() == t,
            forall|i: int| 0 <= i < t ==> !(#[trigger] v@[i]),
        decreases n - t,
    {
        v.push(false);
        t = t + 1;
    }
    v
}

/// A vector of `n` empty slots.
fn make_slots(n: usize) -> (v: Vec<Option<usize>>)
    ensures
        v@.len() == n,
        forall|i: int| 0 <= i < n ==> (#[trigger] v@[i]) is None,
{
    let mut v: Vec<Option<usize>> = Vec::new();
    let mut t: usize = 0;
    while t < n
        invariant
            t <= n,
            v@.len() == t,
            forall|i: int| 0 <= i < t ==> (#[trigger] v@[i]) is None,
        decreases n - t,
    {
        v.push(None);
        t = t + 1;
    }
    v
}

/// Marks, for every host file, whether it is one of the entry paths.
fn mark_entries(host: &Host, paths: &Vec<String>) -> (ef: Vec<bool>)
    requires
        spec_host_wf(*host),
    ensures
        ef@.len() == host.files@.len(),
        forall|i: int|
            0 <= i < host.files@.len() ==> (#[trigger] ef@[i]) == in_paths(
                paths@,
                host.files@[i].path@,
            ),
{
    let mut ef = make_flags(host.files.len());
    let mut t: usize = 0;
    while t < paths.len()
        invariant
            t <= paths@.len(),
            ef@.len() == host.files@.len(),
            forall|i: int|
                0 <= i < host.files@.len() ==> (#[trigger] ef@[i]) == in_paths_prefix(
                    paths@,
                    t as int,
                    host.files@[i].path@,
                ),
        decreases paths@.len() - t,
    {
        let found = find_file(host, &paths[t]);
        let ghost ef0 = ef@;
        match found {
            Option::None => {
            },
            Option::Some(i) => {
                ef.set(i, true);
            },
        }
        proof {
            assert forall|i: int|
                0 <= i < host.files@.len() implies (#[trigger] ef@[i]) == in_paths_prefix(
                paths@,
                t + 1,
                host.files@[i].path@,
            ) by {
                if ef@[i] {
                    if ef0[i] {
                        let q = choose|q: int|
                            0 <= q < t && (#[trigger] paths@[q])@ == host.files@[i].path@;
                        assert(paths@[q]@ == host.files@[i].path@);
                    } else {
                        assert(paths@[t as int]@ == host.files@[i].path@);
                    }
                } else {
                    if in_paths_prefix(paths@, t + 1, host.files@[i].path@) {
                        let q = choose|q: int|
                            0 <= q < t + 1 && (#[trigger] paths@[q])@ == host.files@[i].path@;
                        if q < t {
                            assert(in_paths_prefix(paths@, t as int, host.files@[i].path@));
                        } else {
                            assert(found is Some && found->0 as int == i) by {
                                if found is Some {
                                    crate::host::lemma_path_determines_index(
                                        *host,
                                        i,
                                        found->0 as int,
                                    );
                                }
                            }
                        }
                        assert(false);
                    }
                }
            }
        }
        t = t + 1;
    }
    proof {
        assert(in_paths(paths@, host.files@[0].path@) == in_paths_prefix(
            paths@,
            paths@.len() as int,
            host.files@[0].path@,
        ) || host.files@.len() == 0);
    }
    ef
}

/// Some linted host file carries this path.
pub open spec fn linted_file_with_path(h: Host, lintedv: Seq<bool>, p: Seq<char>) -> bool {
    exists|j: int|
        0 <= j < h.files@.len() && j < lintedv.len() && (#[trigger] h.files@[j]).path@ == p
            && lintedv[j]
}

/// The standing facts about the output lists of a graph-path run in
/// flight: deliveries, writes and retained paths are distinct and sound,
/// and the per-file linted flags account for every host-file delivery,
/// write and retention.
pub open spec fn lists_inv(
    h: Host,
    entries: Seq<String>,
    fix: bool,
    dl: Seq<Delivery>,
    ws: Seq<FileWrite>,
    rt: Seq<String>,
    lintedv: Seq<bool>,
) -> bool {
    &&& forall|a: int, b: int|
        0 <= a < b < dl.len() ==> (#[trigger] dl[a]).path@ != (#[trigger] dl[b]).path@
    &&& forall|k: int|
        0 <= k < dl.len() ==> in_paths(entries, (#[trigger] dl[k]).path@)
            && spec_is_processable_path(dl[k].path@) && diag_views(dl[k].diagnostics@)
            == spec_delivery_views(h, dl[k].path@)
    &&& ws.len() == 0 || fix
    &&& forall|a: int, b: int|
        0 <= a < b < ws.len() ==> (#[trigger] ws[a]).path@ != (#[trigger] ws[b]).path@
    &&& forall|k: int|
        0 <= k < ws.len() ==> in_paths(entries, (#[trigger] ws[k]).path@) && entry_fixable(
            h,
            ws[k].path@,
        ) && ws[k].content@ == spec_fixed_text(spec_file_of(h, ws[k].path@))
    &&& forall|a: int, b: int|
        0 <= a < b < rt.len() ==> (#[trigger] rt[a])@ != (#[trigger] rt[b])@
    &&& forall|k: int|
        0 <= k < rt.len() ==> in_paths(entries, (#[trigger] rt[k])@) && entry_retained(
            h,
            rt[k]@,
        )
    &&& lintedv.len() == h.files@.len()
    &&& forall|j: int|
        0 <= j < lintedv.len() && (#[trigger] lintedv[j]) ==> in_paths(
            entries,
            h.files@[j].path@,
        ) && spec_is_processable_path(h.files@[j].path@) && delivered(dl, h.files@[j].path@)
            && (fix && entry_fixable(h, h.files@[j].path@) ==> written(ws, h.files@[j].path@))
            && (entry_retained(h, h.files@[j].path@) ==> in_paths(rt, h.files@[j].path@))
    &&& forall|k: int|
        0 <= k < dl.len() && spec_has_file(h, (#[trigger] dl[k]).path@)
            ==> linted_file_with_path(h, lintedv, dl[k].path@)
    &&& forall|k: int|
        0 <= k < ws.len() ==> linted_file_with_path(h, lintedv, (#[trigger] ws[k]).path@)
    &&& forall|k: int|
        0 <= k < rt.len() ==> linted_file_with_path(h, lintedv, (#[trigger] rt[k])@)
}

/// Lints one staged entry file and marks it linted, keeping the standing
/// facts about the output lists.
fn lint_and_mark(
    linter: &Linter,
    host: &Host,
    Ghost(entries): Ghost<Seq<String>>,
    i: usize,
    fix: bool,
    deliveries: &mut Vec<Delivery>,
    writes: &mut Vec<FileWrite>,
    retained: &mut Vec<String>,
    lintedv: &mut Vec<bool>,
)
    requires
        spec_host_wf(*host),
        i < host.files@.len(),
        spec_is_processable_path(host.files@[i as int].path@),
        host.files@[i as int].readable,
        in_paths(entries, host.files@[i as int].path@),
        !old(lintedv)@[i as int],
        lists_inv(
            *host,
            entries,
            fix,
            old(deliveries)@,
            old(writes)@,
            old(retained)@,
            old(lintedv)@,
        ),
    ensures
        lists_inv(
            *host,
            entries,
            fix,
            final(deliveries)@,
            final(writes)@,
            final(retained)@,
            final(lintedv)@,
        ),
        final(lintedv)@ == old(lintedv)@.update(i as int, true),
        final(deliveries)@.len() == old(deliveries)@.len() + 1,
        final(deliveries)@.drop_last() == old(deliveries)@,
        final(deliveries)@.last().path@ == host.files@[i as int].path@,
{
    let ghost p = host.files@[i as int].path@;
    proof {
        lemma_file_of_index(*host, i as int);
        assert(entry_retained(*host, p));
        if delivered(old(deliveries)@, p) {
            let k = choose|k: int|
                0 <= k < old(deliveries)@.len() && (#[trigger] old(deliveries)@[k]).path@ == p;
            let j = choose|j: int|
                0 <= j < host.files@.len() && j < old(lintedv)@.len() && (
                #[trigger] host.files@[j]).path@ == p && old(lintedv)@[j];
            crate::host::lemma_path_determines_index(*host, i as int, j);
            assert(false);
        }
        if written(old(writes)@, p) {
            let k = choose|k: int|
                0 <= k < old(writes)@.len() && (#[trigger] old(writes)@[k]).path@ == p;
            let j = choose|j: int|
                0 <= j < host.files@.len() && j < old(lintedv)@.len() && (
                #[trigger] host.files@[j]).path@ == p && old(lintedv)@[j];
            crate::host::lemma_path_determines_index(*host, i as int, j);
            assert(false);
        }
        if in_paths(old(retained)@, p) {
            let k = choose|k: int|
                0 <= k < old(retained)@.len() && (#[trigger] old(retained)@[k])@ == p;
            let j = choose|j: int|
                0 <= j < host.files@.len() && j < old(lintedv)@.len() && (
                #[trigger] host.files@[j]).path@ == p && old(lintedv)@[j];
            crate::host::lemma_path_determines_index(*host, i as int, j);
            assert(false);
        }
    }
    let ghost dl0 = deliveries@;
    let ghost ws0 = writes@;
    let ghost rt0 = retained@;
    lint_one(linter, host, i, fix, deliveries, writes, retained);
    lintedv.set(i, true);
    proof {
        assert(deliveries@.last().path@ == p);
        assert(retained@.last()@ == p);
        assert forall|k: int|
            0 <= k < deliveries@.len() implies in_paths(
            entries,
            (#[trigger] deliveries@[k]).path@,
        ) && spec_is_processable_path(deliveries@[k].path@) && diag_views(
            deliveries@[k].diagnostics@,
        ) == spec_delivery_views(*host, deliveries@[k].path@) by {
            if k < dl0.len() {
                assert(deliveries@[k] == dl0[k]);
            }
        }
        assert forall|a: int, b: int|
            0 <= a < b < deliveries@.len() implies (#[trigger] deliveries@[a]).path@ != (
        #[trigger] deliveries@[b]).path@ by {
            if b < dl0.len() {
                assert(deliveries@[a] == dl0[a] && deliveries@[b] == dl0[b]);
            } else {
                assert(deliveries@[a] == dl0[a]);
                assert(deliveries@[b].path@ == p);
                if deliveries@[a].path@ == p {
                    assert(delivered(dl0, p));
                }
            }
        }
        assert forall|k: int|
            0 <= k < writes@.len() implies in_paths(entries, (#[trigger] writes@[k]).path@)
            && entry_fixable(*host, writes@[k].path@) && writes@[k].content@ == spec_fixed_text(
            spec_file_of(*host, writes@[k].path@),
        ) by {
            if k < ws0.len() {
                assert(writes@[k] == ws0[k]);
            } else {
                assert(writes@[k].path@ == p);
            }
        }
        assert forall|a: int, b: int|
            0 <= a < b < writes@.len() implies (#[trigger] writes@[a]).path@ != (
        #[trigger] writes@[b]).path@ by {
            if b < ws0.len() {
                assert(writes@[a] == ws0[a] && writes@[b] == ws0[b]);
            } else {
                assert(writes@[a] == ws0[a]);
                assert(writes@[b].path@ == p);
                if writes@[a].path@ == p {
                    assert(written(ws0, p));
                }
            }
        }
        assert forall|k: int|
            0 <= k < retained@.len() implies in_paths(entries, (#[trigger] retained@[k])@)
            && entry_retained(*host, retained@[k]@) by {
            if k < rt0.len() {
                assert(retained@[k] == rt0[k]);
            } else {
                assert(retained@[k]@ == p);
            }
        }
        assert forall|a: int, b: int|
            0 <= a < b < retained@.len() implies (#[trigger] retained@[a])@ != (
        #[trigger] retained@[b])@ by {
            if b < rt0.len() {
                assert(retained@[a] == rt0[a] && retained@[b] == rt0[b]);
            } else {
                assert(retained@[a] == rt0[a]);
                assert(retained@[b]@ == p);
                if retained@[a]@ == p {
                    assert(in_paths(rt0, p));
                }
            }
        }
        assert forall|j: int|
            0 <= j < lintedv@.len() && (#[trigger] lintedv@[j]) implies in_paths(
            entries,
            host.files@[j].path@,
        ) && spec_is_processable_path(host.files@[j].path@) && delivered(
            deliveries@,
            host.files@[j].path@,
        ) && (fix && entry_fixable(*host, host.files@[j].path@) ==> written(
            writes@,
            host.files@[j].path@,
        )) && (entry_retained(*host, host.files@[j].path@) ==> in_paths(
            retained@,
            host.files@[j].path@,
        )) by {
            if j == i {
                assert(delivered(deliveries@, p));
                assert(in_paths(retained@, p));
                if fix && entry_fixable(*host, p) {
                    assert(writes@.last().path@ == p);
                    assert(written(writes@, p));
                }
            } else if old(lintedv)@[j] {
                assert(delivered(dl0, host.files@[j].path@));
                let k = choose|k: int|
                    0 <= k < dl0.len() && (#[trigger] dl0[k]).path@ == host.files@[j].path@;
                assert(deliveries@[k].path@ == host.files@[j].path@);
                if fix && entry_fixable(*host, host.files@[j].path@) {
                    let k2 = choose|k2: int|
                        0 <= k2 < ws0.len() && (#[trigger] ws0[k2]).path@
                            == host.files@[j].path@;
                    assert(writes@[k2].path@ == host.files@[j].path@);
                }
                if entry_retained(*host, host.files@[j].path@) {
                    let k3 = choose|k3: int|
                        0 <= k3 < rt0.len() && (#[trigger] rt0[k3])@ == host.files@[j].path@;
                    assert(retained@[k3]@ == host.files@[j].path@);
                }
            }
        }
        assert forall|k: int|
            0 <= k < deliveries@.len() && spec_has_file(
            *host,
            (#[trigger] deliveries@[k]).path@,
        ) implies linted_file_with_path(*host, lintedv@, deliveries@[k].path@) by {
            if k < dl0.len() {
                let j = choose|j: int|
                    0 <= j < host.files@.len() && j < old(lintedv)@.len() && (
                    #[trigger] host.files@[j]).path@ == dl0[k].path@ && old(lintedv)@[j];
                assert(host.files@[j].path@ == deliveries@[k].path@ && lintedv@[j]);
            } else {
                assert(host.files@[i as int].path@ == deliveries@[k].path@ && lintedv@[i as int]);
            }
            assert(linted_file_with_path(*host, lintedv@, deliveries@[k].path@));
        }
        assert forall|k: int|
            0 <= k < writes@.len() implies linted_file_with_path(
            *host,
            lintedv@,
            (#[trigger] writes@[k]).path@,
        ) by {
            if k < ws0.len() {
                let j = choose|j: int|
                    0 <= j < host.files@.len() && j < old(lintedv)@.len() && (
                    #[trigger] host.files@[j]).path@ == ws0[k].path@ && old(lintedv)@[j];
                assert(host.files@[j].path@ == writes@[k].path@ && lintedv@[j]);
            } else {
                assert(host.files@[i as int].path@ == writes@[k].path@ && lintedv@[i as int]);
            }
            assert(linted_file_with_path(*host, lintedv@, writes@[k].path@));
        }
        assert forall|k: int|
            0 <= k < retained@.len() implies linted_file_with_path(
            *host,
            lintedv@,
            (#[trigger] retained@[k])@,
        ) by {
            if k < rt0.len() {
                let j = choose|j: int|
                    0 <= j < host.files@.len() && j < old(lintedv)@.len() && (
                    #[trigger] host.files@[j]).path@ == rt0[k]@ && old(lintedv)@[j];
                assert(host.files@[j].path@ == retained@[k]@ && lintedv@[j]);
            } else {
                assert(host.files@[i as int].path@ == retained@[k]@ && lintedv@[i as int]);
            }
            assert(linted_file_with_path(*host, lintedv@, retained@[k]@));
        }
    }
}

/// Whether a section with no parse errors occurs in this run of sections.
pub open spec fn is_parsed_section_of(sections: Seq<HostSection>, sec: HostSection) -> bool {
    exists|j: int|
        0 <= j < sections.len() && (#[trigger] sections[j]) == sec && sec.parse_errors@.len() == 0
}

/// Every parsed section of a run of sections is one of them.
pub proof fn lemma_parsed_sections_sub(sections: Seq<HostSection>)
    ensures
        forall|m: int|
            0 <= m < parsed_sections(sections).len() ==> is_parsed_section_of(
                sections,
                #[trigger] parsed_sections(sections)[m],
            ),
    decreases sections.len(),
{
    if sections.len() > 0 {
        lemma_parsed_sections_sub(sections.drop_last());
        assert forall|m: int|
            0 <= m < parsed_sections(sections).len() implies is_parsed_section_of(
            sections,
            #[trigger] parsed_sections(sections)[m],
        ) by {
            if m < parsed_sections(sections.drop_last()).len() {
                assert(is_parsed_section_of(
                    sections.drop_last(),
                    parsed_sections(sections.drop_last())[m],
                ));
                let j = choose|j: int|
                    0 <= j < sections.drop_last().len() && (#[trigger] sections.drop_last()[j])
                        == parsed_sections(sections.drop_last())[m] && parsed_sections(
                        sections.drop_last(),
                    )[m].parse_errors@.len() == 0;
                assert(sections[j] == parsed_sections(sections)[m]);
            } else {
                assert(sections[sections.len() - 1] == parsed_sections(sections)[m]);
            }
        }
    }
}

/// A dependency edge of one host file: section `j2` parsed, and its
/// import `w` resolved to a processable path.
pub open spec fn file_edge(h: Host, i: int, j2: int, w: int) -> bool {
    &&& 0 <= i < h.files@.len()
    &&& 0 <= j2 < h.files@[i].sections@.len()
    &&& h.files@[i].sections@[j2].parse_errors@.len() == 0
    &&& 0 <= w < h.files@[i].sections@[j2].imports@.len()
    &&& h.files@[i].sections@[j2].imports@[w].resolved is Some
    &&& spec_is_processable_path(
        h.files@[(h.files@[i].sections@[j2].imports@[w].resolved->0) as int].path@,
    )
}

/// The host file a dependency edge points at.
pub open spec fn file_edge_target(h: Host, i: int, j2: int, w: int) -> int {
    (h.files@[i].sections@[j2].imports@[w].resolved->0) as int
}

/// Discovers the dependencies of one readable file: every resolved import
/// whose target is processable and not yet encountered is marked
/// encountered and queued for parsing in the current wave.
fn enqueue_deps(
    host: &Host,
    i: usize,
    seen: &mut Vec<bool>,
    pending: &mut Vec<usize>,
    graph_of: &Vec<Option<usize>>,
    Ghost(ex): Ghost<int>,
)
    requires
        spec_host_wf(*host),
        i < host.files@.len(),
        host.files@[i as int].readable,
        old(seen)@.len() == host.files@.len(),
        graph_of@.len() == host.files@.len(),
        0 <= ex < host.files@.len(),
        old(seen)@[ex],
        !in_indices(old(pending)@, ex),
        forall|a: int, b: int|
            0 <= a < b < old(pending)@.len() ==> (#[trigger] old(pending)@[a]) != (
            #[trigger] old(pending)@[b]),
        forall|k: int|
            0 <= k < old(pending)@.len() ==> (#[trigger] old(pending)@[k]) < host.files@.len()
                && old(seen)@[old(pending)@[k] as int] && graph_of@[old(pending)@[k] as int] is None
                && spec_is_processable_path(host.files@[old(pending)@[k] as int].path@),
        forall|j: int|
            0 <= j < host.files@.len() && j != ex ==> ((#[trigger] old(seen)@[j]) <==> (
            graph_of@[j] is Some || in_indices(old(pending)@, j))),
    ensures
        final(seen)@.len() == host.files@.len(),
        forall|j: int| 0 <= j < host.files@.len() && old(seen)@[j] ==> (#[trigger] final(seen)@[j]),
        !in_indices(final(pending)@, ex),
        forall|j: int|
            0 <= j < host.files@.len() && j != ex ==> ((#[trigger] final(seen)@[j]) <==> (
            graph_of@[j] is Some || in_indices(final(pending)@, j))),
        forall|a: int, b: int|
            0 <= a < b < final(pending)@.len() ==> (#[trigger] final(pending)@[a]) != (
            #[trigger] final(pending)@[b]),
        forall|k: int|
            0 <= k < final(pending)@.len() ==> (#[trigger] final(pending)@[k])
                < host.files@.len() && final(seen)@[final(pending)@[k] as int]
                && graph_of@[final(pending)@[k] as int] is None && spec_is_processable_path(
                host.files@[final(pending)@[k] as int].path@,
            ),
        final(pending)@.len() >= old(pending)@.len(),
        final(pending)@.subrange(0, old(pending)@.len() as int) == old(pending)@,
        forall|j: int|
            0 <= j < host.files@.len() && (#[trigger] final(seen)@[j]) && !old(seen)@[j]
                ==> in_indices(final(pending)@, j),
        forall|j2: int, w: int|
            #[trigger] file_edge(*host, i as int, j2, w) ==> final(seen)@[file_edge_target(
                *host,
                i as int,
                j2,
                w,
            )],
        2 * count_false(final(seen)@) + final(pending)@.len() <= 2 * count_false(old(seen)@)
            + old(pending)@.len(),
{
    let f = &host.files[i];
    let mut j2: usize = 0;
    while j2 < f.sections.len()
        invariant
            j2 <= f.sections@.len(),
            seen@.len() == host.files@.len(),
            forall|j: int| 0 <= j < host.files@.len() && old(seen)@[j] ==> (#[trigger] seen@[j]),
            !in_indices(pending@, ex),
            forall|j: int|
                0 <= j < host.files@.len() && j != ex ==> ((#[trigger] seen@[j]) <==> (
                graph_of@[j] is Some || in_indices(pending@, j))),
            forall|a: int, b: int|
                0 <= a < b < pending@.len() ==> (#[trigger] pending@[a]) != (
                #[trigger] pending@[b]),
            forall|k: int|
                0 <= k < pending@.len() ==> (#[trigger] pending@[k]) < host.files@.len()
                    && seen@[pending@[k] as int] && graph_of@[pending@[k] as int] is None
                    && spec_is_processable_path(host.files@[pending@[k] as int].path@),
            pending@.len() >= old(pending)@.len(),
            pending@.subrange(0, old(pending)@.len() as int) == old(pending)@,
            forall|j: int|
                0 <= j < host.files@.len() && (#[trigger] seen@[j]) && !old(seen)@[j]
                    ==> in_indices(pending@, j),
            forall|ja: int, w: int|
                ja < j2 && #[trigger] file_edge(*host, i as int, ja, w) ==> seen@[file_edge_target(
                    *host,
                    i as int,
                    ja,
                    w,
                )],
            2 * count_false(seen@) + pending@.len() <= 2 * count_false(old(seen)@) + old(
                pending,
            )@.len(),
        decreases f.sections@.len() - j2,
    {
        if f.sections[j2].parse_errors.len() == 0 {
            let mut w: usize = 0;
            while w < f.sections[j2].imports.len()
                invariant
                    j2 < f.sections@.len(),
                    f.sections@[j2 as int].parse_errors@.len() == 0,
                    w <= f.sections@[j2 as int].imports@.len(),
                    seen@.len() == host.files@.len(),
                    forall|j: int|
                        0 <= j < host.files@.len() && old(seen)@[j] ==> (#[trigger] seen@[j]),
                    !in_indices(pending@, ex),
                    forall|j: int|
                        0 <= j < host.files@.len() && j != ex ==> ((#[trigger] seen@[j]) <==> (
                        graph_of@[j] is Some || in_indices(pending@, j))),
                    forall|a: int, b: int|
                        0 <= a < b < pending@.len() ==> (#[trigger] pending@[a]) != (
                        #[trigger] pending@[b]),
                    forall|k: int|
                        0 <= k < pending@.len() ==> (#[trigger] pending@[k]) < host.files@.len()
                            && seen@[pending@[k] as int] && graph_of@[pending@[k] as int] is None
                            && spec_is_processable_path(
                            host.files@[pending@[k] as int].path@,
                        ),
                    pending@.len() >= old(pending)@.len(),
                    pending@.subrange(0, old(pending)@.len() as int) == old(pending)@,
                    forall|j: int|
                        0 <= j < host.files@.len() && (#[trigger] seen@[j]) && !old(seen)@[j]
                            ==> in_indices(pending@, j),
                    forall|ja: int, wa: int|
                        ja < j2 && #[trigger] file_edge(*host, i as int, ja, wa)
                            ==> seen@[file_edge_target(*host, i as int, ja, wa)],
                    forall|wa: int|
                        wa < w && #[trigger] file_edge(*host, i as int, j2 as int, wa)
                            ==> seen@[file_edge_target(*host, i as int, j2 as int, wa)],
                    2 * count_false(seen@) + pending@.len() <= 2 * count_false(old(seen)@) + old(
                        pending,
                    )@.len(),
                decreases f.sections@[j2 as int].imports@.len() - w,
            {
                match f.sections[j2].imports[w].resolved {
                    Option::None => {
                    },
                    Option::Some(d) => {
                        if is_processable_path(&host.files[d].path) {
                            if !seen[d] {
                                let ghost seen0 = seen@;
                                let ghost pen0 = pending@;
                                seen.set(d, true);
                                pending.push(d);
                                proof {
                                    lemma_count_false_update(seen0, d as int);
                                    assert(pending@.subrange(0, old(pending)@.len() as int)
                                        =~= pen0.subrange(0, old(pending)@.len() as int));
                                    assert(!in_indices(pending@, ex)) by {
                                        if in_indices(pending@, ex) {
                                            let q = choose|q: int|
                                                0 <= q < pending@.len() && (
                                                #[trigger] pending@[q]) as int == ex;
                                            if q < pen0.len() {
                                                assert(pen0[q] as int == ex);
                                            } else {
                                                assert(d as int == ex);
                                            }
                                            assert(false);
                                        }
                                    }
                                    assert forall|j: int|
                                        0 <= j < host.files@.len() && j != ex implies ((
                                    #[trigger] seen@[j]) <==> (graph_of@[j] is Some || in_indices(
                                        pending@,
                                        j,
                                    ))) by {
                                        if j == d {
                                            assert(pending@[pending@.len() - 1] == d);
                                        } else {
                                            if seen@[j] {
                                                if !(graph_of@[j] is Some) {
                                                    let q = choose|q: int|
                                                        0 <= q < pen0.len() && (
                                                        #[trigger] pen0[q]) as int == j;
                                                    assert(pending@[q] as int == j);
                                                }
                                            } else {
                                                if in_indices(pending@, j) {
                                                    let q = choose|q: int|
                                                        0 <= q < pending@.len() && (
                                                        #[trigger] pending@[q]) as int == j;
                                                    assert(q < pen0.len());
                                                    assert(pen0[q] as int == j);
                                                    assert(false);
                                                }
                                            }
                                        }
                                    }
                                    assert forall|j: int|
                                        0 <= j < host.files@.len() && (#[trigger] seen@[j])
                                            && !old(seen)@[j] implies in_indices(
                                        pending@,
                                        j,
                                    ) by {
                                        if j == d {
                                            assert(pending@[pending@.len() - 1] == d);
                                        } else {
                                            let q = choose|q: int|
                                                0 <= q < pen0.len() && (#[trigger] pen0[q]) as int
                                                    == j;
                                            assert(pending@[q] as int == j);
                                        }
                                    }
                                }
                            }
                        }
                    },
                }
                w = w + 1;
            }
        }
        j2 = j2 + 1;
    }
}

/// Delivers the read failure of an entry path the host has no file for.
fn deliver_missing(
    host: &Host,
    Ghost(entries): Ghost<Seq<String>>,
    fix: bool,
    p: &String,
    deliveries: &mut Vec<Delivery>,
    writes: &Vec<FileWrite>,
    retained: &Vec<String>,
    lintedv: &Vec<bool>,
)
    requires
        !spec_has_file(*host, p@),
        spec_is_processable_path(p@),
        in_paths(entries, p@),
        !delivered(old(deliveries)@, p@),
        lists_inv(*host, entries, fix, old(deliveries)@, writes@, retained@, lintedv@),
    ensures
        lists_inv(*host, entries, fix, final(deliveries)@, writes@, retained@, lintedv@),
        final(deliveries)@.len() == old(deliveries)@.len() + 1,
        final(deliveries)@.drop_last() == old(deliveries)@,
        final(deliveries)@.last().path@ == p@,
{
    let d = read_error_diagnostic(p);
    let diags = vec![d];
    proof {
        assert(diag_views(diags@) =~= seq![read_error_view(p@)]);
    }
    let ghost dl0 = deliveries@;
    deliveries.push(Delivery { path: p.clone(), diagnostics: diags });
    proof {
        assert(final(deliveries)@.drop_last() =~= dl0);
        assert(deliveries@.last().path@ == p@);
        assert forall|k: int|
            0 <= k < deliveries@.len() implies in_paths(
            entries,
            (#[trigger] deliveries@[k]).path@,
        ) && spec_is_processable_path(deliveries@[k].path@) && diag_views(
            deliveries@[k].diagnostics@,
        ) == spec_delivery_views(*host, deliveries@[k].path@) by {
            if k < dl0.len() {
                assert(deliveries@[k] == dl0[k]);
            }
        }
        assert forall|a: int, b: int|
            0 <= a < b < deliveries@.len() implies (#[trigger] deliveries@[a]).path@ != (
        #[trigger] deliveries@[b]).path@ by {
            if b < dl0.len() {
                assert(deliveries@[a] == dl0[a] && deliveries@[b] == dl0[b]);
            } else {
                assert(deliveries@[a] == dl0[a]);
                if deliveries@[a].path@ == p@ {
                    assert(delivered(dl0, p@));
                }
            }
        }
        assert forall|j: int|
            0 <= j < lintedv@.len() && (#[trigger] lintedv@[j]) implies in_paths(
            entries,
            host.files@[j].path@,
        ) && spec_is_processable_path(host.files@[j].path@) && delivered(
            deliveries@,
            host.files@[j].path@,
        ) && (fix && entry_fixable(*host, host.files@[j].path@) ==> written(
            writes@,
            host.files@[j].path@,
        )) && (entry_retained(*host, host.files@[j].path@) ==> in_paths(
            retained@,
            host.files@[j].path@,
        )) by {
            assert(delivered(dl0, host.files@[j].path@));
            let k = choose|k: int|
                0 <= k < dl0.len() && (#[trigger] dl0[k]).path@ == host.files@[j].path@;
            assert(deliveries@[k].path@ == host.files@[j].path@);
        }
        assert forall|k: int|
            0 <= k < deliveries@.len() && spec_has_file(
            *host,
            (#[trigger] deliveries@[k]).path@,
        ) implies linted_file_with_path(*host, lintedv@, deliveries@[k].path@) by {
            assert(k < dl0.len());
            assert(deliveries@[k] == dl0[k]);
            let j = choose|j: int|
                0 <= j < host.files@.len() && j < lintedv@.len() && (
                #[trigger] host.files@[j]).path@ == dl0[k].path@ && lintedv@[j];
            assert(host.files@[j].path@ == deliveries@[k].path@ && lintedv@[j]);
            assert(linted_file_with_path(*host, lintedv@, deliveries@[k].path@));
        }
        assert forall|k: int|
            0 <= k < writes@.len() implies linted_file_with_path(
            *host,
            lintedv@,
            (#[trigger] writes@[k]).path@,
        ) by {
            let j = choose|j: int|
                0 <= j < host.files@.len() && (#[trigger] host.files@[j]).path@
                    == writes@[k].path@ && lintedv@[j];
            assert(host.files@[j].path@ == writes@[k].path@ && lintedv@[j]);
            assert(linted_file_with_path(*host, lintedv@, writes@[k].path@));
        }
        assert forall|k: int|
            0 <= k < retained@.len() implies linted_file_with_path(
            *host,
            lintedv@,
            (#[trigger] retained@[k])@,
        ) by {
            let j = choose|j: int|
                0 <= j < host.files@.len() && (#[trigger] host.files@[j]).path@
                    == retained@[k]@ && lintedv@[j];
            assert(host.files@[j].path@ == retained@[k]@ && lintedv@[j]);
            assert(linted_file_with_path(*host, lintedv@, retained@[k]@));
        }
    }
}

/// Delivers the read failure of an entry file that cannot be read, and
/// marks it handled: such a file contributes no module content and is
/// never staged for linting.
fn deliver_unreadable_entry(
    linter: &Linter,
    host: &Host,
    Ghost(entries): Ghost<Seq<String>>,
    i: usize,
    fix: bool,
    deliveries: &mut Vec<Delivery>,
    writes: &Vec<FileWrite>,
    retained: &Vec<String>,
    lintedv: &mut Vec<bool>,
)
    requires
        spec_host_wf(*host),
        i < host.files@.len(),
        spec_is_processable_path(host.files@[i as int].path@),
        !host.files@[i as int].readable,
        in_paths(entries, host.files@[i as int].path@),
        !old(lintedv)@[i as int],
        lists_inv(*host, entries, fix, old(deliveries)@, writes@, retained@, old(lintedv)@),
    ensures
        lists_inv(*host, entries, fix, final(deliveries)@, writes@, retained@, final(lintedv)@),
        final(lintedv)@ == old(lintedv)@.update(i as int, true),
        final(deliveries)@.len() == old(deliveries)@.len() + 1,
        final(deliveries)@.drop_last() == old(deliveries)@,
        final(deliveries)@.last().path@ == host.files@[i as int].path@,
{
    let ghost p = host.files@[i as int].path@;
    proof {
        lemma_file_of_index(*host, i as int);
        if delivered(old(deliveries)@, p) {
            let k = choose|k: int|
                0 <= k < old(deliveries)@.len() && (#[trigger] old(deliveries)@[k]).path@ == p;
            let j = choose|j: int|
                0 <= j < host.files@.len() && j < old(lintedv)@.len() && (
                #[trigger] host.files@[j]).path@ == p && old(lintedv)@[j];
            crate::host::lemma_path_determines_index(*host, i as int, j);
            assert(false);
        }
    }
    let ghost dl0 = deliveries@;
    let diags = file_delivery(linter, &host.files[i]);
    deliveries.push(Delivery { path: host.files[i].path.clone(), diagnostics: diags });
    lintedv.set(i, true);
    proof {
        assert(final(deliveries)@.drop_last() =~= dl0);
        assert(deliveries@.last().path@ == p);
        assert forall|k: int|
            0 <= k < deliveries@.len() implies in_paths(
            entries,
            (#[trigger] deliveries@[k]).path@,
        ) && spec_is_processable_path(deliveries@[k].path@) && diag_views(
            deliveries@[k].diagnostics@,
        ) == spec_delivery_views(*host, deliveries@[k].path@) by {
            if k < dl0.len() {
                assert(deliveries@[k] == dl0[k]);
            }
        }
        assert forall|a: int, b: int|
            0 <= a < b < deliveries@.len() implies (#[trigger] deliveries@[a]).path@ != (
        #[trigger] deliveries@[b]).path@ by {
            if b < dl0.len() {
                assert(deliveries@[a] == dl0[a] && deliveries@[b] == dl0[b]);
            } else {
                assert(deliveries@[a] == dl0[a]);
                if deliveries@[a].path@ == p {
                    assert(delivered(dl0, p));
                }
            }
        }
        assert forall|j: int|
            0 <= j < lintedv@.len() && (#[trigger] lintedv@[j]) implies in_paths(
            entries,
            host.files@[j].path@,
        ) && spec_is_processable_path(host.files@[j].path@) && delivered(
            deliveries@,
            host.files@[j].path@,
        ) && (fix && entry_fixable(*host, host.files@[j].path@) ==> written(
            writes@,
            host.files@[j].path@,
        )) && (entry_retained(*host, host.files@[j].path@) ==> in_paths(
            retained@,
            host.files@[j].path@,
        )) by {
            if j == i {
                assert(delivered(deliveries@, p));
                assert(!entry_retained(*host, p));
                assert(!entry_fixable(*host, p));
            } else if old(lintedv)@[j] {
                assert(delivered(dl0, host.files@[j].path@));
                let k = choose|k: int|
                    0 <= k < dl0.len() && (#[trigger] dl0[k]).path@ == host.files@[j].path@;
                assert(deliveries@[k].path@ == host.files@[j].path@);
            }
        }
        assert forall|k: int|
            0 <= k < deliveries@.len() && spec_has_file(
            *host,
            (#[trigger] deliveries@[k]).path@,
        ) implies linted_file_with_path(*host, lintedv@, deliveries@[k].path@) by {
            if k < dl0.len() {
                let j = choose|j: int|
                    0 <= j < host.files@.len() && j < old(lintedv)@.len() && (
                    #[trigger] host.files@[j]).path@ == dl0[k].path@ && old(lintedv)@[j];
                assert(host.files@[j].path@ == deliveries@[k].path@ && lintedv@[j]);
            } else {
                assert(host.files@[i as int].path@ == deliveries@[k].path@ && lintedv@[i as int]);
            }
            assert(linted_file_with_path(*host, lintedv@, deliveries@[k].path@));
        }
        assert forall|k: int|
            0 <= k < writes@.len() implies linted_file_with_path(
            *host,
            lintedv@,
            (#[trigger] writes@[k]).path@,
        ) by {
            let j = choose|j: int|
                0 <= j < host.files@.len() && (#[trigger] host.files@[j]).path@
                    == writes@[k].path@ && old(lintedv)@[j];
            assert(host.files@[j].path@ == writes@[k].path@ && lintedv@[j]);
            assert(linted_file_with_path(*host, lintedv@, writes@[k].path@));
        }
        assert forall|k: int|
            0 <= k < retained@.len() implies linted_file_with_path(
            *host,
            lintedv@,
            (#[trigger] retained@[k])@,
        ) by {
            let j = choose|j: int|
                0 <= j < host.files@.len() && (#[trigger] host.files@[j]).path@
                    == retained@[k]@ && old(lintedv)@[j];
            assert(host.files@[j].path@ == retained@[k]@ && lintedv@[j]);
            assert(linted_file_with_path(*host, lintedv@, retained@[k]@));
        }
    }
}

/// Some slot of the host-to-graph map points at this graph entry.
pub open spec fn slot_points_at(graph_of: Seq<Option<usize>>, h: Host, k: int) -> bool {
    exists|i: int|
        0 <= i < graph_of.len() && (#[trigger] graph_of[i]) == Some(k as usize)
}

/// The standing facts tying the graph, the host-to-graph map and the
/// encountered flags together while the graph path runs.
pub open spec fn graph_inv(
    h: Host,
    g: ModuleGraph,
    graph_of: Seq<Option<usize>>,
    seen: Seq<bool>,
    pending: Seq<usize>,
) -> bool {
    &&& graph_of.len() == h.files@.len()
    &&& seen.len() == h.files@.len()
    &&& forall|a: int, b: int|
        0 <= a < b < g.entries@.len() ==> (#[trigger] g.entries@[a]).path@ != (
        #[trigger] g.entries@[b]).path@
    &&& forall|k: int|
        0 <= k < g.entries@.len() ==> spec_has_file(h, (#[trigger] g.entries@[k]).path@)
            && spec_is_processable_path(g.entries@[k].path@)
    &&& forall|i: int|
        0 <= i < graph_of.len() && (#[trigger] graph_of[i]) is Some ==> graph_of[i]->0
            < g.entries@.len() && g.entries@[graph_of[i]->0 as int].path@ == h.files@[i].path@
    &&& forall|k: int| 0 <= k < g.entries@.len() ==> slot_points_at(graph_of, h, k)
    &&& forall|k: int|
        0 <= k < g.entries@.len() ==> records_shape_ok(h, #[trigger] g.entries@[k])
    &&& forall|j: int|
        0 <= j < h.files@.len() ==> ((#[trigger] seen[j]) <==> ((graph_of[j]) is Some
            || in_indices(pending, j)))
    &&& forall|a: int, b: int|
        0 <= a < b < pending.len() ==> (#[trigger] pending[a]) != (#[trigger] pending[b])
    &&& forall|k: int|
        0 <= k < pending.len() ==> (#[trigger] pending[k]) < h.files@.len()
            && seen[pending[k] as int] && graph_of[pending[k] as int] is None
            && spec_is_processable_path(h.files@[pending[k] as int].path@)
}

impl Runtime {
    /// Builds the module graph and lints in waves: the graph path, used
    /// when cross-module analysis is on.  Each wave pulls a bounded batch
    /// of entry paths, parses them and every dependency they transitively
    /// discover, links all dependency tables once the wave's results are
    /// complete, and only then lints the wave's entry files and retires
    /// their content.
    #[verifier::rlimit(100)]
    fn run_graph(&mut self, host: &Host) -> (o: RunOutcome)
        requires
            spec_host_wf(*host),
            old(self).wf(),
            old(self).allocator_pool.next_id < u32::MAX,
        ensures
            final(self).wf(),
            run_post(
                *host,
                old(self).paths@,
                !old(self).linter.options.fix.is_none_spec(),
                o,
            ),
            graph_post(*host, old(self).paths@, o.graph),
            final(self).paths == old(self).paths,
            final(self).linter == old(self).linter,
            final(self).cwd == old(self).cwd,
            final(self).cross_module == old(self).cross_module,
            final(self).thread_count == old(self).thread_count,
            final(self).allocator_pool.created() <= old(self).allocator_pool.created() + 1,
            o.arenas_created == final(self).allocator_pool.created(),
            forall|k: int|
                0 <= k < o.graph.entries@.len() ==> in_paths(
                    o.reads@,
                    (#[trigger] o.graph.entries@[k]).path@,
                ),
    {
        let fix = self.linter.options.fix.is_some();
        let n = host.files.len();
        let mut deliveries: Vec<Delivery> = Vec::new();
        let mut writes: Vec<FileWrite> = Vec::new();
        let mut reads: Vec<String> = Vec::new();
        let mut retained: Vec<String> = Vec::new();
        let mut graph = ModuleGraph::new();
        let mut seen = make_flags(n);
        let mut lintedv = make_flags(n);
        let mut graph_of = make_slots(n);
        // the wave order of this run: deeper, later paths staged first, a
        // memory heuristic that never changes which paths occur; the
        // stored entries keep their first-occurrence order
        let order_src = clone_paths(&self.paths);
        proof {
            assert forall|a: int, b: int|
                0 <= a < b < order_src@.len() implies (#[trigger] order_src@[a])@ != (
            #[trigger] order_src@[b])@ by {
                assert(order_src@[a]@ == self.paths@[a]@);
                assert(order_src@[b]@ == self.paths@[b]@);
            }
        }
        let order = sort_paths_desc(order_src);
        let entryf = mark_entries(host, &order);
        let group_size = self.thread_count * 4;
        let ghost entries = order@;
        let ghost pool0 = self.allocator_pool;
        let mut pos: usize = 0;
        while pos < order.len()
            invariant
                pos <= entries.len(),
                n == host.files@.len(),
                self.paths == old(self).paths,
                self.linter == old(self).linter,
                self.cwd == old(self).cwd,
                self.cross_module == old(self).cross_module,
                self.tsconfig == old(self).tsconfig,
                self.thread_count == old(self).thread_count,
                fix == !old(self).linter.options.fix.is_none_spec(),
                self.allocator_pool.wf(),
                self.allocator_pool.outstanding@ == pool0.outstanding@,
                self.allocator_pool.created() <= pool0.created() + 1,
                self.allocator_pool.allocators@.len() > 0 || self.allocator_pool.created()
                    <= pool0.created(),
                entryf@.len() == n,
                forall|i: int|
                    0 <= i < n ==> (#[trigger] entryf@[i]) == in_paths(
                        entries,
                        host.files@[i].path@,
                    ),
                lintedv@.len() == n,
                graph_inv(*host, graph, graph_of@, seen@, Seq::empty()),
                lists_inv(*host, entries, fix, deliveries@, writes@, retained@, lintedv@),
                forall|k: int|
                    0 <= k < deliveries@.len() && !spec_has_file(
                        *host,
                        (#[trigger] deliveries@[k]).path@,
                    ) ==> in_paths_prefix(entries, pos as int, deliveries@[k].path@)
                        && in_paths(reads@, deliveries@[k].path@),
                forall|a: int, b: int|
                    0 <= a < b < reads@.len() ==> (#[trigger] reads@[a])@ != (
                    #[trigger] reads@[b])@,
                forall|k: int|
                    0 <= k < reads@.len() ==> linted_or_mapped(
                        *host,
                        graph_of@,
                        (#[trigger] reads@[k])@,
                    ) || (!spec_has_file(*host, reads@[k]@) && in_paths_prefix(
                        entries,
                        pos as int,
                        reads@[k]@,
                    )),
                forall|k: int|
                    0 <= k < reads@.len() ==> spec_is_processable_path((#[trigger] reads@[k])@),
                forall|j: int|
                    0 <= j < n && (#[trigger] graph_of@[j]) is Some ==> in_paths(
                        reads@,
                        host.files@[j].path@,
                    ),
                forall|k: int|
                    0 <= k < graph.entries@.len() ==> entry_linked(
                        *host,
                        graph,
                        #[trigger] graph.entries@[k],
                    ),
                forall|k: int, m: int, w: int|
                    #[trigger] graph_edge(*host, graph, k, m, w) ==> graph_of@[graph_edge_target(
                        *host,
                        graph,
                        k,
                        m,
                        w,
                    )] is Some,
                forall|idx: int|
                    0 <= idx < pos && spec_is_processable_path((#[trigger] entries[idx])@)
                        ==> delivered(deliveries@, entries[idx]@) || (exists|j: int|
                        0 <= j < n && (#[trigger] host.files@[j]).path@ == entries[idx]@
                            && seen@[j]),
                forall|j: int|
                    0 <= j < n && (#[trigger] seen@[j]) && entryf@[j]
                        && spec_is_processable_path(host.files@[j].path@) ==> lintedv@[j],
                forall|j: int|
                    0 <= j < n && (#[trigger] lintedv@[j]) ==> graph_of@[j] is Some,
            decreases entries.len() - pos,
        {
            let ghost wave_start = graph.entries@.len() as int;
            let mut pending: Vec<usize> = Vec::new();
            let mut wave_links: Vec<(usize, usize)> = Vec::new();
            let mut wave_lints: Vec<usize> = Vec::new();
            let mut budget: usize = 0;
            let ghost pos_ws = pos as int;
            // step 1: pull the wave's batch of entry paths
            while budget < group_size && pos < order.len()
                invariant
                    pos_ws <= pos <= entries.len(),
                    budget <= pos - pos_ws,
                    n == host.files@.len(),
                    self.paths == old(self).paths,
                    self.linter == old(self).linter,
                    self.cwd == old(self).cwd,
                    self.cross_module == old(self).cross_module,
                    self.tsconfig == old(self).tsconfig,
                    self.thread_count == old(self).thread_count,
                    fix == !old(self).linter.options.fix.is_none_spec(),
                    entryf@.len() == n,
                    forall|i: int|
                        0 <= i < n ==> (#[trigger] entryf@[i]) == in_paths(
                            entries,
                            host.files@[i].path@,
                        ),
                    lintedv@.len() == n,
                    graph.entries@.len() == wave_start,
                    wave_links@.len() == 0,
                    wave_lints@.len() == 0,
                    graph_inv(*host, graph, graph_of@, seen@, pending@),
                    lists_inv(*host, entries, fix, deliveries@, writes@, retained@, lintedv@),
                    forall|k: int|
                        0 <= k < deliveries@.len() && !spec_has_file(
                            *host,
                            (#[trigger] deliveries@[k]).path@,
                        ) ==> in_paths_prefix(entries, pos as int, deliveries@[k].path@)
                            && in_paths(reads@, deliveries@[k].path@),
                    forall|a: int, b: int|
                        0 <= a < b < reads@.len() ==> (#[trigger] reads@[a])@ != (
                        #[trigger] reads@[b])@,
                    forall|k: int|
                        0 <= k < reads@.len() ==> linted_or_mapped(
                            *host,
                            graph_of@,
                            (#[trigger] reads@[k])@,
                        ) || (!spec_has_file(*host, reads@[k]@) && in_paths_prefix(
                            entries,
                            pos as int,
                            reads@[k]@,
                        )),
                    forall|k: int|
                        0 <= k < reads@.len() ==> spec_is_processable_path(
                            (#[trigger] reads@[k])@,
                        ),
                    forall|j: int|
                        0 <= j < n && (#[trigger] graph_of@[j]) is Some ==> in_paths(
                            reads@,
                            host.files@[j].path@,
                        ),
                    forall|k: int|
                        0 <= k < graph.entries@.len() ==> entry_linked(
                            *host,
                            graph,
                            #[trigger] graph.entries@[k],
                        ),
                    forall|k: int, m: int, w: int|
                        #[trigger] graph_edge(*host, graph, k, m, w) ==> graph_of@[
                            graph_edge_target(*host, graph, k, m, w)] is Some,
                    forall|idx: int|
                        0 <= idx < pos && spec_is_processable_path((#[trigger] entries[idx])@)
                            ==> delivered(deliveries@, entries[idx]@) || (exists|j: int|
                            0 <= j < n && (#[trigger] host.files@[j]).path@ == entries[idx]@
                                && seen@[j]),
                    forall|j: int|
                        0 <= j < n && (#[trigger] seen@[j]) && entryf@[j]
                            && spec_is_processable_path(host.files@[j].path@) ==> lintedv@[j]
                            || in_indices(pending@, j),
                    forall|j: int|
                        0 <= j < n && (#[trigger] lintedv@[j]) ==> graph_of@[j] is Some,
                    self.allocator_pool.wf(),
                    self.allocator_pool.outstanding@ == pool0.outstanding@,
                    self.allocator_pool.created() <= pool0.created() + 1,
                    self.allocator_pool.allocators@.len() > 0 || self.allocator_pool.created()
                        <= pool0.created(),
                decreases entries.len() - pos,
            {
                let p = &order[pos];
                let ghost pv = p@;
                let ghost rdh = reads@;
                let ghost seenh = seen@;
                proof {
                    assert(forall|idx: int|
                        0 <= idx < pos ==> (#[trigger] entries[idx])@ != pv);
                }
                if is_processable_path(p) {
                    let found = find_file(host, p);
                    match found {
                        Option::None => {
                            let guard = self.allocator_pool.get();
                            self.allocator_pool.add(guard);
                            proof {
                                assert(self.allocator_pool.outstanding@ =~= pool0.outstanding@);
                            }
                            let ghost rd0 = reads@;
                            reads.push(p.clone());
                            proof {
                                if !delivered(deliveries@, pv) {
                                } else {
                                    let k = choose|k: int|
                                        0 <= k < deliveries@.len() && (
                                        #[trigger] deliveries@[k]).path@ == pv;
                                    assert(in_paths_prefix(entries, pos as int, pv));
                                    assert(false);
                                }
                                assert forall|k: int|
                                    0 <= k < reads@.len() implies linted_or_mapped(
                                    *host,
                                    graph_of@,
                                    (#[trigger] reads@[k])@,
                                ) || (!spec_has_file(*host, reads@[k]@) && in_paths_prefix(
                                    entries,
                                    pos + 1,
                                    reads@[k]@,
                                )) by {
                                    if k < rd0.len() {
                                        assert(reads@[k] == rd0[k]);
                                        if !linted_or_mapped(*host, graph_of@, reads@[k]@) {
                                            let q = choose|q: int|
                                                0 <= q < pos && (#[trigger] entries[q])@
                                                    == rd0[k]@;
                                            assert(entries[q]@ == reads@[k]@);
                                        }
                                    } else {
                                        assert(reads@[k]@ == pv);
                                        assert(entries[pos as int]@ == pv);
                                    }
                                }
                                assert forall|a: int, b: int|
                                    0 <= a < b < reads@.len() implies (#[trigger] reads@[a])@
                                    != (#[trigger] reads@[b])@ by {
                                    if b < rd0.len() {
                                        assert(reads@[a] == rd0[a] && reads@[b] == rd0[b]);
                                    } else {
                                        assert(reads@[a] == rd0[a]);
                                        assert(reads@[b]@ == pv);
                                        if rd0[a]@ == pv {
                                            assert(linted_or_mapped(*host, graph_of@, rd0[a]@)
                                                || (!spec_has_file(*host, rd0[a]@)
                                                && in_paths_prefix(entries, pos as int, rd0[a]@)));
                                            if linted_or_mapped(*host, graph_of@, rd0[a]@) {
                                                let j = choose|j: int|
                                                    0 <= j < graph_of@.len() && (
                                                    #[trigger] graph_of@[j]) is Some
                                                        && host.files@[j].path@ == rd0[a]@;
                                                assert(spec_has_file(*host, pv));
                                            } else {
                                                assert(in_paths_prefix(
                                                    entries,
                                                    pos as int,
                                                    pv,
                                                ));
                                            }
                                            assert(false);
                                        }
                                    }
                                }
                            }
                            deliver_missing(
                                host,
                                Ghost(entries),
                                fix,
                                p,
                                &mut deliveries,
                                &writes,
                                &retained,
                                &lintedv,
                            );
                            proof {
                                assert forall|k: int|
                                    0 <= k < deliveries@.len() && !spec_has_file(
                                    *host,
                                    (#[trigger] deliveries@[k]).path@,
                                ) implies in_paths_prefix(
                                    entries,
                                    pos + 1,
                                    deliveries@[k].path@,
                                ) && in_paths(reads@, deliveries@[k].path@) by {
                                    if k < deliveries@.len() - 1 {
                                        assert(deliveries@[k] == deliveries@.drop_last()[k]);
                                        let q = choose|q: int|
                                            0 <= q < pos && (#[trigger] entries[q])@
                                                == deliveries@[k].path@;
                                        assert(entries[q]@ == deliveries@[k].path@);
                                        let q2 = choose|q2: int|
                                            0 <= q2 < rd0.len() && (#[trigger] rd0[q2])@
                                                == deliveries@[k].path@;
                                        assert(reads@[q2]@ == deliveries@[k].path@);
                                    } else {
                                        assert(deliveries@[k].path@ == pv);
                                        assert(entries[pos as int]@ == pv);
                                        assert(reads@[reads@.len() - 1]@ == pv);
                                    }
                                }
                                assert(delivered(deliveries@, pv)) by {
                                    assert(deliveries@[deliveries@.len() - 1].path@ == pv);
                                }
                            }
                        },
                        Option::Some(i) => {
                            proof {
                                assert(host.files@[i as int].path@ == pv);
                            }
                            if !seen[i] {
                                let ghost pen0 = pending@;
                                let ghost seen0 = seen@;
                                seen.set(i, true);
                                pending.push(i);
                                proof {
                                    assert forall|j: int|
                                        0 <= j < n implies ((#[trigger] seen@[j]) <==> ((
                                    graph_of@[j]) is Some || in_indices(pending@, j))) by {
                                        if j == i {
                                            assert(pending@[pending@.len() - 1] == i);
                                        } else {
                                            if seen@[j] && !(graph_of@[j] is Some) {
                                                let q = choose|q: int|
                                                    0 <= q < pen0.len() && (
                                                    #[trigger] pen0[q]) as int == j;
                                                assert(pending@[q] as int == j);
                                            }
                                            if in_indices(pending@, j) && !seen@[j] {
                                                let q = choose|q: int|
                                                    0 <= q < pending@.len() && (
                                                    #[trigger] pending@[q]) as int == j;
                                                assert(q < pen0.len());
                                                assert(false);
                                            }
                                        }
                                    }
                                    assert forall|j: int|
                                        0 <= j < n && (#[trigger] seen@[j]) && entryf@[j]
                                            && spec_is_processable_path(host.files@[j].path@)
                                            implies lintedv@[j] || in_indices(pending@, j) by {
                                        if j == i {
                                            assert(pending@[pending@.len() - 1] == i);
                                        } else if seen0[j] {
                                            if !lintedv@[j] {
                                                let q = choose|q: int|
                                                    0 <= q < pen0.len() && (
                                                    #[trigger] pen0[q]) as int == j;
                                                assert(pending@[q] as int == j);
                                            }
                                        }
                                    }
                                }
                            }
                            proof {
                                assert(seen@[i as int]);
                            }
                        },
                    }
                }
                proof {
                    assert(forall|j: int| 0 <= j < n && seenh[j] ==> (#[trigger] seen@[j]));
                    assert forall|idx: int|
                        0 <= idx < pos + 1 && spec_is_processable_path((
                    #[trigger] entries[idx])@) implies delivered(deliveries@, entries[idx]@) || (
                    exists|j: int|
                        0 <= j < n && (#[trigger] host.files@[j]).path@ == entries[idx]@
                            && seen@[j]) by {
                        if idx < pos {
                            if !delivered(deliveries@, entries[idx]@) {
                                let j = choose|j: int|
                                    0 <= j < n && (#[trigger] host.files@[j]).path@
                                        == entries[idx]@ && seen@[j];
                                assert(host.files@[j].path@ == entries[idx]@ && seen@[j]);
                            }
                        } else {
                            assert(entries[idx]@ == pv);
                        }
                    }
                    assert forall|k: int|
                        0 <= k < reads@.len() implies spec_is_processable_path((
                    #[trigger] reads@[k])@) by {
                        if k < rdh.len() {
                            assert(reads@[k] == rdh[k]);
                        } else {
                            assert(reads@[k]@ == pv);
                        }
                    }
                    assert forall|j: int|
                        0 <= j < n && (#[trigger] graph_of@[j]) is Some implies in_paths(
                        reads@,
                        host.files@[j].path@,
                    ) by {
                        let k = choose|k: int|
                            0 <= k < rdh.len() && (#[trigger] rdh[k])@ == host.files@[j].path@;
                        assert(reads@[k]@ == host.files@[j].path@);
                    }
                }
                budget = budget + 1;
                pos = pos + 1;
            }
            // step 2: parse the wave, discovering dependencies into the
            // same wave, until nothing is in flight
            while pending.len() > 0
                invariant
                    n == host.files@.len(),
                    self.paths == old(self).paths,
                    self.linter == old(self).linter,
                    self.cwd == old(self).cwd,
                    self.cross_module == old(self).cross_module,
                    self.tsconfig == old(self).tsconfig,
                    self.thread_count == old(self).thread_count,
                    fix == !old(self).linter.options.fix.is_none_spec(),
                    entryf@.len() == n,
                    forall|i: int|
                        0 <= i < n ==> (#[trigger] entryf@[i]) == in_paths(
                            entries,
                            host.files@[i].path@,
                        ),
                    lintedv@.len() == n,
                    pos <= entries.len(),
                    0 <= wave_start <= graph.entries@.len(),
                    wave_links@.len() == graph.entries@.len() - wave_start,
                    forall|t: int|
                        0 <= t < wave_links@.len() ==> (#[trigger] wave_links@[t]).0 == wave_start
                            + t && wave_links@[t].1 < n && graph.entries@[wave_start + t].path@
                            == host.files@[wave_links@[t].1 as int].path@,
                    graph_inv(*host, graph, graph_of@, seen@, pending@),
                    lists_inv(*host, entries, fix, deliveries@, writes@, retained@, lintedv@),
                    forall|k: int|
                        0 <= k < deliveries@.len() && !spec_has_file(
                            *host,
                            (#[trigger] deliveries@[k]).path@,
                        ) ==> in_paths_prefix(entries, pos as int, deliveries@[k].path@)
                            && in_paths(reads@, deliveries@[k].path@),
                    forall|a: int, b: int|
                        0 <= a < b < reads@.len() ==> (#[trigger] reads@[a])@ != (
                        #[trigger] reads@[b])@,
                    forall|k: int|
                        0 <= k < reads@.len() ==> linted_or_mapped(
                            *host,
                            graph_of@,
                            (#[trigger] reads@[k])@,
                        ) || (!spec_has_file(*host, reads@[k]@) && in_paths_prefix(
                            entries,
                            pos as int,
                            reads@[k]@,
                        )),
                    forall|k: int|
                        0 <= k < reads@.len() ==> spec_is_processable_path(
                            (#[trigger] reads@[k])@,
                        ),
                    forall|j: int|
                        0 <= j < n && (#[trigger] graph_of@[j]) is Some ==> in_paths(
                            reads@,
                            host.files@[j].path@,
                        ),
                    forall|k: int|
                        0 <= k < wave_start ==> entry_linked(
                            *host,
                            graph,
                            #[trigger] graph.entries@[k],
                        ),
                    forall|k: int|
                        wave_start <= k < graph.entries@.len() ==> record_tables_empty(
                            #[trigger] graph.entries@[k],
                        ),
                    forall|k: int, m: int, w: int|
                        #[trigger] graph_edge(*host, graph, k, m, w) ==> (k < wave_start
                            ==> graph_of@[graph_edge_target(*host, graph, k, m, w)] is Some)
                            && seen@[graph_edge_target(*host, graph, k, m, w)],
                    forall|idx: int|
                        0 <= idx < pos && spec_is_processable_path((#[trigger] entries[idx])@)
                            ==> delivered(deliveries@, entries[idx]@) || (exists|j: int|
                            0 <= j < n && (#[trigger] host.files@[j]).path@ == entries[idx]@
                                && seen@[j]),
                    forall|j: int|
                        0 <= j < n && (#[trigger] seen@[j]) && entryf@[j]
                            && spec_is_processable_path(host.files@[j].path@) ==> lintedv@[j]
                            || in_indices(pending@, j) || in_indices(wave_lints@, j),
                    forall|a: int, b: int|
                        0 <= a < b < wave_lints@.len() ==> (#[trigger] wave_lints@[a]) != (
                        #[trigger] wave_lints@[b]),
                    forall|t: int|
                        0 <= t < wave_lints@.len() ==> (#[trigger] wave_lints@[t]) < n
                            && entryf@[wave_lints@[t] as int] && spec_is_processable_path(
                            host.files@[wave_lints@[t] as int].path@,
                        ) && host.files@[wave_lints@[t] as int].readable
                            && !lintedv@[wave_lints@[t] as int] && graph_of@[
                            wave_lints@[t] as int] is Some,
                    forall|j: int|
                        0 <= j < n && (#[trigger] lintedv@[j]) ==> graph_of@[j] is Some,
                    self.allocator_pool.wf(),
                    self.allocator_pool.outstanding@ == pool0.outstanding@,
                    self.allocator_pool.created() <= pool0.created() + 1,
                    self.allocator_pool.allocators@.len() > 0 || self.allocator_pool.created()
                        <= pool0.created(),
                decreases 2 * count_false(seen@) + pending@.len(),
            {
                let ghost pen0 = pending@;
                let ghost dlh = deliveries@;
                let i = pending.pop().unwrap();
                proof {
                    assert(pen0 =~= pending@.push(i));
                    assert(pen0.drop_last() =~= pending@);
                    assert(pen0[pen0.len() - 1] == i);
                    assert(in_indices(pen0, i as int));
                    assert(i < n && seen@[i as int] && graph_of@[i as int] is None
                        && spec_is_processable_path(host.files@[i as int].path@));
                    assert(!in_indices(pending@, i as int)) by {
                        if in_indices(pending@, i as int) {
                            let q = choose|q: int|
                                0 <= q < pending@.len() && (#[trigger] pending@[q]) as int
                                    == i as int;
                            assert(pen0[q] == pen0[pen0.len() - 1]);
                            assert(false);
                        }
                    }
                    assert forall|j: int|
                        0 <= j < n && j != i as int implies ((#[trigger] seen@[j]) <==> ((
                    graph_of@[j]) is Some || in_indices(pending@, j))) by {
                        if seen@[j] && !(graph_of@[j] is Some) {
                            let q = choose|q: int|
                                0 <= q < pen0.len() && (#[trigger] pen0[q]) as int == j;
                            assert(q < pen0.len() - 1);
                            assert(pending@[q] as int == j);
                        }
                        if in_indices(pending@, j) {
                            let q = choose|q: int|
                                0 <= q < pending@.len() && (#[trigger] pending@[q]) as int == j;
                            assert(pen0[q] as int == j);
                        }
                    }
                    assert(!lintedv@[i as int]);
                }
                let ghost measure0 = 2 * count_false(seen@) + pen0.len();
                let guard = self.allocator_pool.get();
                self.allocator_pool.add(guard);
                proof {
                    assert(self.allocator_pool.outstanding@ =~= pool0.outstanding@);
                }
                let ghost rd0 = reads@;
                reads.push(host.files[i].path.clone());
                let ghost seen_pre = seen@;
                let ghost pen_pre = pending@;
                if host.files[i].readable {
                    enqueue_deps(host, i, &mut seen, &mut pending, &graph_of, Ghost(i as int));
                }
                let records = if host.files[i].readable {
                    build_records(&host.files[i])
                } else {
                    Vec::new()
                };
                let gidx = graph.entries.len();
                let ghost gpre = graph;
                let ghost go0 = graph_of@;
                graph.entries.push(GraphEntry { path: host.files[i].path.clone(), records });
                graph_of.set(i, Some(gidx));
                wave_links.push((gidx, i));
                let ghost wl0 = wave_lints@;
                proof {
                    lemma_file_of_index(*host, i as int);
                    let ghost pv = host.files@[i as int].path@;
                    // the new path is fresh in the graph
                    assert forall|k: int|
                        0 <= k < gpre.entries@.len() implies (#[trigger] gpre.entries@[k]).path@
                        != pv by {
                        assert(slot_points_at(go0, *host, k));
                        let q = choose|q: int|
                            0 <= q < go0.len() && (#[trigger] go0[q]) == Some(k as usize);
                        assert(gpre.entries@[k].path@ == host.files@[q].path@);
                        if host.files@[q].path@ == pv {
                            crate::host::lemma_path_determines_index(*host, q, i as int);
                            assert(false);
                        }
                    }
                    // the host-to-graph map stays sound and keeps its slots
                    assert forall|j: int|
                        0 <= j < graph_of@.len() && (#[trigger] graph_of@[j]) is Some implies
                        graph_of@[j]->0 < graph.entries@.len() && graph.entries@[
                        graph_of@[j]->0 as int].path@ == host.files@[j].path@ by {
                        if j == i as int {
                        } else {
                            assert(graph_of@[j] == go0[j]);
                        }
                    }
                    assert forall|k: int|
                        0 <= k < graph.entries@.len() implies slot_points_at(
                        graph_of@,
                        *host,
                        k,
                    ) by {
                        if k < gpre.entries@.len() {
                            assert(slot_points_at(go0, *host, k));
                            let q = choose|q: int|
                                0 <= q < go0.len() && (#[trigger] go0[q]) == Some(k as usize);
                            assert(q != i as int);
                            assert(graph_of@[q] == Some(k as usize));
                        } else {
                            assert(graph_of@[i as int] == Some(k as usize));
                        }
                    }
                    // records of the new entry have the right shape, and its
                    // tables are still unwritten
                    assert(records_shape_ok(*host, graph.entries@[gidx as int]));
                    assert(record_tables_empty(graph.entries@[gidx as int]));
                    // previously linked entries stay linked across the append
                    assert forall|k: int|
                        0 <= k < wave_start implies entry_linked(
                        *host,
                        graph,
                        #[trigger] graph.entries@[k],
                    ) by {
                        assert(graph.entries@[k] == gpre.entries@[k]);
                        let e = gpre.entries@[k];
                        let f = spec_file_of(*host, e.path@);
                        lemma_parsed_sections_sub(f.sections@);
                        assert forall|m: int|
                            0 <= m < e.records@.len() implies loaded_views(
                            (#[trigger] e.records@[m]).loaded@,
                        ) == spec_loaded_of(
                            *host,
                            graph,
                            parsed_sections(f.sections@)[m].imports@,
                        ) by {
                            let imports = parsed_sections(f.sections@)[m].imports@;
                            assert(is_parsed_section_of(
                                f.sections@,
                                parsed_sections(f.sections@)[m],
                            ));
                            let j2 = choose|j2: int|
                                0 <= j2 < f.sections@.len() && (#[trigger] f.sections@[j2])
                                    == parsed_sections(f.sections@)[m] && parsed_sections(
                                    f.sections@,
                                )[m].parse_errors@.len() == 0;
                            let fidx = spec_idx_of(*host, e.path@);
                            assert(host.files@[fidx] == f);
                            assert forall|w: int|
                                0 <= w < imports.len() && (#[trigger] imports[w]).resolved is Some
                                implies imports[w].resolved->0 < host.files@.len() by {
                                assert(host.files@[fidx].sections@[j2].imports@[w].resolved
                                    == imports[w].resolved);
                            }
                            assert forall|w: int|
                                0 <= w < imports.len() && (#[trigger] imports[w]).resolved is Some
                                    && host.files@[(imports[w].resolved->0) as int].path@ == pv
                                implies spec_graph_has(
                                gpre,
                                host.files@[(imports[w].resolved->0) as int].path@,
                            ) by {
                                let d = (imports[w].resolved->0) as int;
                                crate::host::lemma_path_determines_index(*host, d, i as int);
                                assert(d == i as int);
                                assert(graph_edge(*host, gpre, k, j2, w));
                                assert(go0[graph_edge_target(*host, gpre, k, j2, w)] is Some);
                                assert(false);
                            }
                            lemma_loaded_grow(*host, gpre, graph, imports);
                        }
                    }
                    // dependency edges of every entry lead to encountered
                    // files, and for linked entries to mapped files
                    assert forall|k: int, m: int, w: int|
                        #[trigger] graph_edge(*host, graph, k, m, w) implies (k < wave_start
                        ==> graph_of@[graph_edge_target(*host, graph, k, m, w)] is Some)
                        && seen@[graph_edge_target(*host, graph, k, m, w)] by {
                        if k < gpre.entries@.len() {
                            assert(graph.entries@[k] == gpre.entries@[k]);
                            assert(graph_edge(*host, gpre, k, m, w));
                            assert(seen_pre[graph_edge_target(*host, gpre, k, m, w)]
                                || seen@[graph_edge_target(*host, gpre, k, m, w)]);
                            if k < wave_start {
                                assert(go0[graph_edge_target(*host, gpre, k, m, w)] is Some);
                            }
                        } else {
                            assert(k == gidx as int);
                            assert(graph.entries@[k].path@ == pv);
                            assert(spec_file_of(*host, pv) == host.files@[i as int]);
                            assert(file_edge(*host, i as int, m, w));
                            assert(seen@[file_edge_target(*host, i as int, m, w)]);
                        }
                    }
                    // every index the map sends to the graph keeps doing so
                    assert forall|k: int|
                        0 <= k < reads@.len() implies linted_or_mapped(
                        *host,
                        graph_of@,
                        (#[trigger] reads@[k])@,
                    ) || (!spec_has_file(*host, reads@[k]@) && in_paths_prefix(
                        entries,
                        pos as int,
                        reads@[k]@,
                    )) by {
                        if k < rd0.len() {
                            assert(reads@[k] == rd0[k]);
                            if linted_or_mapped(*host, go0, rd0[k]@) {
                                let q = choose|q: int|
                                    0 <= q < go0.len() && (#[trigger] go0[q]) is Some
                                        && host.files@[q].path@ == rd0[k]@;
                                assert(q != i as int);
                                assert(graph_of@[q] is Some);
                                assert(linted_or_mapped(*host, graph_of@, reads@[k]@));
                            }
                        } else {
                            assert(reads@[k]@ == pv);
                            assert(graph_of@[i as int] is Some);
                            assert(linted_or_mapped(*host, graph_of@, pv));
                        }
                    }
                    assert forall|a: int, b: int|
                        0 <= a < b < reads@.len() implies (#[trigger] reads@[a])@ != (
                    #[trigger] reads@[b])@ by {
                        if b < rd0.len() {
                            assert(reads@[a] == rd0[a] && reads@[b] == rd0[b]);
                        } else {
                            assert(reads@[a] == rd0[a]);
                            assert(reads@[b]@ == pv);
                            if rd0[a]@ == pv {
                                if linted_or_mapped(*host, go0, rd0[a]@) {
                                    let q = choose|q: int|
                                        0 <= q < go0.len() && (#[trigger] go0[q]) is Some
                                            && host.files@[q].path@ == rd0[a]@;
                                    crate::host::lemma_path_determines_index(
                                        *host,
                                        q,
                                        i as int,
                                    );
                                    assert(false);
                                } else {
                                    assert(spec_has_file(*host, pv));
                                    assert(false);
                                }
                            }
                        }
                    }
                }
                if entryf[i] {
                    if host.files[i].readable {
                        wave_lints.push(i);
                        proof {
                            assert(wave_lints@.drop_last() =~= wl0);
                            assert(wave_lints@.last() == i);
                            assert forall|a: int, b: int|
                                0 <= a < b < wave_lints@.len() implies (
                            #[trigger] wave_lints@[a]) != (#[trigger] wave_lints@[b]) by {
                                if b < wl0.len() {
                                    assert(wave_lints@[a] == wl0[a]
                                        && wave_lints@[b] == wl0[b]);
                                } else {
                                    assert(wave_lints@[a] == wl0[a]);
                                    assert(go0[wl0[a] as int] is Some);
                                }
                            }
                        }
                    } else {
                        deliver_unreadable_entry(
                            &self.linter,
                            host,
                            Ghost(entries),
                            i,
                            fix,
                            &mut deliveries,
                            &writes,
                            &retained,
                            &mut lintedv,
                        );
                    }
                }
                proof {
                    let ghost pv = host.files@[i as int].path@;
                    // equivalence of encountered and mapped-or-queued,
                    // now including the file just parsed
                    assert forall|j: int|
                        0 <= j < n implies ((#[trigger] seen@[j]) <==> ((graph_of@[j]) is Some
                        || in_indices(pending@, j))) by {
                        if j == i as int {
                            assert(graph_of@[j] == Some(gidx));
                        } else {
                            assert(graph_of@[j] == go0[j]);
                        }
                    }
                    assert forall|k: int|
                        0 <= k < pending@.len() implies (#[trigger] pending@[k]) < n
                        && seen@[pending@[k] as int] && graph_of@[pending@[k] as int] is None
                        && spec_is_processable_path(host.files@[pending@[k] as int].path@) by {
                        assert(pending@[k] as int != i as int);
                        assert(graph_of@[pending@[k] as int] == go0[pending@[k] as int]);
                    }
                    // wave bookkeeping for the new entry
                    assert forall|t: int|
                        0 <= t < wave_links@.len() implies (#[trigger] wave_links@[t]).0
                        == wave_start + t && wave_links@[t].1 < n && graph.entries@[wave_start
                        + t].path@ == host.files@[wave_links@[t].1 as int].path@ by {
                        if t < wave_links@.len() - 1 {
                            assert(wave_links@[t] == wave_links@.drop_last()[t]);
                            assert(graph.entries@[wave_start + t] == gpre.entries@[wave_start
                                + t]);
                        }
                    }
                    // every staged or delivered duty is still accounted for
                    assert forall|j: int|
                        0 <= j < n && (#[trigger] seen@[j]) && entryf@[j]
                            && spec_is_processable_path(host.files@[j].path@) implies lintedv@[j]
                        || in_indices(pending@, j) || in_indices(wave_lints@, j) by {
                        if j == i as int {
                            if host.files@[i as int].readable {
                                if entryf@[j] {
                                    assert(wave_lints@.last() == i);
                                }
                            }
                        } else if seen_pre[j] {
                            if !lintedv@[j] && !(in_indices(wave_lints@, j)) {
                                if in_indices(wl0, j) {
                                    let q = choose|q: int|
                                        0 <= q < wl0.len() && (#[trigger] wl0[q]) as int == j;
                                    assert(wave_lints@[q] as int == j);
                                    assert(false);
                                }
                                assert(in_indices(pen_pre, j) || in_indices(pending@, j));
                                if in_indices(pen_pre, j) {
                                    let q = choose|q: int|
                                        0 <= q < pen_pre.len() && (#[trigger] pen_pre[q]) as int
                                            == j;
                                    assert(pending@.subrange(0, pen_pre.len() as int) =~= pen_pre
                                        || pending@ == pen_pre);
                                    assert(pending@[q] as int == j);
                                }
                            }
                        } else {
                            assert(in_indices(pending@, j));
                        }
                    }
                    assert forall|t: int|
                        0 <= t < wave_lints@.len() implies (#[trigger] wave_lints@[t]) < n
                        && entryf@[wave_lints@[t] as int] && spec_is_processable_path(
                        host.files@[wave_lints@[t] as int].path@,
                    ) && host.files@[wave_lints@[t] as int].readable && !lintedv@[
                    wave_lints@[t] as int] && graph_of@[wave_lints@[t] as int] is Some by {
                        if t < wl0.len() {
                            assert(wave_lints@[t] == wl0[t]);
                            assert(graph_of@[wl0[t] as int] == go0[wl0[t] as int]
                                || wl0[t] == i);
                        }
                    }
                    assert forall|j: int|
                        0 <= j < n && (#[trigger] lintedv@[j]) implies graph_of@[j] is Some by {
                        if j == i as int {
                        } else {
                            assert(graph_of@[j] == go0[j]);
                        }
                    }
                    // reads: the popped file was read once, everything
                    // mapped before stays read, and entry coverage keeps
                    assert(reads@[rd0.len() as int]@ == host.files@[i as int].path@);
                    assert forall|k: int|
                        0 <= k < reads@.len() implies spec_is_processable_path((
                    #[trigger] reads@[k])@) by {
                        if k < rd0.len() {
                            assert(reads@[k] == rd0[k]);
                        } else {
                            assert(reads@[k]@ == host.files@[i as int].path@);
                        }
                    }
                    assert forall|j: int|
                        0 <= j < n && (#[trigger] graph_of@[j]) is Some implies in_paths(
                        reads@,
                        host.files@[j].path@,
                    ) by {
                        if j == i as int {
                            assert(reads@[rd0.len() as int]@ == host.files@[j].path@);
                        } else {
                            assert(graph_of@[j] == go0[j]);
                            let k = choose|k: int|
                                0 <= k < rd0.len() && (#[trigger] rd0[k])@
                                    == host.files@[j].path@;
                            assert(reads@[k]@ == host.files@[j].path@);
                        }
                    }
                    assert(deliveries@ == dlh || deliveries@.drop_last() == dlh);
                    assert forall|k: int|
                        0 <= k < deliveries@.len() && !spec_has_file(
                        *host,
                        (#[trigger] deliveries@[k]).path@,
                    ) implies in_paths_prefix(entries, pos as int, deliveries@[k].path@)
                        && in_paths(reads@, deliveries@[k].path@) by {
                        if k < dlh.len() {
                            assert(deliveries@[k] == dlh[k]);
                            let q2 = choose|q2: int|
                                0 <= q2 < rd0.len() && (#[trigger] rd0[q2])@
                                    == deliveries@[k].path@;
                            assert(reads@[q2]@ == deliveries@[k].path@);
                        } else {
                            assert(deliveries@[k].path@ == pv);
                            assert(spec_has_file(*host, pv));
                        }
                    }
                    assert forall|idx: int|
                        0 <= idx < pos && spec_is_processable_path((#[trigger] entries[idx])@)
                        implies delivered(deliveries@, entries[idx]@) || (exists|j: int|
                        0 <= j < n && (#[trigger] host.files@[j]).path@ == entries[idx]@
                            && seen@[j]) by {
                        if delivered(dlh, entries[idx]@) {
                            let k = choose|k: int|
                                0 <= k < dlh.len() && (#[trigger] dlh[k]).path@ == entries[idx]@;
                            assert(deliveries@[k].path@ == entries[idx]@);
                        } else if !delivered(deliveries@, entries[idx]@) {
                            let j = choose|j: int|
                                0 <= j < n && (#[trigger] host.files@[j]).path@ == entries[idx]@
                                    && seen_pre[j];
                            assert(seen@[j]);
                        }
                    }
                    // the measure shrank: one file left the queue, and each
                    // discovery pairs a queue entry with a cleared flag
                    assert(2 * count_false(seen@) + pending@.len() < measure0);
                }
            }
            // step 3: the wave is complete; link every record it parsed
            let ghost glink = graph;
            link_wave(host, &mut graph, &wave_links, Ghost(wave_start));
            proof {
                assert(graph.entries@.len() == glink.entries@.len());
                assert forall|a: int, b: int|
                    0 <= a < b < graph.entries@.len() implies (#[trigger] graph.entries@[a]).path@
                    != (#[trigger] graph.entries@[b]).path@ by {
                    assert(graph.entries@[a].path@ == glink.entries@[a].path@);
                    assert(graph.entries@[b].path@ == glink.entries@[b].path@);
                }
                assert forall|k: int|
                    0 <= k < graph.entries@.len() implies spec_has_file(
                    *host,
                    (#[trigger] graph.entries@[k]).path@,
                ) && spec_is_processable_path(graph.entries@[k].path@) by {
                    assert(graph.entries@[k].path@ == glink.entries@[k].path@);
                }
                assert forall|j: int|
                    0 <= j < graph_of@.len() && (#[trigger] graph_of@[j]) is Some implies
                    graph_of@[j]->0 < graph.entries@.len() && graph.entries@[
                    graph_of@[j]->0 as int].path@ == host.files@[j].path@ by {
                    assert(graph.entries@[graph_of@[j]->0 as int].path@ == glink.entries@[
                        graph_of@[j]->0 as int].path@);
                }
                assert forall|k: int, m: int, w: int|
                    #[trigger] graph_edge(*host, graph, k, m, w) implies graph_of@[
                    graph_edge_target(*host, graph, k, m, w)] is Some by {
                    assert(graph.entries@[k].path@ == glink.entries@[k].path@);
                    assert(graph_edge(*host, glink, k, m, w));
                    assert(seen@[graph_edge_target(*host, glink, k, m, w)]);
                }
            }
            // step 4: lint the wave's entry files and retire their content
            let mut t: usize = 0;
            while t < wave_lints.len()
                invariant
                    t <= wave_lints@.len(),
                    n == host.files@.len(),
                    lintedv@.len() == n,
                    lists_inv(*host, entries, fix, deliveries@, writes@, retained@, lintedv@),
                    forall|k: int|
                        0 <= k < deliveries@.len() && !spec_has_file(
                            *host,
                            (#[trigger] deliveries@[k]).path@,
                        ) ==> in_paths_prefix(entries, pos as int, deliveries@[k].path@)
                            && in_paths(reads@, deliveries@[k].path@),
                    forall|t2: int|
                        0 <= t2 < wave_lints@.len() ==> (#[trigger] wave_lints@[t2]) < n
                            && entryf@[wave_lints@[t2] as int] && spec_is_processable_path(
                            host.files@[wave_lints@[t2] as int].path@,
                        ) && host.files@[wave_lints@[t2] as int].readable && graph_of@[
                            wave_lints@[t2] as int] is Some,
                    forall|t2: int|
                        t <= t2 < wave_lints@.len() ==> !lintedv@[(
                        #[trigger] wave_lints@[t2]) as int],
                    forall|a: int, b: int|
                        0 <= a < b < wave_lints@.len() ==> (#[trigger] wave_lints@[a]) != (
                        #[trigger] wave_lints@[b]),
                    forall|j: int|
                        0 <= j < n && (#[trigger] seen@[j]) && entryf@[j]
                            && spec_is_processable_path(host.files@[j].path@) ==> lintedv@[j]
                            || (exists|t2: int|
                            t <= t2 < wave_lints@.len() && (#[trigger] wave_lints@[t2]) as int
                                == j),
                    forall|j: int|
                        0 <= j < n && (#[trigger] lintedv@[j]) ==> graph_of@[j] is Some,
                    forall|idx: int|
                        0 <= idx < pos && spec_is_processable_path((#[trigger] entries[idx])@)
                            ==> delivered(deliveries@, entries[idx]@) || (exists|j: int|
                            0 <= j < n && (#[trigger] host.files@[j]).path@ == entries[idx]@
                                && seen@[j]),
                decreases wave_lints@.len() - t,
            {
                let i = wave_lints[t];
                proof {
                    assert(in_paths(entries, host.files@[i as int].path@));
                }
                let ghost linted0 = lintedv@;
                let ghost dlpre = deliveries@;
                lint_and_mark(
                    &self.linter,
                    host,
                    Ghost(entries),
                    i,
                    fix,
                    &mut deliveries,
                    &mut writes,
                    &mut retained,
                    &mut lintedv,
                );
                proof {
                    assert forall|k: int|
                        0 <= k < deliveries@.len() && !spec_has_file(
                        *host,
                        (#[trigger] deliveries@[k]).path@,
                    ) implies in_paths_prefix(entries, pos as int, deliveries@[k].path@)
                        && in_paths(reads@, deliveries@[k].path@) by {
                        if k < dlpre.len() {
                            assert(deliveries@[k] == dlpre[k]);
                        } else {
                            assert(deliveries@[k].path@ == host.files@[i as int].path@);
                            assert(spec_has_file(*host, deliveries@[k].path@)) by {
                                lemma_file_of_index(*host, i as int);
                            }
                        }
                    }
                    assert forall|j: int|
                        0 <= j < n && (#[trigger] seen@[j]) && entryf@[j]
                            && spec_is_processable_path(host.files@[j].path@) implies lintedv@[j]
                        || (exists|t2: int|
                        t + 1 <= t2 < wave_lints@.len() && (#[trigger] wave_lints@[t2]) as int
                            == j) by {
                        if !linted0[j] {
                            let t2 = choose|t2: int|
                                t <= t2 < wave_lints@.len() && (#[trigger] wave_lints@[t2]) as int
                                    == j;
                            if t2 == t {
                                assert(lintedv@[j]);
                            } else {
                                assert(t + 1 <= t2 < wave_lints@.len()
                                    && wave_lints@[t2] as int == j);
                            }
                        }
                    }
                    assert forall|t2: int|
                        t + 1 <= t2 < wave_lints@.len() implies !lintedv@[(
                    #[trigger] wave_lints@[t2]) as int] by {
                        assert(wave_lints@[t2] != wave_lints@[t as int]);
                    }
                    assert forall|idx: int|
                        0 <= idx < pos && spec_is_processable_path((#[trigger] entries[idx])@)
                        implies delivered(deliveries@, entries[idx]@) || (exists|j: int|
                        0 <= j < n && (#[trigger] host.files@[j]).path@ == entries[idx]@
                            && seen@[j]) by {
                        if delivered(dlpre, entries[idx]@) {
                            let k = choose|k: int|
                                0 <= k < dlpre.len() && (#[trigger] dlpre[k]).path@
                                    == entries[idx]@;
                            assert(deliveries@[k].path@ == entries[idx]@);
                        }
                    }
                }
                t = t + 1;
            }
            proof {
                // the wave is fully handled: every encountered entry file is
                // now linted, and nothing is pending
                assert(pending@.len() == 0);
                assert forall|j: int|
                    0 <= j < n && (#[trigger] seen@[j]) && entryf@[j]
                        && spec_is_processable_path(host.files@[j].path@) implies lintedv@[j] by {
                }
                assert(graph_inv(*host, graph, graph_of@, seen@, Seq::empty())) by {
                    assert forall|j: int|
                        0 <= j < n implies ((#[trigger] seen@[j]) <==> ((graph_of@[j]) is Some
                        || in_indices(Seq::<usize>::empty(), j))) by {
                        assert(!in_indices(Seq::<usize>::empty(), j));
                        assert(seen@[j] <==> (graph_of@[j] is Some || in_indices(pending@, j)));
                        if in_indices(pending@, j) {
                            let q = choose|q: int|
                                0 <= q < pending@.len() && (#[trigger] pending@[q]) as int == j;
                            assert(false);
                        }
                    }
                }
            }
        }
        let gn = graph.entries.len();
        proof {
            // assemble the run's promises from the loop's final state
            assert forall|idx: int|
                0 <= idx < entries.len() && entry_deliverable(*host, (#[trigger] entries[idx])@)
                implies delivered(deliveries@, entries[idx]@) by {
                if !delivered(deliveries@, entries[idx]@) {
                    let j = choose|j: int|
                        0 <= j < n && (#[trigger] host.files@[j]).path@ == entries[idx]@
                            && seen@[j];
                    assert(entryf@[j]) by {
                        assert(in_paths(entries, host.files@[j].path@));
                    }
                    assert(lintedv@[j]);
                    assert(delivered(deliveries@, host.files@[j].path@));
                    assert(false);
                }
            }
            if fix {
                assert forall|idx: int|
                    0 <= idx < entries.len() && entry_fixable(*host, (#[trigger] entries[idx])@)
                    implies written(writes@, entries[idx]@) by {
                    let p = entries[idx]@;
                    let j = spec_idx_of(*host, p);
                    assert(0 <= j < n && host.files@[j].path@ == p);
                    assert(entryf@[j]);
                    if delivered(deliveries@, p) {
                        let k = choose|k: int|
                            0 <= k < deliveries@.len() && (#[trigger] deliveries@[k]).path@ == p;
                        assert(linted_file_with_path(*host, lintedv@, p));
                        let j2 = choose|j2: int|
                            0 <= j2 < host.files@.len() && j2 < lintedv@.len() && (
                            #[trigger] host.files@[j2]).path@ == p && lintedv@[j2];
                        crate::host::lemma_path_determines_index(*host, j, j2);
                        assert(lintedv@[j]);
                    } else {
                        let j3 = choose|j3: int|
                            0 <= j3 < n && (#[trigger] host.files@[j3]).path@ == p && seen@[j3];
                        crate::host::lemma_path_determines_index(*host, j, j3);
                        assert(lintedv@[j]);
                    }
                    assert(written(writes@, p));
                }
            }
            assert forall|idx: int|
                0 <= idx < entries.len() && entry_retained(*host, (#[trigger] entries[idx])@)
                implies in_paths(retained@, entries[idx]@) by {
                let p = entries[idx]@;
                let j = spec_idx_of(*host, p);
                assert(0 <= j < n && host.files@[j].path@ == p);
                assert(entryf@[j]);
                if delivered(deliveries@, p) {
                    let k = choose|k: int|
                        0 <= k < deliveries@.len() && (#[trigger] deliveries@[k]).path@ == p;
                    assert(linted_file_with_path(*host, lintedv@, p));
                    let j2 = choose|j2: int|
                        0 <= j2 < host.files@.len() && j2 < lintedv@.len() && (
                        #[trigger] host.files@[j2]).path@ == p && lintedv@[j2];
                    crate::host::lemma_path_determines_index(*host, j, j2);
                    assert(lintedv@[j]);
                } else {
                    let j3 = choose|j3: int|
                        0 <= j3 < n && (#[trigger] host.files@[j3]).path@ == p && seen@[j3];
                    crate::host::lemma_path_determines_index(*host, j, j3);
                    assert(lintedv@[j]);
                }
                assert(in_paths(retained@, p));
            }
            assert(graph.entries@.len() <= usize::MAX) by {
                assert(graph.entries@.len() == gn as int);
            }
            lemma_reads_cover(
                *host,
                entries,
                deliveries@,
                reads@,
                lintedv@,
                seen@,
                graph_of@,
                graph,
            );
            // the graph's promises
            assert forall|idx: int|
                0 <= idx < entries.len() && spec_is_processable_path((#[trigger] entries[idx])@)
                    && spec_has_file(*host, entries[idx]@) implies spec_graph_has(
                graph,
                entries[idx]@,
            ) by {
                let p = entries[idx]@;
                let j = spec_idx_of(*host, p);
                assert(0 <= j < n && host.files@[j].path@ == p);
                assert(entryf@[j]);
                if delivered(deliveries@, p) {
                    let k = choose|k: int|
                        0 <= k < deliveries@.len() && (#[trigger] deliveries@[k]).path@ == p;
                    assert(linted_file_with_path(*host, lintedv@, p));
                    let j2 = choose|j2: int|
                        0 <= j2 < host.files@.len() && j2 < lintedv@.len() && (
                        #[trigger] host.files@[j2]).path@ == p && lintedv@[j2];
                    crate::host::lemma_path_determines_index(*host, j, j2);
                    assert(lintedv@[j]);
                } else {
                    let j3 = choose|j3: int|
                        0 <= j3 < n && (#[trigger] host.files@[j3]).path@ == p && seen@[j3];
                    crate::host::lemma_path_determines_index(*host, j, j3);
                    assert(lintedv@[j]);
                }
                assert(graph_of@[j] is Some);
                assert(graph.entries@[graph_of@[j]->0 as int].path@ == p);
            }
            assert forall|k: int, m: int, w: int|
                #[trigger] graph_edge(*host, graph, k, m, w) implies spec_graph_has(
                graph,
                host.files@[graph_edge_target(*host, graph, k, m, w)].path@,
            ) by {
                let d = graph_edge_target(*host, graph, k, m, w);
                assert(graph_of@[d] is Some);
                assert(graph.entries@[graph_of@[d]->0 as int].path@ == host.files@[d].path@);
            }
            assert forall|k: int|
                0 <= k < graph.entries@.len() implies graph_entry_records_ok(
                *host,
                graph,
                #[trigger] graph.entries@[k],
            ) by {
                assert(records_shape_ok(*host, graph.entries@[k]));
                assert(entry_linked(*host, graph, graph.entries@[k]));
            }
        }
        let arenas_created = self.allocator_pool.created_count();
        let outcome = RunOutcome {
            deliveries,
            writes,
            reads,
            retained,
            graph,
            arenas_created,
        };
        proof {
            // the wave order and the stored entries hold the same paths,
            // so the promises carry over to the stored entries
            assert forall|p: Seq<char>|
                #![trigger in_paths(entries, p)]
                #![trigger in_paths(old(self).paths@, p)]
                in_paths(entries, p) <==> in_paths(old(self).paths@, p) by {
                if in_paths(entries, p) {
                    assert(in_paths(order_src@, p));
                    let k = choose|k: int|
                        0 <= k < order_src@.len() && (#[trigger] order_src@[k])@ == p;
                    assert(self.paths@[k]@ == p);
                    assert(in_paths(old(self).paths@, p));
                }
                if in_paths(old(self).paths@, p) {
                    let k = choose|k: int|
                        0 <= k < self.paths@.len() && (#[trigger] self.paths@[k])@ == p;
                    assert(order_src@[k]@ == p);
                    assert(in_paths(order_src@, p));
                    assert(in_paths(entries, p));
                }
            }
            assert(run_post(*host, entries, fix, outcome));
            lemma_run_post_entries_equiv(*host, entries, old(self).paths@, fix, outcome);
            assert(graph_post(*host, entries, outcome.graph));
            lemma_graph_post_entries_equiv(*host, entries, old(self).paths@, outcome.graph);
        }
        outcome
    }
}

impl Runtime {
    /// Runs the pipeline over the world the host describes: the fast path
    /// when cross-module analysis is off, the wave-based graph path when it
    /// is on.  Either way the run owes every processable entry exactly one
    /// delivery, at most one write per fixed file, and retires exactly the
    /// readable entry files' content.
    pub fn run(&mut self, host: &Host) -> (o: RunOutcome)
        requires
            spec_host_wf(*host),
            old(self).wf(),
            old(self).allocator_pool.next_id < u32::MAX,
        ensures
            final(self).wf(),
            run_post(
                *host,
                old(self).paths@,
                !old(self).linter.options.fix.is_none_spec(),
                o,
            ),
            old(self).cross_module ==> graph_post(*host, old(self).paths@, o.graph),
            !old(self).cross_module ==> o.graph.entries@.len() == 0,
            final(self).paths == old(self).paths,
            final(self).linter == old(self).linter,
            final(self).cross_module == old(self).cross_module,
            final(self).thread_count == old(self).thread_count,
            final(self).allocator_pool.created() <= old(self).allocator_pool.created() + 1,
            o.arenas_created == final(self).allocator_pool.created(),
            forall|k: int|
                0 <= k < o.graph.entries@.len() ==> in_paths(
                    o.reads@,
                    (#[trigger] o.graph.entries@[k]).path@,
                ),
    {
        if self.cross_module {
            self.run_graph(host)
        } else {
            self.run_fast(host)
        }
    }
}

/// An outcome with nothing in it, for runs that stop before linting.
pub fn empty_outcome() -> (o: RunOutcome)
    ensures
        o.deliveries@.len() == 0,
        o.writes@.len() == 0,
        o.reads@.len() == 0,
        o.retained@.len() == 0,
        o.graph.entries@.len() == 0,
{
    RunOutcome {
        deliveries: Vec::new(),
        writes: Vec::new(),
        reads: Vec::new(),
        retained: Vec::new(),
        graph: ModuleGraph::new(),
        arenas_created: 0,
    }
}

/// A delivery for this path carrying exactly these diagnostics occurred.
pub open spec fn delivery_with(o: RunOutcome, p: Seq<char>, ds: Seq<(Seq<char>, bool)>) -> bool {
    exists|k: int|
        0 <= k < o.deliveries@.len() && (#[trigger] o.deliveries@[k]).path@ == p && diag_views(
            o.deliveries@[k].diagnostics@,
        ) == ds
}

/// Determinism of the diagnostic set: two runs over the same world whose
/// entry paths form the same set deliver exactly the same diagnostics for
/// exactly the same paths, whatever their entry order, wave size, worker
/// count or fix setting, and whichever of the two paths scheduled them.
/// Running twice over unchanged input therefore yields identical
/// diagnostics both times.
pub proof fn lemma_diagnostics_determined(
    h: Host,
    e1: Seq<String>,
    e2: Seq<String>,
    fix1: bool,
    fix2: bool,
    o1: RunOutcome,
    o2: RunOutcome,
)
    requires
        run_post(h, e1, fix1, o1),
        run_post(h, e2, fix2, o2),
        forall|p: Seq<char>| #[trigger] in_paths(e1, p) <==> in_paths(e2, p),
    ensures
        forall|p: Seq<char>, ds: Seq<(Seq<char>, bool)>| #[trigger]
            delivery_with(o1, p, ds) <==> delivery_with(o2, p, ds),
{
    assert forall|p: Seq<char>, ds: Seq<(Seq<char>, bool)>| #[trigger]
        delivery_with(o1, p, ds) implies delivery_with(o2, p, ds) by {
        let k = choose|k: int|
            0 <= k < o1.deliveries@.len() && (#[trigger] o1.deliveries@[k]).path@ == p
                && diag_views(o1.deliveries@[k].diagnostics@) == ds;
        assert(in_paths(e1, p) && entry_deliverable(h, p));
        assert(in_paths(e2, p));
        let i = choose|i: int| 0 <= i < e2.len() && (#[trigger] e2[i])@ == p;
        assert(delivered(o2.deliveries@, p));
        let k2 = choose|k2: int|
            0 <= k2 < o2.deliveries@.len() && (#[trigger] o2.deliveries@[k2]).path@ == p;
        assert(diag_views(o2.deliveries@[k2].diagnostics@) == spec_delivery_views(h, p));
    }
    assert forall|p: Seq<char>, ds: Seq<(Seq<char>, bool)>| #[trigger]
        delivery_with(o2, p, ds) implies delivery_with(o1, p, ds) by {
        let k = choose|k: int|
            0 <= k < o2.deliveries@.len() && (#[trigger] o2.deliveries@[k]).path@ == p
                && diag_views(o2.deliveries@[k].diagnostics@) == ds;
        assert(in_paths(e2, p) && entry_deliverable(h, p));
        assert(in_paths(e1, p));
        let i = choose|i: int| 0 <= i < e1.len() && (#[trigger] e1[i])@ == p;
        assert(delivered(o1.deliveries@, p));
        let k2 = choose|k2: int|
            0 <= k2 < o1.deliveries@.len() && (#[trigger] o1.deliveries@[k2]).path@ == p;
        assert(diag_views(o1.deliveries@[k2].diagnostics@) == spec_delivery_views(h, p));
    }
}

/// Single-write fix guarantee: a run writes any one file at most once, and
/// what it writes is the file's text with the fixes of all its sections
/// coalesced, a multi-section file included.
pub proof fn lemma_single_write(
    h: Host,
    entries: Seq<String>,
    fix: bool,
    o: RunOutcome,
    p: Seq<char>,
)
    requires
        run_post(h, entries, fix, o),
    ensures
        forall|k1: int, k2: int|
            0 <= k1 < o.writes@.len() && 0 <= k2 < o.writes@.len() && (
            #[trigger] o.writes@[k1]).path@ == p && (#[trigger] o.writes@[k2]).path@ == p
                ==> k1 == k2,
        forall|k: int|
            0 <= k < o.writes@.len() && (#[trigger] o.writes@[k]).path@ == p
                ==> o.writes@[k].content@ == spec_fixed_text(spec_file_of(h, p)),
{
    assert forall|k1: int, k2: int|
        0 <= k1 < o.writes@.len() && 0 <= k2 < o.writes@.len() && (
    #[trigger] o.writes@[k1]).path@ == p && (#[trigger] o.writes@[k2]).path@ == p implies k1
        == k2 by {
        if k1 < k2 {
            assert(o.writes@[k1].path@ != o.writes@[k2].path@);
        } else if k2 < k1 {
            assert(o.writes@[k2].path@ != o.writes@[k1].path@);
        }
    }
}

/// Memory retirement: only entry files' content is ever retained into the
/// lint stage, and only readable ones at that; a path pulled in purely as
/// a dependency never keeps source or semantic content past its wave, even
/// though its module record remains queryable in the graph.
pub proof fn lemma_memory_retirement(
    h: Host,
    entries: Seq<String>,
    fix: bool,
    o: RunOutcome,
    p: Seq<char>,
)
    requires
        run_post(h, entries, fix, o),
        !in_paths(entries, p) || !entry_retained(h, p),
    ensures
        !in_paths(o.retained@, p),
{
    if in_paths(o.retained@, p) {
        let k = choose|k: int| 0 <= k < o.retained@.len() && (#[trigger] o.retained@[k])@ == p;
        assert(in_paths(entries, p) && entry_retained(h, p));
        assert(false);
    }
}

/// Once a run has settled, every processable entry and every parsed
/// module has been read: a delivered entry was either read directly or
/// linted out of a mapped file, an encountered entry is mapped, and a
/// mapped file was read when its graph entry was made.
proof fn lemma_reads_cover(
    h: Host,
    entries: Seq<String>,
    dl: Seq<Delivery>,
    reads: Seq<String>,
    lintedv: Seq<bool>,
    seen: Seq<bool>,
    graph_of: Seq<Option<usize>>,
    g: ModuleGraph,
)
    requires
        spec_host_wf(h),
        lintedv.len() == h.files@.len(),
        seen.len() == h.files@.len(),
        graph_of.len() == h.files@.len(),
        forall|idx: int|
            0 <= idx < entries.len() && spec_is_processable_path((#[trigger] entries[idx])@)
                ==> delivered(dl, entries[idx]@) || (exists|j: int|
                0 <= j < h.files@.len() && (#[trigger] h.files@[j]).path@ == entries[idx]@
                    && seen[j]),
        forall|k: int|
            0 <= k < dl.len() && spec_has_file(h, (#[trigger] dl[k]).path@)
                ==> linted_file_with_path(h, lintedv, dl[k].path@),
        forall|k: int|
            0 <= k < dl.len() && !spec_has_file(h, (#[trigger] dl[k]).path@) ==> in_paths(
                reads,
                dl[k].path@,
            ),
        forall|j: int|
            0 <= j < h.files@.len() && (#[trigger] lintedv[j]) ==> graph_of[j] is Some,
        forall|j: int|
            0 <= j < h.files@.len() && (#[trigger] seen[j]) ==> graph_of[j] is Some,
        forall|j: int|
            0 <= j < h.files@.len() && (#[trigger] graph_of[j]) is Some ==> in_paths(
                reads,
                h.files@[j].path@,
            ),
        forall|j: int|
            0 <= j < graph_of.len() && (#[trigger] graph_of[j]) is Some ==> graph_of[j]->0
                < g.entries@.len() && g.entries@[graph_of[j]->0 as int].path@
                == h.files@[j].path@,
        forall|k: int| 0 <= k < g.entries@.len() ==> slot_points_at(graph_of, h, k),
        g.entries@.len() <= usize::MAX,
    ensures
        forall|idx: int|
            0 <= idx < entries.len() && spec_is_processable_path((#[trigger] entries[idx])@)
                ==> in_paths(reads, entries[idx]@),
        forall|k: int|
            0 <= k < g.entries@.len() ==> in_paths(reads, (#[trigger] g.entries@[k]).path@),
{
    assert forall|idx: int|
        0 <= idx < entries.len() && spec_is_processable_path((#[trigger] entries[idx])@)
        implies in_paths(reads, entries[idx]@) by {
        let p = entries[idx]@;
        if delivered(dl, p) {
            let k = choose|k: int| 0 <= k < dl.len() && (#[trigger] dl[k]).path@ == p;
            if spec_has_file(h, p) {
                assert(linted_file_with_path(h, lintedv, p));
                let j = choose|j: int|
                    0 <= j < h.files@.len() && j < lintedv.len() && (
                    #[trigger] h.files@[j]).path@ == p && lintedv[j];
                assert(graph_of[j] is Some);
                assert(in_paths(reads, h.files@[j].path@));
            } else {
                assert(in_paths(reads, p));
            }
        } else {
            let j = choose|j: int|
                0 <= j < h.files@.len() && (#[trigger] h.files@[j]).path@ == p && seen[j];
            assert(graph_of[j] is Some);
            assert(in_paths(reads, h.files@[j].path@));
        }
    }
    assert forall|k: int|
        0 <= k < g.entries@.len() implies in_paths(reads, (#[trigger] g.entries@[k]).path@) by {
        assert(slot_points_at(graph_of, h, k));
        let j = choose|j: int|
            0 <= j < graph_of.len() && (#[trigger] graph_of[j]) == Some(k as usize);
        assert(graph_of[j] is Some);
        assert(graph_of[j]->0 as int == k) by {
            assert(0 <= k <= usize::MAX);
        }
        assert(g.entries@[k].path@ == h.files@[j].path@);
        assert(in_paths(reads, h.files@[j].path@));
    }
}

/// A copy of a path list, element for element.
fn clone_paths(v: &Vec<String>) -> (out: Vec<String>)
    ensures
        out@.len() == v@.len(),
        forall|i: int| 0 <= i < v@.len() ==> (#[trigger] out@[i])@ == v@[i]@,
{
    let mut out: Vec<String> = Vec::new();
    let mut i: usize = 0;
    while i < v.len()
        invariant
            i <= v@.len(),
            out@.len() == i,
            forall|j: int| 0 <= j < i ==> (#[trigger] out@[j])@ == v@[j]@,
        decreases v@.len() - i,
    {
        out.push(v[i].clone());
        i = i + 1;
    }
    out
}

/// What a run promises depends on its entry paths only through their set:
/// two entry lists with the same members carry the same postcondition.
pub proof fn lemma_run_post_entries_equiv(
    h: Host,
    e1: Seq<String>,
    e2: Seq<String>,
    fix: bool,
    o: RunOutcome,
)
    requires
        run_post(h, e1, fix, o),
        forall|p: Seq<char>|
            #![trigger in_paths(e1, p)]
            #![trigger in_paths(e2, p)]
            in_paths(e1, p) <==> in_paths(e2, p),
    ensures
        run_post(h, e2, fix, o),
{
    assert forall|i: int|
        0 <= i < e2.len() && entry_deliverable(h, (#[trigger] e2[i])@) implies delivered(
        o.deliveries@,
        e2[i]@,
    ) && in_paths(o.reads@, e2[i]@) by {
        assert(in_paths(e2, e2[i]@));
        let j = choose|j: int| 0 <= j < e1.len() && (#[trigger] e1[j])@ == e2[i]@;
        assert(delivered(o.deliveries@, e1[j]@));
        assert(in_paths(o.reads@, e1[j]@));
    }
    if fix {
        assert forall|i: int|
            0 <= i < e2.len() && entry_fixable(h, (#[trigger] e2[i])@) implies written(
            o.writes@,
            e2[i]@,
        ) by {
            assert(in_paths(e2, e2[i]@));
            let j = choose|j: int| 0 <= j < e1.len() && (#[trigger] e1[j])@ == e2[i]@;
            assert(written(o.writes@, e1[j]@));
        }
    }
    assert forall|i: int|
        0 <= i < e2.len() && entry_retained(h, (#[trigger] e2[i])@) implies in_paths(
        o.retained@,
        e2[i]@,
    ) by {
        assert(in_paths(e2, e2[i]@));
        let j = choose|j: int| 0 <= j < e1.len() && (#[trigger] e1[j])@ == e2[i]@;
        assert(in_paths(o.retained@, e1[j]@));
    }
}

/// The graph's promises likewise depend on the entries only through their
/// set.
pub proof fn lemma_graph_post_entries_equiv(
    h: Host,
    e1: Seq<String>,
    e2: Seq<String>,
    g: ModuleGraph,
)
    requires
        graph_post(h, e1, g),
        forall|p: Seq<char>|
            #![trigger in_paths(e1, p)]
            #![trigger in_paths(e2, p)]
            in_paths(e1, p) <==> in_paths(e2, p),
    ensures
        graph_post(h, e2, g),
{
    assert forall|i: int|
        0 <= i < e2.len() && spec_is_processable_path((#[trigger] e2[i])@) && spec_has_file(
            h,
            e2[i]@,
        ) implies spec_graph_has(g, e2[i]@) by {
        assert(in_paths(e2, e2[i]@));
        let j = choose|j: int| 0 <= j < e1.len() && (#[trigger] e1[j])@ == e2[i]@;
        assert(spec_graph_has(g, e1[j]@));
    }
}

/// A graph entry none of whose dependency tables has been written yet.
pub open spec fn record_tables_empty(e: GraphEntry) -> bool {
    forall|m: int| 0 <= m < e.records@.len() ==> (#[trigger] e.records@[m]).loaded@.len() == 0
}

/// Some host file maps to a graph entry under this path.
pub open spec fn linted_or_mapped(h: Host, graph_of: Seq<Option<usize>>, p: Seq<char>) -> bool {
    exists|j: int|
        0 <= j < graph_of.len() && (#[trigger] graph_of[j]) is Some && h.files@[j].path@ == p
}

} // verus!
