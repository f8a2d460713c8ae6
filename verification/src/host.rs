//! The collaborators' answers as plain data.
//!
//! The scheduler consumes three black boxes: a file system, a parser with
//! its semantic analysis, and a rule engine with an import resolver.  A
//! [`Host`] records, for every path, what those collaborators answer: the
//! file's text, whether it can be read, its sections with their imports and
//! where each import resolves, the diagnostics of each section, and the fix
//! each section produces.  The scheduler is verified over every host, so
//! its guarantees hold whatever the collaborators answer.

use vstd::prelude::*;

verus! {

/// One diagnostic of the rule engine or the parser.
#[derive(Debug)]
pub struct Diagnostic {
    /// The message shown to the user.
    pub message: String,
    /// True for an error, false for a warning.
    pub severe: bool,
}

/// The view of one diagnostic: its message and severity.
pub open spec fn diag_view(d: Diagnostic) -> (Seq<char>, bool) {
    (d.message@, d.severe)
}

/// The views of a list of diagnostics.
pub open spec fn diag_views(ds: Seq<Diagnostic>) -> Seq<(Seq<char>, bool)> {
    ds.map_values(|d: Diagnostic| diag_view(d))
}

/// One rewrite the rule engine's fixes produce for a section: replace the
/// characters of `start..end` of the whole file by `replacement`.
#[derive(Debug)]
pub struct Edit {
    pub start: usize,
    pub end: usize,
    pub replacement: String,
}

/// One import of a section: the specifier as written, and the path the
/// resolver answers for it, if resolution succeeds.  A failed resolution
/// drops the dependency edge.
#[derive(Debug)]
pub struct HostImport {
    /// The specifier as it appears in the source.
    pub specifier: String,
    /// Index of the resolved file within the host, when resolution
    /// succeeds.
    pub resolved: Option<usize>,
}

/// What parsing, analysing and linting one section of a file yields.
#[derive(Debug)]
pub struct HostSection {
    /// The section's imports, with the resolver's answers.
    pub imports: Vec<HostImport>,
    /// The parser's or analyser's diagnostics; a non-empty list means the
    /// section failed and has no module record.
    pub parse_errors: Vec<Diagnostic>,
    /// The rule engine's diagnostics for the section.
    pub diagnostics: Vec<Diagnostic>,
    /// The rewrite the section's fixes coalesce into, if any.
    pub edit: Option<Edit>,
}

/// One file of the world the run sees.
#[derive(Debug)]
pub struct HostFile {
    /// The file's path.
    pub path: String,
    /// Whether reading the file succeeds.
    pub readable: bool,
    /// The file's text.
    pub content: String,
    /// The file's sections; plain scripts have one, framework files may
    /// have several.
    pub sections: Vec<HostSection>,
}

/// The world one run sees: every file with the collaborators' answers
/// about it.
#[derive(Debug)]
pub struct Host {
    pub files: Vec<HostFile>,
}

/// Whether the host holds a file under this path.
pub open spec fn spec_has_file(h: Host, p: Seq<char>) -> bool {
    exists|i: int| 0 <= i < h.files@.len() && (#[trigger] h.files@[i]).path@ == p
}

/// The index of the file under this path.
pub open spec fn spec_idx_of(h: Host, p: Seq<char>) -> int {
    choose|i: int| 0 <= i < h.files@.len() && (#[trigger] h.files@[i]).path@ == p
}

/// The file under this path.
pub open spec fn spec_file_of(h: Host, p: Seq<char>) -> HostFile {
    h.files@[spec_idx_of(h, p)]
}

/// The fixes of one file are well formed: each edit lies within the file's
/// text, and the edits of its sections are disjoint and in order.
pub open spec fn spec_file_edits_wf(f: HostFile) -> bool {
    &&& forall|j: int|
        0 <= j < f.sections@.len() && (#[trigger] f.sections@[j]).edit is Some
            ==> f.sections@[j].edit->0.start <= f.sections@[j].edit->0.end
            && f.sections@[j].edit->0.end <= f.content@.len()
    &&& forall|j: int, k: int|
        0 <= j < k < f.sections@.len() && (#[trigger] f.sections@[j]).edit is Some
            && (#[trigger] f.sections@[k]).edit is Some ==> f.sections@[j].edit->0.end
            <= f.sections@[k].edit->0.start
}

/// A host is well formed: paths are distinct, every resolved import points
/// at a file of the host, and every file's fixes are well formed.
pub open spec fn spec_host_wf(h: Host) -> bool {
    &&& forall|i: int, j: int|
        0 <= i < j < h.files@.len() ==> (#[trigger] h.files@[i]).path@ != (
        #[trigger] h.files@[j]).path@
    &&& forall|i: int, j: int, k: int|
        0 <= i < h.files@.len() && 0 <= j < h.files@[i].sections@.len() && 0 <= k
            < h.files@[i].sections@[j].imports@.len() && (
        #[trigger] h.files@[i].sections@[j].imports@[k]).resolved is Some
            ==> h.files@[i].sections@[j].imports@[k].resolved->0 < h.files@.len()
    &&& forall|i: int| 0 <= i < h.files@.len() ==> spec_file_edits_wf(#[trigger] h.files@[i])
}

/// Two files of a well-formed host with the same path are the same file.
pub proof fn lemma_path_determines_index(h: Host, i: int, j: int)
    requires
        spec_host_wf(h),
        0 <= i < h.files@.len(),
        0 <= j < h.files@.len(),
        h.files@[i].path@ == h.files@[j].path@,
    ensures
        i == j,
{
}

/// The file an index holds is the file its path finds.
pub proof fn lemma_file_of_index(h: Host, i: int)
    requires
        spec_host_wf(h),
        0 <= i < h.files@.len(),
    ensures
        spec_has_file(h, h.files@[i].path@),
        spec_idx_of(h, h.files@[i].path@) == i,
        spec_file_of(h, h.files@[i].path@) == h.files@[i],
{
    assert(spec_has_file(h, h.files@[i].path@));
    lemma_path_determines_index(h, i, spec_idx_of(h, h.files@[i].path@));
}

/// Finds the file under a path.
pub fn find_file(h: &Host, p: &String) -> (r: Option<usize>)
    ensures
        match r {
            Some(i) => i < h.files@.len() && h.files@[i as int].path@ == p@,
            None => !spec_has_file(*h, p@),
        },
{
    let mut i: usize = 0;
    while i < h.files.len()
        invariant
            i <= h.files@.len(),
            forall|j: int| 0 <= j < i ==> (#[trigger] h.files@[j]).path@ != p@,
        decreases h.files@.len() - i,
    {
        if h.files[i].path == *p {
            return Some(i);
        }
        i = i + 1;
    }
    None
}

/// The read-failure diagnostic of a path, as a view.
pub open spec fn read_error_view(p: Seq<char>) -> (Seq<char>, bool) {
    ("Failed to open file "@ + p, true)
}

/// Builds the read-failure diagnostic of a path.
pub fn read_error_diagnostic(p: &String) -> (d: Diagnostic)
    ensures
        diag_view(d) == read_error_view(p@),
{
    let mut message = "Failed to open file ".to_owned();
    message.append(p.as_str());
    Diagnostic { message, severe: true }
}

/// The parser diagnostics of a run of sections, in section order.
pub open spec fn parse_error_views_from(sections: Seq<HostSection>) -> Seq<(Seq<char>, bool)>
    decreases sections.len(),
{
    if sections.len() == 0 {
        Seq::empty()
    } else {
        parse_error_views_from(sections.drop_last()) + diag_views(sections.last().parse_errors@)
    }
}

/// The rule-engine diagnostics of a run of sections: the diagnostics of
/// every section that parsed, in section order.
pub open spec fn lint_views_from(sections: Seq<HostSection>) -> Seq<(Seq<char>, bool)>
    decreases sections.len(),
{
    if sections.len() == 0 {
        Seq::empty()
    } else {
        lint_views_from(sections.drop_last()) + if sections.last().parse_errors@.len() == 0 {
            diag_views(sections.last().diagnostics@)
        } else {
            Seq::empty()
        }
    }
}

/// What one delivery for a file reports: the read failure when the file
/// cannot be read, otherwise the parser diagnostics of its failed sections
/// followed by the rule engine's diagnostics of its parsed sections.
pub open spec fn spec_file_delivery_views(f: HostFile) -> Seq<(Seq<char>, bool)> {
    if !f.readable {
        seq![read_error_view(f.path@)]
    } else {
        parse_error_views_from(f.sections@) + lint_views_from(f.sections@)
    }
}

/// What one delivery for a path reports: a read failure for a path the
/// host has no file for, else what the file's delivery reports.
pub open spec fn spec_delivery_views(h: Host, p: Seq<char>) -> Seq<(Seq<char>, bool)> {
    if spec_has_file(h, p) {
        spec_file_delivery_views(spec_file_of(h, p))
    } else {
        seq![read_error_view(p)]
    }
}

/// Appends copies of the given diagnostics.
#[verifier::loop_isolation(false)]
pub fn copy_diags(dst: &mut Vec<Diagnostic>, src: &Vec<Diagnostic>)
    ensures
        diag_views(final(dst)@) == diag_views(old(dst)@) + diag_views(src@),
{
    let mut i: usize = 0;
    while i < src.len()
        invariant
            i <= src@.len(),
            diag_views(dst@) == diag_views(old(dst)@) + diag_views(src@.subrange(0, i as int)),
        decreases src@.len() - i,
    {
        let d = Diagnostic { message: src[i].message.clone(), severe: src[i].severe };
        proof {
            assert(diag_view(d) == diag_view(src@[i as int]));
        }
        let ghost pre = dst@;
        dst.push(d);
        proof {
            assert(src@.subrange(0, i + 1).drop_last() =~= src@.subrange(0, i as int));
            assert(diag_views(src@.subrange(0, i + 1))
                =~= diag_views(src@.subrange(0, i as int)).push(diag_view(src@[i as int])));
            assert(diag_views(dst@) =~= diag_views(pre).push(diag_view(d)));
            assert(diag_views(old(dst)@) + diag_views(src@.subrange(0, i as int)).push(
                diag_view(src@[i as int]),
            ) =~= (diag_views(old(dst)@) + diag_views(src@.subrange(0, i as int))).push(
                diag_view(src@[i as int]),
            ));
        }
        i = i + 1;
    }
    proof {
        assert(src@.subrange(0, src@.len() as int) =~= src@);
    }
}

/// What the whole file's text becomes once the edits of the sections from
/// index `from` of the text on are applied, working front to back.
pub open spec fn spec_apply_edits(text: Seq<char>, sections: Seq<HostSection>, from: int) -> Seq<
    char,
>
    decreases sections.len(),
{
    if sections.len() == 0 {
        text.subrange(from, text.len() as int)
    } else {
        match sections[0].edit {
            Option::None => spec_apply_edits(text, sections.drop_first(), from),
            Option::Some(e) => text.subrange(from, e.start as int) + e.replacement@
                + spec_apply_edits(text, sections.drop_first(), e.end as int),
        }
    }
}

/// The file's text with every section's fix applied.
pub open spec fn spec_fixed_text(f: HostFile) -> Seq<char> {
    spec_apply_edits(f.content@, f.sections@, 0)
}

/// Whether any section of the run produced a fix.
pub open spec fn spec_has_edit(sections: Seq<HostSection>) -> bool {
    exists|j: int| 0 <= j < sections.len() && (#[trigger] sections[j]).edit is Some
}

/// Whether any section of the file produced a fix.
pub fn has_edit(f: &HostFile) -> (r: bool)
    ensures
        r == spec_has_edit(f.sections@),
{
    let mut j: usize = 0;
    let mut found = false;
    while j < f.sections.len()
        invariant
            j <= f.sections@.len(),
            found == exists|k: int| 0 <= k < j && (#[trigger] f.sections@[k]).edit is Some,
        decreases f.sections@.len() - j,
    {
        if f.sections[j].edit.is_some() {
            found = true;
        }
        j = j + 1;
    }
    found
}

/// Coalesces the fixes of all sections of one file into a single rewritten
/// buffer, front to back, so that a multi-section file can be written at
/// most once.
#[verifier::loop_isolation(false)]
pub fn apply_fixes(f: &HostFile) -> (out: String)
    requires
        spec_file_edits_wf(*f),
    ensures
        out@ == spec_fixed_text(*f),
{
    let text = f.content.as_str();
    let n = text.unicode_len();
    let mut out = String::new();
    let mut from: usize = 0;
    let mut j: usize = 0;
    proof {
        assert(f.sections@.subrange(0, f.sections@.len() as int) =~= f.sections@);
    }
    while j < f.sections.len()
        invariant
            j <= f.sections@.len(),
            from <= n,
            forall|k: int|
                j <= k < f.sections@.len() && (#[trigger] f.sections@[k]).edit is Some
                    ==> from <= f.sections@[k].edit->0.start,
            spec_fixed_text(*f) == out@ + spec_apply_edits(
                text@,
                f.sections@.subrange(j as int, f.sections@.len() as int),
                from as int,
            ),
        decreases f.sections@.len() - j,
    {
        let ghost rest = f.sections@.subrange(j as int, f.sections@.len() as int);
        proof {
            assert(rest[0] == f.sections@[j as int]);
            assert(rest.drop_first() =~= f.sections@.subrange(
                j + 1,
                f.sections@.len() as int,
            ));
        }
        match &f.sections[j].edit {
            Option::None => {
            },
            Option::Some(e) => {
                let piece = text.substring_char(from, e.start);
                out.append(piece);
                out.append(e.replacement.as_str());
                from = e.end;
                proof {
                    assert(out@ + (text@.subrange(from as int, e.end as int)) =~= out@
                        + text@.subrange(from as int, e.end as int));
                }
            },
        }
        proof {
            assert(spec_fixed_text(*f) == out@ + spec_apply_edits(
                text@,
                f.sections@.subrange(j + 1, f.sections@.len() as int),
                from as int,
            ));
        }
        j = j + 1;
    }
    let tail = text.substring_char(from, n);
    out.append(tail);
    proof {
        assert(f.sections@.subrange(f.sections@.len() as int, f.sections@.len() as int).len()
            == 0);
    }
    out
}

} // verus!
