//! Selecting the files to lint from the paths the command names: which
//! entries under a root are wanted, and which ignore patterns exclude
//! them.  Reading directories from disk is left to the thin executable;
//! the decisions over the listed paths are verified here.

use vstd::prelude::*;
use crate::cli::IgnoreOptions;
use crate::textscan::{
    extension_of, has_min_marker, is_lintable_extension, spec_extension_of, spec_has_min_marker,
    spec_is_lintable_extension, spec_starts_with, str_starts_with,
};

verus! {

/// `q` is a suffix of `s`.
pub open spec fn spec_ends_with(s: Seq<char>, q: Seq<char>) -> bool {
    q.len() <= s.len() && forall|k: int|
        0 <= k < q.len() ==> s[s.len() - q.len() + k] == #[trigger] q[k]
}

/// Whether `s` ends with `q`.
#[verifier::loop_isolation(false)]
pub fn str_ends_with(s: &String, q: &String) -> (r: bool)
    ensures
        r == spec_ends_with(s@, q@),
{
    let st = s.as_str();
    let qt = q.as_str();
    let n = st.unicode_len();
    let m = qt.unicode_len();
    if m > n {
        return false;
    }
    let mut i: usize = 0;
    while i < m
        invariant
            i <= m,
            forall|k: int| 0 <= k < i ==> s@[s@.len() - q@.len() + k] == #[trigger] q@[k],
        decreases m - i,
    {
        if st.get_char(n - m + i) != qt.get_char(i) {
            proof {
                assert(s@[s@.len() - q@.len() + i] != q@[i as int]);
            }
            return false;
        }
        i = i + 1;
    }
    true
}

/// The file extensions a walk collects.
#[derive(Debug, Clone)]
pub struct Extensions(pub Vec<String>);

impl Extensions {
    /// The default set: every extension the linter handles.
    pub fn standard() -> (e: Extensions)
        ensures
            forall|x: Seq<char>| in_extensions(e, x) <==> spec_is_lintable_extension(x),
    {
        let list = vec![
            "js".to_owned(),
            "mjs".to_owned(),
            "cjs".to_owned(),
            "jsx".to_owned(),
            "ts".to_owned(),
            "mts".to_owned(),
            "cts".to_owned(),
            "tsx".to_owned(),
            "vue".to_owned(),
            "astro".to_owned(),
            "svelte".to_owned(),
        ];
        let e = Extensions(list);
        proof {
            assert forall|x: Seq<char>| in_extensions(e, x) implies spec_is_lintable_extension(
                x,
            ) by {
                let k = choose|k: int| 0 <= k < e.0@.len() && (#[trigger] e.0@[k])@ == x;
            }
            assert forall|x: Seq<char>| spec_is_lintable_extension(x) implies in_extensions(
                e,
                x,
            ) by {
                if x == "js"@ {
                    assert(e.0@[0]@ == x);
                } else if x == "mjs"@ {
                    assert(e.0@[1]@ == x);
                } else if x == "cjs"@ {
                    assert(e.0@[2]@ == x);
                } else if x == "jsx"@ {
                    assert(e.0@[3]@ == x);
                } else if x == "ts"@ {
                    assert(e.0@[4]@ == x);
                } else if x == "mts"@ {
                    assert(e.0@[5]@ == x);
                } else if x == "cts"@ {
                    assert(e.0@[6]@ == x);
                } else if x == "tsx"@ {
                    assert(e.0@[7]@ == x);
                } else if x == "vue"@ {
                    assert(e.0@[8]@ == x);
                } else if x == "astro"@ {
                    assert(e.0@[9]@ == x);
                } else {
                    assert(e.0@[10]@ == x);
                }
            }
        }
        e
    }
}

/// Whether an extension is in the walk's set.
pub open spec fn in_extensions(e: Extensions, x: Seq<char>) -> bool {
    exists|k: int| 0 <= k < e.0@.len() && (#[trigger] e.0@[k])@ == x
}

/// Whether the extension is in the set.
pub fn extensions_contain(e: &Extensions, x: &String) -> (r: bool)
    ensures
        r == in_extensions(*e, x@),
{
    let mut k: usize = 0;
    while k < e.0.len()
        invariant
            k <= e.0@.len(),
            forall|j: int| 0 <= j < k ==> (#[trigger] e.0@[j])@ != x@,
        decreases e.0@.len() - k,
    {
        if e.0[k] == *x {
            proof {
                assert(in_extensions(*e, x@));
            }
            return true;
        }
        k = k + 1;
    }
    false
}

/// A wanted entry: a file whose extension is in the walk's set and whose
/// name carries no minified-file marker.
pub open spec fn spec_is_wanted_entry(p: Seq<char>, e: Extensions) -> bool {
    &&& match spec_extension_of(p) {
        Some(x) => in_extensions(e, x),
        None => false,
    }
    &&& !spec_has_min_marker(p)
}

/// The walk over the paths the command names: the roots, the ignore
/// options, and the extensions to collect.
#[derive(Debug, Clone)]
pub struct Walk {
    /// The roots the walk starts from.
    pub paths: Vec<String>,
    /// Whether ignore rules are disregarded.
    pub no_ignore: bool,
    /// The extensions the walk collects.
    pub extensions: Extensions,
}

impl Walk {
    /// A walk over the given roots, honouring the ignore options and
    /// collecting the default extensions.  At least one root must be
    /// given.
    pub fn new(paths: Vec<String>, options: &IgnoreOptions) -> (w: Walk)
        requires
            paths@.len() > 0,
        ensures
            w.paths == paths,
            w.no_ignore == options.no_ignore,
            forall|x: Seq<char>|
                in_extensions(w.extensions, x) <==> spec_is_lintable_extension(x),
    {
        Walk { paths, no_ignore: options.no_ignore, extensions: Extensions::standard() }
    }

    /// The same walk collecting only the given extensions.
    pub fn with_extensions(self, extensions: Extensions) -> (w: Walk)
        ensures
            w.paths == self.paths,
            w.no_ignore == self.no_ignore,
            w.extensions == extensions,
    {
        let mut w = self;
        w.extensions = extensions;
        w
    }

    /// Whether a listed path is a file the walk wants.
    pub fn is_wanted_entry(path: &String, extensions: &Extensions) -> (r: bool)
        ensures
            r == spec_is_wanted_entry(path@, *extensions),
    {
        if has_min_marker(path) {
            return false;
        }
        match extension_of(path) {
            Option::Some(x) => extensions_contain(extensions, &x),
            Option::None => false,
        }
    }
}

/// A path lies under a root: it is the root itself, or the root followed
/// by a separator and more.
pub open spec fn spec_under_root(p: Seq<char>, root: Seq<char>) -> bool {
    p == root || spec_starts_with(p, root.push('/'))
}

/// Whether the path lies under the root.
pub fn under_root(p: &String, root: &String) -> (r: bool)
    ensures
        r == spec_under_root(p@, root@),
{
    if *p == *root {
        return true;
    }
    let mut prefix = root.clone();
    prefix.append("/");
    proof {
        reveal_strlit("/");
        assert(prefix@ =~= root@.push('/'));
    }
    str_starts_with(p, &prefix)
}

/// What an ignore pattern means here: a `**/*.` or `*.` pattern excludes
/// by suffix, any other pattern excludes the path itself and everything
/// under it.
pub open spec fn spec_pattern_matches(pat: Seq<char>, p: Seq<char>) -> bool {
    if pat.len() >= 5 && pat[0] == '*' && pat[1] == '*' && pat[2] == '/' && pat[3] == '*'
        && pat[4] == '.' {
        spec_ends_with(p, pat.subrange(4, pat.len() as int))
    } else if pat.len() >= 2 && pat[0] == '*' && pat[1] == '.' {
        spec_ends_with(p, pat.subrange(1, pat.len() as int))
    } else {
        spec_under_root(p, pat)
    }
}

/// Whether the ignore pattern excludes the path.
pub fn pattern_matches(pat: &String, p: &String) -> (r: bool)
    ensures
        r == spec_pattern_matches(pat@, p@),
{
    let t = pat.as_str();
    let n = t.unicode_len();
    if n >= 5 && t.get_char(0) == '*' && t.get_char(1) == '*' && t.get_char(2) == '/'
        && t.get_char(3) == '*' && t.get_char(4) == '.' {
        let suffix = t.substring_char(4, n).to_owned();
        str_ends_with(p, &suffix)
    } else if n >= 2 && t.get_char(0) == '*' && t.get_char(1) == '.' {
        let suffix = t.substring_char(1, n).to_owned();
        str_ends_with(p, &suffix)
    } else {
        under_root(p, pat)
    }
}

/// Whether any of the patterns excludes the path.
pub open spec fn spec_any_pattern_matches(pats: Seq<String>, p: Seq<char>) -> bool {
    exists|k: int| 0 <= k < pats.len() && spec_pattern_matches((#[trigger] pats[k])@, p)
}

/// Whether any of the ignore patterns excludes the path.
pub fn any_pattern_matches(pats: &Vec<String>, p: &String) -> (r: bool)
    ensures
        r == spec_any_pattern_matches(pats@, p@),
{
    let mut k: usize = 0;
    while k < pats.len()
        invariant
            k <= pats@.len(),
            forall|j: int| 0 <= j < k ==> !spec_pattern_matches((#[trigger] pats@[j])@, p@),
        decreases pats@.len() - k,
    {
        if pattern_matches(&pats[k], p) {
            proof {
                assert(spec_any_pattern_matches(pats@, p@));
            }
            return true;
        }
        k = k + 1;
    }
    false
}

/// Which of the listed paths the walk yields: every listed file under one
/// of the roots that is wanted and, unless ignoring is off, not excluded
/// by a pattern.
pub open spec fn spec_walk_yields(w: Walk, pats: Seq<String>, p: Seq<char>) -> bool {
    &&& exists|r: int| 0 <= r < w.paths@.len() && spec_under_root(p, (#[trigger] w.paths@[r])@)
    &&& spec_is_wanted_entry(p, w.extensions)
    &&& w.no_ignore || !spec_any_pattern_matches(pats, p)
}

/// Collects, from the listed paths, those the walk yields, each exactly
/// once.
#[verifier::loop_isolation(false)]
pub fn walk_listing(w: &Walk, pats: &Vec<String>, listing: &Vec<String>) -> (out: Vec<String>)
    requires
        forall|a: int, b: int|
            0 <= a < b < listing@.len() ==> (#[trigger] listing@[a])@ != (
            #[trigger] listing@[b])@,
    ensures
        forall|k: int|
            0 <= k < out@.len() ==> crate::runtime::in_paths(listing@, (#[trigger] out@[k])@),
        forall|k: int| 0 <= k < out@.len() ==> spec_walk_yields(*w, pats@, (#[trigger] out@[k])@),
        forall|t: int|
            0 <= t < listing@.len() && spec_walk_yields(*w, pats@, (#[trigger] listing@[t])@)
                ==> crate::runtime::in_paths(out@, listing@[t]@),
        forall|a: int, b: int|
            0 <= a < b < out@.len() ==> (#[trigger] out@[a])@ != (#[trigger] out@[b])@,
{
    let mut out: Vec<String> = Vec::new();
    let mut t: usize = 0;
    while t < listing.len()
        invariant
            t <= listing@.len(),
            forall|k: int|
                0 <= k < out@.len() ==> crate::runtime::in_paths_prefix(
                    listing@,
                    t as int,
                    (#[trigger] out@[k])@,
                ),
            forall|k: int|
                0 <= k < out@.len() ==> spec_walk_yields(*w, pats@, (#[trigger] out@[k])@),
            forall|t2: int|
                0 <= t2 < t && spec_walk_yields(*w, pats@, (#[trigger] listing@[t2])@)
                    ==> crate::runtime::in_paths(out@, listing@[t2]@),
            forall|a: int, b: int|
                0 <= a < b < out@.len() ==> (#[trigger] out@[a])@ != (#[trigger] out@[b])@,
        decreases listing@.len() - t,
    {
        let p = &listing[t];
        let mut matched = false;
        let mut r: usize = 0;
        while r < w.paths.len()
            invariant
                r <= w.paths@.len(),
                matched == exists|r2: int|
                    0 <= r2 < r && spec_under_root(p@, (#[trigger] w.paths@[r2])@),
            decreases w.paths@.len() - r,
        {
            if under_root(p, &w.paths[r]) {
                matched = true;
            }
            r = r + 1;
        }
        let wanted = Walk::is_wanted_entry(p, &w.extensions);
        let kept = if w.no_ignore {
            true
        } else {
            !any_pattern_matches(pats, p)
        };
        let ghost out0 = out@;
        if matched && wanted && kept {
            out.push(p.clone());
        }
        proof {
            assert forall|k: int|
                0 <= k < out@.len() implies crate::runtime::in_paths_prefix(
                listing@,
                t + 1,
                (#[trigger] out@[k])@,
            ) by {
                if k < out0.len() {
                    assert(out@[k] == out0[k]);
                    let t2 = choose|t2: int|
                        0 <= t2 < t && (#[trigger] listing@[t2])@ == out0[k]@;
                    assert(listing@[t2]@ == out@[k]@);
                } else {
                    assert(listing@[t as int]@ == out@[k]@);
                }
            }
            assert forall|a: int, b: int|
                0 <= a < b < out@.len() implies (#[trigger] out@[a])@ != (
            #[trigger] out@[b])@ by {
                if b < out0.len() {
                    assert(out@[a] == out0[a] && out@[b] == out0[b]);
                } else if out@.len() > out0.len() {
                    assert(out@[a] == out0[a]);
                    assert(out@[b]@ == listing@[t as int]@);
                    let t2 = choose|t2: int|
                        0 <= t2 < t && (#[trigger] listing@[t2])@ == out0[a]@;
                    assert(listing@[t2]@ != listing@[t as int]@);
                }
            }
            assert forall|t2: int|
                0 <= t2 < t + 1 && spec_walk_yields(*w, pats@, (#[trigger] listing@[t2])@)
                implies crate::runtime::in_paths(out@, listing@[t2]@) by {
                if t2 < t {
                    let k = choose|k: int|
                        0 <= k < out0.len() && (#[trigger] out0[k])@ == listing@[t2]@;
                    assert(out@[k]@ == listing@[t2]@);
                } else {
                    assert(out@[out@.len() - 1]@ == listing@[t2]@);
                }
            }
        }
        t = t + 1;
    }
    out
}

} // verus!
