//! Small verified scans over path and source text: path components,
//! extensions, prefixes, and the one token scan the demo rules need.

use vstd::prelude::*;

verus! {

/// A parent-directory component: `..` standing alone between separators or
/// string ends.
pub open spec fn spec_has_parent_component(s: Seq<char>) -> bool {
    exists|i: int|
        0 <= i && i + 2 <= s.len() && #[trigger] s[i] == '.' && s[i + 1] == '.' && (i == 0 || s[i
            - 1] == '/') && (i + 2 == s.len() || s[i + 2] == '/')
}

/// Whether the path contains a parent-directory component.
pub fn has_parent_component(s: &String) -> (r: bool)
    ensures
        r == spec_has_parent_component(s@),
{
    let text = s.as_str();
    let n = text.unicode_len();
    let mut i: usize = 0;
    let mut found = false;
    while i < n
        invariant
            n == text@.len(),
            i <= n,
            found == exists|k: int|
                0 <= k && k + 2 <= text@.len() && k < i && #[trigger] text@[k] == '.' && text@[k
                    + 1] == '.' && (k == 0 || text@[k - 1] == '/') && (k + 2 == text@.len()
                    || text@[k + 2] == '/'),
        decreases n - i,
    {
        if n - i >= 2 && text.get_char(i) == '.' && text.get_char(i + 1) == '.' && (i == 0
            || text.get_char(i - 1) == '/') && (i + 2 == n || text.get_char(i + 2) == '/') {
            found = true;
        }
        i = i + 1;
    }
    proof {
        if found {
            assert(spec_has_parent_component(s@));
        }
    }
    found
}

/// The last dot inside the file name, if the name has one that can start an
/// extension.
pub open spec fn spec_last_dot(s: Seq<char>) -> Option<int>
    decreases s.len(),
{
    if s.len() == 0 {
        None
    } else if s[s.len() - 1] == '/' {
        None
    } else if s[s.len() - 1] == '.' {
        Some(s.len() - 1)
    } else {
        spec_last_dot(s.drop_last())
    }
}

/// The path's extension: what follows the last dot of the file name.
pub open spec fn spec_extension_of(s: Seq<char>) -> Option<Seq<char>> {
    match spec_last_dot(s) {
        Some(d) => Some(s.subrange(d + 1, s.len() as int)),
        None => None,
    }
}

/// Extracts the path's extension, without the dot.
#[verifier::loop_isolation(false)]
pub fn extension_of(s: &String) -> (r: Option<String>)
    ensures
        match r {
            Some(e) => spec_extension_of(s@) == Some(e@),
            None => spec_extension_of(s@) is None,
        },
{
    let text = s.as_str();
    let n = text.unicode_len();
    let mut i: usize = n;
    proof {
        assert(text@.subrange(0, n as int) =~= text@);
    }
    while i > 0
        invariant
            n == text@.len(),
            i <= n,
            spec_last_dot(text@) == spec_last_dot(text@.subrange(0, i as int)),
            forall|k: int| i <= k < n ==> text@[k] != '.' && text@[k] != '/',
        decreases i,
    {
        let c = text.get_char(i - 1);
        proof {
            assert(text@.subrange(0, i as int).drop_last() =~= text@.subrange(0, i - 1));
            assert(text@.subrange(0, i as int).last() == text@[i - 1]);
        }
        if c == '/' {
            return None;
        }
        if c == '.' {
            let ext = text.substring_char(i, n);
            proof {
                assert(spec_last_dot(text@) == Some(i - 1));
            }
            return Some(ext.to_owned());
        }
        i = i - 1;
    }
    proof {
        assert(text@.subrange(0, 0) =~= Seq::<char>::empty());
    }
    None
}

/// The extensions of the files the linter handles: the JavaScript and
/// TypeScript family, and the frameworks whose files embed script sections.
pub open spec fn spec_is_lintable_extension(e: Seq<char>) -> bool {
    ||| e == "js"@
    ||| e == "mjs"@
    ||| e == "cjs"@
    ||| e == "jsx"@
    ||| e == "ts"@
    ||| e == "mts"@
    ||| e == "cts"@
    ||| e == "tsx"@
    ||| e == "vue"@
    ||| e == "astro"@
    ||| e == "svelte"@
}

/// Whether the extension names a file kind the linter handles.
pub fn is_lintable_extension(e: &String) -> (r: bool)
    ensures
        r == spec_is_lintable_extension(e@),
{
    *e == "js".to_owned() || *e == "mjs".to_owned() || *e == "cjs".to_owned() || *e
        == "jsx".to_owned() || *e == "ts".to_owned() || *e == "mts".to_owned() || *e
        == "cts".to_owned() || *e == "tsx".to_owned() || *e == "vue".to_owned() || *e
        == "astro".to_owned() || *e == "svelte".to_owned()
}

/// Whether the path names a file the linter can process at all: it has an
/// extension, and the extension is one the linter handles.
pub open spec fn spec_is_processable_path(p: Seq<char>) -> bool {
    match spec_extension_of(p) {
        Some(e) => spec_is_lintable_extension(e),
        None => false,
    }
}

/// Whether the path names a file the linter can process.
pub fn is_processable_path(p: &String) -> (r: bool)
    ensures
        r == spec_is_processable_path(p@),
{
    match extension_of(p) {
        Some(e) => is_lintable_extension(&e),
        None => false,
    }
}

/// A relative path: one that does not start at the root.
pub open spec fn spec_is_relative_path(p: Seq<char>) -> bool {
    p.len() == 0 || p[0] != '/'
}

/// A path resolved against a base directory: a relative path is joined to
/// the base with a separator, an absolute path stands as it is.
pub open spec fn spec_joined_path(base: Seq<char>, p: Seq<char>) -> Seq<char> {
    if spec_is_relative_path(p) {
        base + seq!['/'] + p
    } else {
        p
    }
}

/// Resolves a path against a base directory.
pub fn join_path(base: &String, p: &String) -> (r: String)
    ensures
        r@ == spec_joined_path(base@, p@),
{
    let t = p.as_str();
    let n = t.unicode_len();
    if n > 0 && t.get_char(0) == '/' {
        p.clone()
    } else {
        let mut out = base.clone();
        out.append("/");
        out.append(t);
        proof {
            reveal_strlit("/");
            assert(out@ =~= base@ + seq!['/'] + p@);
        }
        out
    }
}

/// A minified-file marker in a file name: `min` bracketed by a leading dot,
/// dash or underscore and a trailing dot.
pub open spec fn spec_has_min_marker(s: Seq<char>) -> bool {
    exists|i: int|
        0 <= i && i + 5 <= s.len() && (#[trigger] s[i] == '.' || s[i] == '-' || s[i] == '_') && s[i
            + 1] == 'm' && s[i + 2] == 'i' && s[i + 3] == 'n' && s[i + 4] == '.'
}

/// Whether the file name carries a minified-file marker.
pub fn has_min_marker(s: &String) -> (r: bool)
    ensures
        r == spec_has_min_marker(s@),
{
    let text = s.as_str();
    let n = text.unicode_len();
    let mut i: usize = 0;
    let mut found = false;
    while i < n
        invariant
            n == text@.len(),
            i <= n,
            found == exists|k: int|
                0 <= k && k + 5 <= text@.len() && k < i && (#[trigger] text@[k] == '.' || text@[k]
                    == '-' || text@[k] == '_') && text@[k + 1] == 'm' && text@[k + 2] == 'i'
                    && text@[k + 3] == 'n' && text@[k + 4] == '.',
        decreases n - i,
    {
        if n - i >= 5 {
            let c0 = text.get_char(i);
            if (c0 == '.' || c0 == '-' || c0 == '_') && text.get_char(i + 1) == 'm'
                && text.get_char(i + 2) == 'i' && text.get_char(i + 3) == 'n' && text.get_char(
                i + 4,
            ) == '.' {
                found = true;
            }
        }
        i = i + 1;
    }
    proof {
        if found {
            assert(spec_has_min_marker(s@));
        }
    }
    found
}

/// `p` is a prefix of `s`.
pub open spec fn spec_starts_with(s: Seq<char>, p: Seq<char>) -> bool {
    p.len() <= s.len() && forall|k: int| 0 <= k < p.len() ==> s[k] == p[k]
}

/// Whether `s` starts with `p`.
#[verifier::loop_isolation(false)]
pub fn str_starts_with(s: &String, p: &String) -> (r: bool)
    ensures
        r == spec_starts_with(s@, p@),
{
    let st = s.as_str();
    let pt = p.as_str();
    let n = st.unicode_len();
    let m = pt.unicode_len();
    if m > n {
        return false;
    }
    let mut i: usize = 0;
    while i < m
        invariant
            n == st@.len(),
            m == pt@.len(),
            m <= n,
            i <= m,
            forall|k: int| 0 <= k < i ==> st@[k] == pt@[k],
        decreases m - i,
    {
        if st.get_char(i) != pt.get_char(i) {
            proof {
                assert(s@[i as int] != p@[i as int]);
            }
            return false;
        }
        i = i + 1;
    }
    true
}

/// An arrow token somewhere in the text: an equals sign directly followed
/// by a greater-than sign.
pub open spec fn spec_has_arrow_token(s: Seq<char>) -> bool {
    exists|i: int| 0 <= i && i + 2 <= s.len() && #[trigger] s[i] == '=' && s[i + 1] == '>'
}

/// Whether the source text uses an arrow function, by the presence of an
/// arrow token.
pub fn has_arrow_function(source_code: &str) -> (r: bool)
    ensures
        r == spec_has_arrow_token(source_code@),
{
    let n = source_code.unicode_len();
    let mut i: usize = 0;
    let mut found = false;
    while i < n
        invariant
            n == source_code@.len(),
            i <= n,
            found == exists|k: int|
                0 <= k && k + 2 <= source_code@.len() && k < i && #[trigger] source_code@[k]
                    == '=' && source_code@[k + 1] == '>',
        decreases n - i,
    {
        if n - i >= 2 && source_code.get_char(i) == '=' && source_code.get_char(i + 1) == '>' {
            found = true;
        }
        i = i + 1;
    }
    found
}

} // verus!
