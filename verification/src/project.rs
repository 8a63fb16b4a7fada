//! Project registry logic: mapping codebases to namespaces.
//!
//! The registry itself is SQL and the markers live on disk; this module holds
//! what is decided from what they hold: canonical remote URLs, sanitized
//! branch names, the `.ctxproject` id, the longest registered path that
//! contains the working directory, and the detection chain.

use vstd::prelude::*;

use crate::text::{
    chars_of, copy_string, has_prefix, has_suffix, is_alnum, is_alnum_exec, lines, owned,
    slice_chars, str_eq, string_of, trim, trim_exec,
};

verus! {

/// A registered project.
#[derive(Debug, Clone)]
pub struct Project {
    pub id: String,
    /// Canonical git remote URL, if the project has one.
    pub remote_url: Option<String>,
    pub namespace_id: String,
    pub display_name: Option<String>,
    pub created_at: String,
    pub local_paths: Vec<String>,
}

// ---------------------------------------------------------------------------
// Remote URLs
// ---------------------------------------------------------------------------

/// `s` without its trailing `c` characters (`trim_end_matches(c)`).
pub open spec fn trim_end_char(s: Seq<char>, c: char) -> Seq<char>
    decreases s.len(),
{
    if s.len() > 0 && s.last() == c {
        trim_end_char(s.drop_last(), c)
    } else {
        s
    }
}

/// The canonical form of a remote URL: trailing slashes dropped, then one
/// trailing `.git`.
pub open spec fn normalized_url(url: Seq<char>) -> Seq<char> {
    let t = trim_end_char(url, '/');
    if has_suffix(t, ".git"@) {
        t.subrange(0, t.len() - ".git"@.len())
    } else {
        t
    }
}

/// Strips trailing slashes and a trailing `.git`, so that
/// `https://github.com/user/repo.git` and `https://github.com/user/repo`
/// map to the same canonical form.
pub fn normalize_remote_url(url: &str) -> (r: String)
    ensures
        r@ == normalized_url(url@),
{
    let cs = chars_of(url);
    let mut j: usize = cs.len();
    assert(cs@.take(j as int) =~= cs@);
    while j > 0 && cs[j - 1] == '/'
        invariant
            j <= cs@.len(),
            trim_end_char(cs@, '/') == trim_end_char(cs@.take(j as int), '/'),
        decreases j,
    {
        assert(cs@.take(j as int).drop_last() =~= cs@.take(j - 1));
        j = j - 1;
    }
    let t = slice_chars(&cs, 0, j);
    assert(t@ =~= cs@.take(j as int));
    assert(cs@ =~= cs@.take(cs@.len() as int));
    let suffix = chars_of(".git");
    if crate::text::ends_with(&t, &suffix) {
        string_of(&slice_chars(&t, 0, t.len() - suffix.len()))
    } else {
        string_of(&t)
    }
}

/// A trailing slash never changes the canonical form.
pub proof fn law_url_trailing_slash(url: Seq<char>)
    ensures
        normalized_url(url.push('/')) == normalized_url(url),
{
    assert(url.push('/').drop_last() =~= url);
}

/// A URL and the same URL with `.git` appended have the same canonical
/// form, which is the URL itself, for a URL that ends neither in `/` nor in
/// `.git`.
pub proof fn law_url_git_suffix(url: Seq<char>)
    requires
        !has_suffix(url, "/"@),
        !has_suffix(url, ".git"@),
    ensures
        normalized_url(url + ".git"@) == url,
        normalized_url(url) == url,
{
    reveal_strlit("/");
    reveal_strlit(".git");
    let u = url + ".git"@;
    assert(trim_end_char(u, '/') == u);
    if url.len() > 0 && url.last() == '/' {
        assert(url.subrange(url.len() - 1, url.len() as int) =~= "/"@);
    }
    assert(trim_end_char(url, '/') == url);
    assert(u.subrange(u.len() - 4, u.len() as int) =~= ".git"@);
    assert(u.subrange(0, u.len() - 4) =~= url);
}

// ---------------------------------------------------------------------------
// Branch names
// ---------------------------------------------------------------------------

/// Characters a sanitized branch name keeps.
pub open spec fn branch_char(c: char) -> bool {
    is_alnum(c) || c == '-' || c == '_' || c == '.'
}

/// Every other character replaced by `-`.
pub open spec fn replace_invalid(s: Seq<char>) -> Seq<char> {
    s.map_values(|c: char| if branch_char(c) { c } else { '-' })
}

/// Runs of `-` collapsed into one.
pub open spec fn collapse_dashes(s: Seq<char>) -> Seq<char>
    decreases s.len(),
{
    if s.len() == 0 {
        s
    } else {
        let p = collapse_dashes(s.drop_last());
        if s.last() == '-' && s.len() > 1 && s[s.len() - 2] == '-' {
            p
        } else {
            p.push(s.last())
        }
    }
}

/// Number of leading `-`.
pub open spec fn lead_dashes(s: Seq<char>, i: int) -> int
    decreases s.len() - i,
{
    if 0 <= i < s.len() && s[i] == '-' {
        lead_dashes(s, i + 1)
    } else {
        i
    }
}

/// `s` without leading and trailing `-` (`trim_matches('-')`).
pub open spec fn trim_dashes(s: Seq<char>) -> Seq<char> {
    trim_end_char(s.subrange(lead_dashes(s, 0), s.len() as int), '-')
}

/// A git branch name made fit for a branch component: a leading
/// `refs/heads/` dropped, other characters than ASCII alphanumerics, `-`,
/// `_` and `.` replaced by `-`, runs of `-` collapsed, leading and trailing
/// `-` dropped; `work` if nothing is left.
pub open spec fn sanitized_branch(raw: Seq<char>) -> Seq<char> {
    let stripped = if has_prefix(raw, "refs/heads/"@) {
        raw.skip("refs/heads/"@.len() as int)
    } else {
        raw
    };
    let t = trim_dashes(collapse_dashes(replace_invalid(stripped)));
    if t.len() == 0 {
        "work"@
    } else {
        t
    }
}

/// Sanitizes a git branch name for use as a branch component.
pub fn sanitize_branch_name(raw: &str) -> (r: String)
    ensures
        r@ == sanitized_branch(raw@),
{
    let cs = chars_of(raw);
    let pfx = chars_of("refs/heads/");
    let stripped = if crate::text::starts_with(&cs, &pfx) {
        slice_chars(&cs, pfx.len(), cs.len())
    } else {
        slice_chars(&cs, 0, cs.len())
    };
    assert(cs@.subrange(0, cs@.len() as int) =~= cs@);
    assert(has_prefix(cs@, pfx@) ==> stripped@ =~= cs@.skip(pfx@.len() as int));
    let n: usize = stripped.len();
    let mut out: Vec<char> = Vec::new();
    let mut i: usize = 0;
    let mut last_was_dash = false;
    let ghost rep = replace_invalid(stripped@);
    while i < n
        invariant
            n == stripped@.len(),
            rep == replace_invalid(stripped@),
            i <= n,
            out@ == collapse_dashes(rep.take(i as int)),
            i > 0 ==> (last_was_dash == (rep[i - 1] == '-')),
        decreases n - i,
    {
        let c = stripped[i];
        let d = if is_alnum_exec(c) || c == '-' || c == '_' || c == '.' {
            c
        } else {
            '-'
        };
        assert(rep[i as int] == d);
        assert(rep.take(i + 1).drop_last() =~= rep.take(i as int));
        if d == '-' {
            if !(i > 0 && last_was_dash) {
                out.push(d);
            }
            last_was_dash = true;
        } else {
            out.push(d);
            last_was_dash = false;
        }
        i = i + 1;
    }
    assert(rep.take(n as int) =~= rep);
    let m: usize = out.len();
    let mut a: usize = 0;
    while a < m && out[a] == '-'
        invariant
            m == out@.len(),
            a <= m,
            lead_dashes(out@, 0) == lead_dashes(out@, a as int),
        decreases m - a,
    {
        a = a + 1;
    }
    let mid = slice_chars(&out, a, m);
    let mut b: usize = mid.len();
    assert(mid@.take(b as int) =~= mid@);
    while b > 0 && mid[b - 1] == '-'
        invariant
            b <= mid@.len(),
            trim_end_char(mid@, '-') == trim_end_char(mid@.take(b as int), '-'),
        decreases b,
    {
        assert(mid@.take(b as int).drop_last() =~= mid@.take(b - 1));
        b = b - 1;
    }
    assert(mid@ =~= mid@.take(mid@.len() as int));
    let t = slice_chars(&mid, 0, b);
    assert(t@ =~= mid@.take(b as int));
    if t.len() == 0 {
        owned("work")
    } else {
        string_of(&t)
    }
}

/// A clean branch component: not empty, only kept characters, no leading or
/// trailing `-`, no `--`.
pub open spec fn clean_branch(s: Seq<char>) -> bool {
    &&& s.len() > 0
    &&& forall|i: int| 0 <= i < s.len() ==> branch_char(#[trigger] s[i])
    &&& s[0] != '-'
    &&& s.last() != '-'
    &&& forall|i: int| 0 <= i < s.len() - 1 ==> !(#[trigger] s[i] == '-' && s[i + 1] == '-')
}

proof fn lemma_collapse_props(s: Seq<char>)
    requires
        forall|i: int| 0 <= i < s.len() ==> branch_char(#[trigger] s[i]),
    ensures
        forall|i: int| 0 <= i < collapse_dashes(s).len() ==> branch_char(#[trigger] collapse_dashes(s)[i]),
        forall|i: int|
            0 <= i < collapse_dashes(s).len() - 1 ==> !(#[trigger] collapse_dashes(s)[i] == '-'
                && collapse_dashes(s)[i + 1] == '-'),
        s.len() > 0 ==> collapse_dashes(s).len() > 0 && collapse_dashes(s).last() == s.last(),
    decreases s.len(),
{
    if s.len() > 0 {
        let q = s.drop_last();
        assert forall|i: int| 0 <= i < q.len() implies branch_char(#[trigger] q[i]) by {
            assert(q[i] == s[i]);
        }
        lemma_collapse_props(q);
        let p = collapse_dashes(q);
        let r = collapse_dashes(s);
        assert(branch_char(s[s.len() - 1]));
        if s.last() == '-' && s.len() > 1 && s[s.len() - 2] == '-' {
            assert(r == p);
            assert(p.last() == q.last());
        } else {
            assert(r == p.push(s.last()));
            assert forall|i: int| 0 <= i < r.len() implies branch_char(#[trigger] r[i]) by {
                if i < p.len() {
                    assert(r[i] == p[i]);
                }
            }
            assert forall|i: int| 0 <= i < r.len() - 1 implies !(#[trigger] r[i] == '-' && r[i
                + 1] == '-') by {
                if i < p.len() - 1 {
                    assert(r[i] == p[i] && r[i + 1] == p[i + 1]);
                } else {
                    assert(i == p.len() - 1);
                    assert(r[i] == p.last());
                    assert(p.last() == q.last());
                    assert(q.last() == s[s.len() - 2]);
                }
            }
        }
    }
}

proof fn lemma_collapse_clean(s: Seq<char>)
    requires
        forall|i: int| 0 <= i < s.len() - 1 ==> !(#[trigger] s[i] == '-' && s[i + 1] == '-'),
    ensures
        collapse_dashes(s) == s,
    decreases s.len(),
{
    if s.len() > 0 {
        let q = s.drop_last();
        assert forall|i: int| 0 <= i < q.len() - 1 implies !(#[trigger] q[i] == '-' && q[i + 1]
            == '-') by {
            assert(q[i] == s[i] && q[i + 1] == s[i + 1]);
        }
        lemma_collapse_clean(q);
        if s.len() > 1 {
            assert(!(s[s.len() - 2] == '-' && s[s.len() - 1] == '-'));
        }
        assert(q.push(s.last()) =~= s);
    }
}

proof fn lemma_lead_dashes(s: Seq<char>, i: int)
    requires
        0 <= i <= s.len(),
    ensures
        i <= lead_dashes(s, i) <= s.len(),
        forall|k: int| i <= k < lead_dashes(s, i) ==> s[k] == '-',
        lead_dashes(s, i) < s.len() ==> s[lead_dashes(s, i)] != '-',
    decreases s.len() - i,
{
    if i < s.len() && s[i] == '-' {
        lemma_lead_dashes(s, i + 1);
    }
}

proof fn lemma_trim_end_char(s: Seq<char>, c: char)
    ensures
        trim_end_char(s, c) == s.take(trim_end_char(s, c).len() as int),
        trim_end_char(s, c).len() <= s.len(),
        trim_end_char(s, c).len() > 0 ==> trim_end_char(s, c).last() != c,
        forall|k: int| trim_end_char(s, c).len() <= k < s.len() ==> s[k] == c,
    decreases s.len(),
{
    if s.len() > 0 && s.last() == c {
        lemma_trim_end_char(s.drop_last(), c);
        let t = trim_end_char(s.drop_last(), c);
        assert(s.drop_last().take(t.len() as int) =~= s.take(t.len() as int));
        assert forall|k: int| t.len() <= k < s.len() implies s[k] == c by {
            if k < s.len() - 1 {
                assert(s.drop_last()[k] == s[k]);
            }
        }
    } else {
        assert(s.take(s.len() as int) =~= s);
    }
}

/// A sanitized branch name is clean: not empty, made of ASCII
/// alphanumerics, `-`, `_` and `.`, with no leading, trailing or doubled
/// `-`.
pub proof fn law_sanitized_is_clean(raw: Seq<char>)
    ensures
        clean_branch(sanitized_branch(raw)),
{
    reveal_strlit("work");
    reveal_strlit("refs/heads/");
    let stripped = if has_prefix(raw, "refs/heads/"@) {
        raw.skip("refs/heads/"@.len() as int)
    } else {
        raw
    };
    let r = replace_invalid(stripped);
    let c = collapse_dashes(r);
    lemma_collapse_props(r);
    lemma_lead_dashes(c, 0);
    let a = lead_dashes(c, 0);
    let mid = c.subrange(a, c.len() as int);
    lemma_trim_end_char(mid, '-');
    let t = trim_dashes(c);
    if t.len() > 0 {
        assert forall|i: int| 0 <= i < t.len() implies branch_char(#[trigger] t[i]) by {
            assert(t[i] == mid[i]);
            assert(mid[i] == c[a + i]);
        }
        assert forall|i: int| 0 <= i < t.len() - 1 implies !(#[trigger] t[i] == '-' && t[i + 1]
            == '-') by {
            assert(t[i] == c[a + i] && t[i + 1] == c[a + i + 1]);
        }
        assert(t[0] == c[a]);
    } else {
        let w = "work"@;
        assert(forall|i: int| 0 <= i < w.len() ==> branch_char(#[trigger] w[i]));
    }
}

/// Sanitizing a sanitized name changes nothing.
pub proof fn law_sanitize_idempotent(raw: Seq<char>)
    ensures
        sanitized_branch(sanitized_branch(raw)) == sanitized_branch(raw),
{
    reveal_strlit("refs/heads/");
    let s = sanitized_branch(raw);
    law_sanitized_is_clean(raw);
    if has_prefix(s, "refs/heads/"@) {
        assert(s[4] == "refs/heads/"@[4]);
        assert(!branch_char(s[4]));
    }
    let r = replace_invalid(s);
    assert(r =~= s);
    lemma_collapse_clean(s);
    lemma_lead_dashes(s, 0);
    assert(lead_dashes(s, 0) == 0);
    assert(s.subrange(0, s.len() as int) =~= s);
    assert(trim_end_char(s, '-') == s);
}


// ---------------------------------------------------------------------------
// What the markers and git say
// ---------------------------------------------------------------------------

/// The project id a `.ctxproject` file names: its first line that is not
/// blank, trimmed.
pub fn ctxproject_id(content: &str) -> (r: Option<String>)
    ensures
        opt_str_view(r) == crate::segments::first_filled(lines(content@), 0),
{
    let cs = chars_of(content);
    let ls = crate::text::lines_exec(&cs);
    let n: usize = ls.len();
    let mut i: usize = 0;
    while i < n
        invariant
            n == lines(content@).len(),
            cs@ == content@,
            ls@.len() == n,
            forall|k: int| 0 <= k < n ==> #[trigger] ls@[k]@ == lines(cs@)[k],
            i <= n,
            crate::segments::first_filled(lines(content@), 0) == crate::segments::first_filled(
                lines(content@),
                i as int,
            ),
        decreases n - i,
    {
        let t = trim_exec(&ls[i]);
        if t.len() > 0 {
            return Some(string_of(&t));
        }
        i = i + 1;
    }
    None
}

/// The characters of an optional string.
pub open spec fn opt_str_view(o: Option<String>) -> Option<Seq<char>> {
    match o {
        Some(s) => Some(s@),
        None => None,
    }
}

/// The remote URL a successful `git remote get-url origin` (or, with
/// `ls_remote`, `git ls-remote --get-url origin`) printed: the trimmed
/// output, canonicalized, unless it is empty (or, for `ls-remote`, the bare
/// word `origin`, which it prints when there is no remote).
pub open spec fn remote_of_output(raw: Seq<char>, ls_remote: bool) -> Option<Seq<char>> {
    let url = trim(raw);
    if url.len() == 0 || (ls_remote && url == "origin"@) {
        None
    } else {
        Some(normalized_url(url))
    }
}

/// The canonical remote URL in a git command's output, if there is one.
pub fn remote_from_output(raw: &str, ls_remote: bool) -> (r: Option<String>)
    ensures
        opt_str_view(r) == remote_of_output(raw@, ls_remote),
{
    let url = string_of(&trim_exec(&chars_of(raw)));
    let uc = chars_of(url.as_str());
    if uc.len() == 0 || (ls_remote && str_eq(url.as_str(), "origin")) {
        None
    } else {
        Some(normalize_remote_url(url.as_str()))
    }
}

/// The branch label git gives for a working directory: the trimmed output
/// of a successful `git symbolic-ref --short HEAD` when not empty, else
/// `detached-` and the trimmed output of a successful
/// `git rev-parse --short HEAD` when not empty.
pub open spec fn branch_of_outputs(symbolic: Option<Seq<char>>, short_sha: Option<Seq<char>>) -> Option<
    Seq<char>,
> {
    if symbolic is Some && trim(symbolic->0).len() > 0 {
        Some(trim(symbolic->0))
    } else if short_sha is Some && trim(short_sha->0).len() > 0 {
        Some("detached-"@ + trim(short_sha->0))
    } else {
        None
    }
}

/// The branch label from the outputs of the git commands that succeeded.
pub fn branch_from_outputs(symbolic: Option<&str>, short_sha: Option<&str>) -> (r: Option<String>)
    ensures
        opt_str_view(r) == branch_of_outputs(
            match symbolic {
                Some(s) => Some(s@),
                None => None,
            },
            match short_sha {
                Some(s) => Some(s@),
                None => None,
            },
        ),
{
    if let Some(s) = symbolic {
        let b = trim_exec(&chars_of(s));
        if b.len() > 0 {
            return Some(string_of(&b));
        }
    }
    if let Some(h) = short_sha {
        let sha = trim_exec(&chars_of(h));
        if sha.len() > 0 {
            let mut out = owned("detached-");
            crate::text::push_chars(&mut out, &sha);
            return Some(out);
        }
    }
    None
}

// ---------------------------------------------------------------------------
// Longest registered path
// ---------------------------------------------------------------------------

/// `pre` is a leading run of the components of `path` (`Path::starts_with`).
pub open spec fn components_prefix(pre: Seq<Seq<char>>, path: Seq<Seq<char>>) -> bool {
    pre.len() <= path.len() && forall|i: int| 0 <= i < pre.len() ==> #[trigger] pre[i] == path[i]
}

/// The position of the deepest candidate, among the first ones, whose
/// components lead `cwd`'s; the first of equally deep ones.
pub open spec fn best_path(cwd: Seq<Seq<char>>, cands: Seq<Seq<Seq<char>>>) -> Option<int>
    decreases cands.len(),
{
    if cands.len() == 0 {
        None
    } else {
        let prev = best_path(cwd, cands.drop_last());
        let c = cands.last();
        if !components_prefix(c, cwd) {
            prev
        } else {
            match prev {
                None => Some(cands.len() - 1),
                Some(b) => if c.len() > cands[b].len() {
                    Some(cands.len() - 1)
                } else {
                    prev
                },
            }
        }
    }
}

/// The components of a list of paths.
pub open spec fn comps_view(v: Seq<Vec<String>>) -> Seq<Seq<Seq<char>>> {
    v.map_values(|p: Vec<String>| p@.map_values(|c: String| c@))
}

fn components_prefix_exec(pre: &Vec<String>, path: &Vec<String>) -> (r: bool)
    ensures
        r == components_prefix(pre@.map_values(|c: String| c@), path@.map_values(|c: String| c@)),
{
    let ghost pv = pre@.map_values(|c: String| c@);
    let ghost qv = path@.map_values(|c: String| c@);
    if pre.len() > path.len() {
        return false;
    }
    let n: usize = pre.len();
    let mut i: usize = 0;
    while i < n
        invariant
            n == pre@.len(),
            n <= path@.len(),
            pv == pre@.map_values(|c: String| c@),
            qv == path@.map_values(|c: String| c@),
            i <= n,
            forall|k: int| 0 <= k < i ==> #[trigger] pv[k] == qv[k],
        decreases n - i,
    {
        if !str_eq(pre[i].as_str(), path[i].as_str()) {
            assert(pv[i as int] != qv[i as int]);
            return false;
        }
        i = i + 1;
    }
    true
}

/// Which registered path, given by its components, is the longest that
/// contains the working directory `cwd`: compared on path components, so
/// `/a/repo-two` is not inside `/a/repo`; the first of equally long ones.
pub fn longest_local_path(cwd: &Vec<String>, candidates: &Vec<Vec<String>>) -> (r: Option<usize>)
    ensures
        match r {
            Some(k) => best_path(cwd@.map_values(|c: String| c@), comps_view(candidates@)) == Some(
                k as int,
            ),
            None => best_path(cwd@.map_values(|c: String| c@), comps_view(candidates@)) is None,
        },
{
    let ghost cw = cwd@.map_values(|c: String| c@);
    let ghost cv = comps_view(candidates@);
    let n: usize = candidates.len();
    let mut best: Option<usize> = None;
    let mut best_depth: usize = 0;
    let mut i: usize = 0;
    while i < n
        invariant
            n == candidates@.len(),
            cv == comps_view(candidates@),
            cw == cwd@.map_values(|c: String| c@),
            i <= n,
            match best {
                Some(b) => best_path(cw, cv.take(i as int)) == Some(b as int) && b < i
                    && best_depth == cv[b as int].len(),
                None => best_path(cw, cv.take(i as int)) is None,
            },
        decreases n - i,
    {
        assert(cv.take(i + 1).drop_last() =~= cv.take(i as int));
        assert(cv[i as int] == candidates@[i as int]@.map_values(|c: String| c@));
        let c = &candidates[i];
        if components_prefix_exec(c, cwd) {
            match best {
                None => {
                    best = Some(i);
                    best_depth = c.len();
                },
                Some(b) => {
                    assert(cv.take(i + 1)[b as int] == cv[b as int]);
                    if c.len() > best_depth {
                        best = Some(i);
                        best_depth = c.len();
                    }
                },
            }
        } else {
            match best {
                Some(b) => {
                    assert(cv.take(i + 1)[b as int] == cv[b as int]);
                },
                None => {},
            }
        }
        i = i + 1;
    }
    assert(cv.take(n as int) =~= cv);
    best
}

// ---------------------------------------------------------------------------
// The detection chain
// ---------------------------------------------------------------------------

/// Result of the project detection chain.
#[derive(Debug, Clone)]
pub enum DetectResult {
    /// Found a project via `.ctxproject` file.
    FoundByFile { project_id: String, namespace_id: String },
    /// Found a project via git remote URL lookup.
    FoundByRemote { project_id: String, namespace_id: String, remote_url: String },
    /// Found a project because `cwd` is inside one of its registered
    /// `local_paths`.
    FoundByPath { project_id: String, namespace_id: String, local_path: String },
    /// No project found: the caller warns and falls back to "default".
    NotFound,
    /// The registry is unavailable: the default namespace is used silently.
    RegistryUnavailable,
}

/// What a registry lookup answered: the project, no such project, or a
/// registry error.
pub type Lookup = Result<Option<Project>, ()>;

/// The detection chain over what each step found, stopping at the first
/// hit:
///
/// 1. `by_file`: the registry's answer for the id in a `.ctxproject` file in
///    `cwd` or a parent (`None` when there is no such file). A registry error
///    makes the registry unavailable; an unknown id falls through.
/// 2. `by_remote`: the canonical git remote URL and the registry's answer for
///    it (`None` when there is no remote). An error makes the registry
///    unavailable; an unknown URL falls through.
/// 3. `by_path`: the project with the longest registered local path that
///    contains `cwd`, and that path. An error here means nothing is
///    registered by path.
/// 4. Not found.
///
/// With no registry database (`db_available` false), detection is skipped.
pub fn detect_project(
    db_available: bool,
    by_file: Option<Lookup>,
    by_remote: Option<(String, Lookup)>,
    by_path: Result<Option<(Project, String)>, ()>,
) -> (r: DetectResult)
    ensures
        match r {
            DetectResult::RegistryUnavailable => !db_available || by_file matches Some(Err(_)) || (
            !(by_file matches Some(Ok(Some(_)))) && by_remote matches Some((_, Err(_)))),
            DetectResult::FoundByFile { project_id, namespace_id } => {
                &&& db_available
                &&& by_file matches Some(Ok(Some(p))) && project_id@ == p.id@ && namespace_id@
                    == p.namespace_id@
            },
            DetectResult::FoundByRemote { project_id, namespace_id, remote_url } => {
                &&& db_available
                &&& (by_file is None || by_file matches Some(Ok(None)))
                &&& by_remote matches Some((u, Ok(Some(p)))) && project_id@ == p.id@
                    && namespace_id@ == p.namespace_id@ && remote_url@ == u@
            },
            DetectResult::FoundByPath { project_id, namespace_id, local_path } => {
                &&& db_available
                &&& (by_file is None || by_file matches Some(Ok(None)))
                &&& (by_remote is None || by_remote matches Some((_, Ok(None))))
                &&& by_path matches Ok(Some((p, lp))) && project_id@ == p.id@ && namespace_id@
                    == p.namespace_id@ && local_path@ == lp@
            },
            DetectResult::NotFound => db_available && (by_file is None || by_file matches Some(
                Ok(None),
            )) && (by_remote is None || by_remote matches Some((_, Ok(None))))
                && !(by_path matches Ok(Some(_))),
        },
{
    if !db_available {
        return DetectResult::RegistryUnavailable;
    }
    match by_file {
        Some(Ok(Some(p))) => {
            return DetectResult::FoundByFile { project_id: p.id, namespace_id: p.namespace_id };
        },
        Some(Err(_)) => {
            return DetectResult::RegistryUnavailable;
        },
        _ => {},
    }
    match by_remote {
        Some((remote_url, Ok(Some(p)))) => {
            return DetectResult::FoundByRemote {
                project_id: p.id,
                namespace_id: p.namespace_id,
                remote_url,
            };
        },
        Some((_, Err(_))) => {
            return DetectResult::RegistryUnavailable;
        },
        _ => {},
    }
    if let Ok(Some((p, local_path))) = by_path {
        return DetectResult::FoundByPath {
            project_id: p.id,
            namespace_id: p.namespace_id,
            local_path,
        };
    }
    DetectResult::NotFound
}

} // verus!
