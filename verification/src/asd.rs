//! The hub's view of code-intelligence (ASD) servers: which registered repo
//! a request means, where a repo's endpoints live, what the shared repo
//! registry lists, and the address a freshly started server announces.

use vstd::prelude::*;

use crate::links::{words, words_exec};
use crate::text::{
    chars_of, chars_eq, copy_string, find_from, find_from_exec, has_char, has_prefix, join_strings,
    joined, lemma_find_from, owned, push_str, slice_chars, starts_with, string_of, views, has_suffix,
    ends_with, push_chars,
};

verus! {

// ---------------------------------------------------------------------------
// Resolving a repo name
// ---------------------------------------------------------------------------

/// The names of the registered repos, in order.
pub open spec fn repo_names(repos: Seq<(String, String)>) -> Seq<Seq<char>> {
    repos.map_values(|r: (String, String)| r.0@)
}

/// The position of the first repo at or after `i` named `name`.
pub open spec fn repo_index(repos: Seq<(String, String)>, name: Seq<char>, i: int) -> Option<int>
    decreases repos.len() - i,
{
    if i < 0 || i >= repos.len() {
        None
    } else if repos[i].0@ == name {
        Some(i)
    } else {
        repo_index(repos, name, i + 1)
    }
}

/// Which base URL a request for `repo` resolves to among `repos`, or the
/// error message: a named repo must be registered; an unnamed (or empty)
/// one is the only registered repo, if there is exactly one.
pub open spec fn resolved_base(repos: Seq<(String, String)>, repo: Option<Seq<char>>) -> Result<
    Seq<char>,
    Seq<char>,
> {
    if repos.len() == 0 {
        Err(
            "No ASD repos registered. Start ctxone-hub with --asd-url name=http://... to enable code tools."@,
        )
    } else if repo matches Some(name) && name.len() > 0 {
        match repo_index(repos, repo->0, 0) {
            Some(i) => Ok(repos[i].1@),
            None => Err(
                "unknown repo \""@ + repo->0 + "\". Known repos: "@ + joined(repo_names(repos), ", "@),
            ),
        }
    } else if repos.len() == 1 {
        Ok(repos[0].1@)
    } else {
        Err(
            "Multiple repos registered; specify repo name. Known repos: "@ + joined(
                repo_names(repos),
                ", "@,
            ),
        )
    }
}

fn known_names(repos: &[(String, String)]) -> (r: String)
    ensures
        r@ == joined(repo_names(repos@), ", "@),
{
    let mut names: Vec<String> = Vec::new();
    let n: usize = repos.len();
    let mut i: usize = 0;
    while i < n
        invariant
            n == repos@.len(),
            i <= n,
            views(names@) =~= repo_names(repos@).take(i as int),
        decreases n - i,
    {
        let ghost before = names@;
        names.push(copy_string(&repos[i].0));
        proof {
            assert(views(names@) =~= views(before).push(repos@[i as int].0@));
            assert(repo_names(repos@).take(i + 1) =~= repo_names(repos@).take(i as int).push(
                repo_names(repos@)[i as int],
            ));
        }
        i = i + 1;
    }
    assert(repo_names(repos@).take(n as int) =~= repo_names(repos@));
    join_strings(&names, ", ")
}

/// Resolves a repo name to its ASD base URL: an exact match on the name;
/// with no (or an empty) name, the only registered repo; else an error
/// listing the known repos.
pub fn resolve_base<'a>(asd_repos: &'a [(String, String)], repo: Option<&str>) -> (r: Result<
    &'a str,
    String,
>)
    ensures
        match resolved_base(
            asd_repos@,
            match repo {
                Some(s) => Some(s@),
                None => None,
            },
        ) {
            Ok(u) => r matches Ok(v) && v@ == u,
            Err(m) => r matches Err(e) && e@ == m,
        },
{
    if asd_repos.len() == 0 {
        return Err(
            owned(
                "No ASD repos registered. Start ctxone-hub with --asd-url name=http://... to enable code tools.",
            ),
        );
    }
    let named = match repo {
        Some(name) => chars_of(name).len() > 0,
        None => false,
    };
    if named {
        let name = repo.unwrap();
        let target = chars_of(name);
        let n: usize = asd_repos.len();
        let mut i: usize = 0;
        while i < n
            invariant
                n == asd_repos@.len(),
                i <= n,
                target@ == name@,
                repo == Some(name),
                name@.len() > 0,
                n > 0,
                repo_index(asd_repos@, name@, 0) == repo_index(asd_repos@, name@, i as int),
            decreases n - i,
        {
            if chars_eq(&chars_of(asd_repos[i].0.as_str()), &target) {
                return Ok(asd_repos[i].1.as_str());
            }
            i = i + 1;
        }
        let mut m = owned("unknown repo \"");
        push_str(&mut m, name);
        push_str(&mut m, "\". Known repos: ");
        push_str(&mut m, known_names(asd_repos).as_str());
        Err(m)
    } else if asd_repos.len() == 1 {
        Ok(asd_repos[0].1.as_str())
    } else {
        let mut m = owned("Multiple repos registered; specify repo name. Known repos: ");
        push_str(&mut m, known_names(asd_repos).as_str());
        Err(m)
    }
}

/// The URL of an ASD API path: `<base>/api/v1/<path>`, trailing slashes
/// of the base dropped.
pub open spec fn asd_url_of(base: Seq<char>, path: Seq<char>) -> Seq<char> {
    strip_slashes(base) + "/api/v1/"@ + path
}

/// `s` without its trailing `/`s.
pub open spec fn strip_slashes(s: Seq<char>) -> Seq<char>
    decreases s.len(),
{
    if s.len() > 0 && s.last() == '/' {
        strip_slashes(s.drop_last())
    } else {
        s
    }
}

/// The URL of ASD API `path` on the server at `base`.
pub fn asd_url(base: &str, path: &str) -> (r: String)
    ensures
        r@ == asd_url_of(base@, path@),
{
    let b = chars_of(base);
    let mut j: usize = b.len();
    assert(b@.subrange(0, j as int) =~= b@);
    while j > 0 && b[j - 1] == '/'
        invariant
            j <= b@.len(),
            strip_slashes(b@) == strip_slashes(b@.subrange(0, j as int)),
        decreases j,
    {
        assert(b@.subrange(0, j as int).drop_last() =~= b@.subrange(0, j - 1));
        j = j - 1;
    }
    let mut s = string_of(&slice_chars(&b, 0, j));
    push_str(&mut s, "/api/v1/");
    push_str(&mut s, path);
    s
}

// ---------------------------------------------------------------------------
// The shared repo registry
// ---------------------------------------------------------------------------

/// A repo the registry lists.
#[derive(Debug, Clone)]
pub struct DiscoveredRepo {
    pub name: String,
    /// Its database path, with `~` expanded.
    pub path: String,
}

/// What the registry lists: its repos and the active one, if any.
#[derive(Debug)]
pub struct Discovered {
    pub repos: Vec<DiscoveredRepo>,
    pub active: Option<String>,
}

/// `base` joined with `rest` as `PathBuf::join` does on Unix: an absolute
/// `rest` replaces `base`; otherwise a `/` goes between them unless `base`
/// is empty or already ends with one.
pub open spec fn path_join(base: Seq<char>, rest: Seq<char>) -> Seq<char> {
    if rest.len() > 0 && rest[0] == '/' {
        rest
    } else if base.len() == 0 || base.last() == '/' {
        base + rest
    } else {
        base + "/"@ + rest
    }
}

/// A registry path with a leading `~` expanded to the home directory, when
/// one is known.
pub open spec fn lenient_path(raw: Seq<char>, home: Option<Seq<char>>) -> Seq<char> {
    if has_prefix(raw, "~/"@) && home is Some {
        path_join(home->0, raw.skip(2))
    } else if raw == "~"@ && home is Some {
        home->0
    } else {
        raw
    }
}

fn join_path(base: &Vec<char>, rest: &Vec<char>) -> (r: Vec<char>)
    ensures
        r@ == path_join(base@, rest@),
{
    proof {
        reveal_strlit("/");
    }
    if rest.len() > 0 && rest[0] == '/' {
        slice_chars(rest, 0, rest.len())
    } else if base.len() == 0 || base[base.len() - 1] == '/' {
        crate::text::concat_chars(base, rest)
    } else {
        let slash = chars_of("/");
        crate::text::concat_chars(&crate::text::concat_chars(base, &slash), rest)
    }
}

/// Expands a leading `~/` (or a bare `~`) of a registry path to `home`.
pub fn canonicalize_lenient(raw: &str, home: Option<&str>) -> (r: String)
    ensures
        r@ == lenient_path(
            raw@,
            match home {
                Some(h) => Some(h@),
                None => None,
            },
        ),
{
    proof {
        reveal_strlit("~/");
        reveal_strlit("~");
    }
    let cs = chars_of(raw);
    let tilde_slash = chars_of("~/");
    if starts_with(&cs, &tilde_slash) {
        if let Some(h) = home {
            let rest = slice_chars(&cs, 2, cs.len());
            assert(rest@ =~= raw@.skip(2));
            return string_of(&join_path(&chars_of(h), &rest));
        }
    }
    if chars_eq(&cs, &chars_of("~")) {
        if let Some(h) = home {
            return owned(h);
        }
    }
    owned(raw)
}

/// The active repo named by the registry: absent, or empty, means none.
pub open spec fn active_of(active: Option<Option<String>>) -> Option<Seq<char>> {
    match active {
        Some(Some(a)) => if a@.len() > 0 {
            Some(a@)
        } else {
            None
        },
        _ => None,
    }
}

/// A registry of a version newer than 1 (absent means 1).
pub open spec fn newer_registry(version: Option<u32>) -> bool {
    match version {
        Some(v) => v > 1,
        None => false,
    }
}

/// The characters of an optional `str`.
pub open spec fn opt_str(o: Option<&str>) -> Option<Seq<char>> {
    match o {
        Some(s) => Some(s@),
        None => None,
    }
}

/// `d` lists the registry's repos in order, paths expanded against
/// `home`, and its non-empty active repo.
pub open spec fn discovered_is(
    d: Discovered,
    active: Option<Option<String>>,
    repos: Seq<(String, String)>,
    home: Option<Seq<char>>,
) -> bool {
    &&& d.repos@.len() == repos.len()
    &&& forall|i: int|
        0 <= i < repos.len() ==> (#[trigger] d.repos@[i]).name@ == repos[i].0@ && d.repos@[i].path@
            == lenient_path(repos[i].1@, home)
    &&& match d.active {
        Some(a) => active_of(active) == Some(a@),
        None => active_of(active) is None,
    }
}

/// What a parsed registry lists: nothing for a registry of a version newer
/// than 1; else its repos in order, paths expanded, and its non-empty
/// active repo.
pub fn discovered_from(
    version: Option<u32>,
    active: Option<Option<String>>,
    repos: Vec<(String, String)>,
    home: Option<&str>,
) -> (r: Option<Discovered>)
    ensures
        newer_registry(version) ==> r is None,
        !newer_registry(version) ==> (r matches Some(d) && discovered_is(d, active, repos@, opt_str(home))),
{
    let v: u32 = match version {
        Some(v) => v,
        None => 1,
    };
    if v > 1 {
        return None;
    }
    let mut out: Vec<DiscoveredRepo> = Vec::new();
    let n: usize = repos.len();
    let mut i: usize = 0;
    while i < n
        invariant
            n == repos@.len(),
            i <= n,
            out@.len() == i,
            forall|k: int|
                0 <= k < i ==> (#[trigger] out@[k]).name@ == repos@[k].0@ && out@[k].path@
                    == lenient_path(repos@[k].1@, opt_str(home)),
        decreases n - i,
    {
        let path = canonicalize_lenient(repos[i].1.as_str(), home);
        out.push(DiscoveredRepo { name: copy_string(&repos[i].0), path });
        i = i + 1;
    }
    let active = match active {
        Some(Some(a)) => if chars_of(a.as_str()).len() > 0 {
            Some(a)
        } else {
            None
        },
        _ => None,
    };
    Some(Discovered { repos: out, active })
}

// ---------------------------------------------------------------------------
// Spawned servers
// ---------------------------------------------------------------------------

/// The address a server's log line announces: the first word after
/// `listening on `, if it holds a `:`.
pub open spec fn listening_addr(line: Seq<char>) -> Option<Seq<char>> {
    match find_from(line, "listening on "@, 0) {
        None => None,
        Some(k) => {
            let ws = words(line.skip(k + 13));
            if ws.len() > 0 && ws[0].contains(':') {
                Some(ws[0])
            } else {
                None
            }
        },
    }
}

/// Extracts the `host:port` of a "listening on host:port" log line.
pub fn extract_listening_addr(line: &str) -> (r: Option<String>)
    ensures
        match listening_addr(line@) {
            Some(a) => r matches Some(s) && s@ == a,
            None => r is None,
        },
{
    proof {
        reveal_strlit("listening on ");
    }
    let cs = chars_of(line);
    let len: usize = cs.len();
    let pat = chars_of("listening on ");
    match find_from_exec(&cs, &pat, 0) {
        None => None,
        Some(k) => {
            proof {
                lemma_find_from(cs@, pat@, 0);
                assert(pat@.len() == 13);
                assert(k + 13 <= cs@.len());
            }
            let rest = slice_chars(&cs, k + 13, len);
            assert(rest@ =~= line@.skip(k + 13));
            let ws = words_exec(&rest);
            if ws.len() > 0 && has_char(&ws[0], ':') {
                Some(string_of(&ws[0]))
            } else {
                None
            }
        },
    }
}

} // verus!
