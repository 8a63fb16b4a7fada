//! The HTTP surface's decisions: which browser origins may call the hub,
//! bearer-token checks, the graph paths the endpoints write, the taint
//! vocabulary, and the request defaults.

use vstd::prelude::*;

use crate::identity::split_on;
use crate::text::{
    chars_of, find_from, find_from_exec, has_prefix, lower_chars, lower_seq, owned, padded,
    push_chars, push_str, slice_chars, str_eq, string_of,
};

verus! {

// ---------------------------------------------------------------------------
// Origins
// ---------------------------------------------------------------------------

/// An origin without its scheme: what follows the first `://`, or all of it.
pub open spec fn after_scheme(o: Seq<char>) -> Seq<char> {
    match find_from(o, "://"@, 0) {
        Some(k) => o.skip(k + "://"@.len()),
        None => o,
    }
}

/// The authority (`host[:port]`) of an `Origin` value, lowercased; `None`
/// for an empty one or the opaque `null`.
pub open spec fn authority_of(o: Seq<char>) -> Option<Seq<char>> {
    let a = split_on(after_scheme(o), '/')[0];
    if a.len() == 0 || lower_seq(a) == "null"@ {
        None
    } else {
        Some(lower_seq(a))
    }
}

/// The authority of an `Origin` header value, lowercased and with the
/// scheme stripped; `None` for opaque origins like `null`.
pub fn origin_authority(origin: &str) -> (r: Option<String>)
    ensures
        match r {
            Some(a) => authority_of(origin@) == Some(a@),
            None => authority_of(origin@) is None,
        },
{
    let cs = chars_of(origin);
    let sep = chars_of("://");
    let rest = match find_from_exec(&cs, &sep, 0) {
        Some(k) => {
            proof {
                crate::text::lemma_find_from(cs@, sep@, 0);
            }
            let n: usize = cs.len();
            slice_chars(&cs, k + sep.len(), n)
        },
        None => slice_chars(&cs, 0, cs.len()),
    };
    assert(rest@ =~= after_scheme(origin@));
    let pieces = crate::identity::split_exec(string_of(&rest).as_str(), '/');
    let a = &pieces[0];
    let la = lower_chars(a);
    if a.len() == 0 || crate::text::chars_eq(&la, &chars_of("null")) {
        None
    } else {
        Some(string_of(&la))
    }
}

/// Whether a browser `Origin` may call the hub: same-origin (its authority
/// is the request's `Host`) always may; otherwise it must be in the
/// allow-list, by the whole origin (any ASCII case) or by authority.
pub open spec fn origin_allowed(origin: Seq<char>, host: Option<Seq<char>>, allow: Seq<Seq<char>>) -> bool {
    match authority_of(origin) {
        None => false,
        Some(auth) => {
            ||| (host is Some && auth == lower_seq(host->0))
            ||| exists|i: int|
                0 <= i < allow.len() && (lower_seq(#[trigger] allow[i]) == lower_seq(origin)
                    || authority_of(allow[i]) == Some(auth))
        },
    }
}

/// Whether a browser `Origin` may call the hub.
pub fn origin_is_allowed(origin: &str, host: Option<&str>, allow: &Vec<String>) -> (r: bool)
    ensures
        r == origin_allowed(
            origin@,
            match host {
                Some(h) => Some(h@),
                None => None,
            },
            allow@.map_values(|a: String| a@),
        ),
{
    let ghost av = allow@.map_values(|a: String| a@);
    match origin_authority(origin) {
        None => false,
        Some(auth) => {
            if let Some(h) = host {
                let lh = lower_chars(&chars_of(h));
                if crate::text::chars_eq(&chars_of(auth.as_str()), &lh) {
                    return true;
                }
            }
            let lo = lower_chars(&chars_of(origin));
            let n: usize = allow.len();
            let mut i: usize = 0;
            while i < n
                invariant
                    n == allow@.len(),
                    av == allow@.map_values(|a: String| a@),
                    lo@ == lower_seq(origin@),
                    authority_of(origin@) == Some(auth@),
                    i <= n,
                    forall|k: int|
                        0 <= k < i ==> !(lower_seq(#[trigger] av[k]) == lower_seq(origin@)
                            || authority_of(av[k]) == Some(auth@)),
                decreases n - i,
            {
                let a = &allow[i];
                assert(av[i as int] == a@);
                let la = lower_chars(&chars_of(a.as_str()));
                if crate::text::chars_eq(&la, &lo) {
                    return true;
                }
                match origin_authority(a.as_str()) {
                    Some(aa) => if str_eq(aa.as_str(), auth.as_str()) {
                        return true;
                    },
                    None => {},
                }
                i = i + 1;
            }
            false
        },
    }
}

// ---------------------------------------------------------------------------
// Bearer tokens
// ---------------------------------------------------------------------------

proof fn lemma_or_xor_zero(d: u8, x: u8, y: u8)
    ensures
        ((d | (x ^ y)) == 0) == (d == 0 && x == y),
{
    assert(((d | (x ^ y)) == 0) == (d == 0 && x == y)) by (bit_vector);
}

/// Compares a presented token with the expected one without stopping at
/// the first difference, so timing does not reveal how much matched: true
/// exactly when the two tokens are the same bytes. Every byte of the
/// presented token is looked at, whatever the lengths.
pub fn constant_time_eq(provided: &str, expected: &str) -> (r: bool)
    ensures
        r == (vstd::utf8::encode_utf8(provided@) == vstd::utf8::encode_utf8(expected@)),
{
    let a: &[u8] = provided.as_bytes();
    let b: &[u8] = expected.as_bytes();
    let ghost av = vstd::utf8::encode_utf8(provided@);
    let ghost bv = vstd::utf8::encode_utf8(expected@);
    let na: usize = a.len();
    let nb: usize = b.len();
    let mut diff: u8 = if na == nb {
        0
    } else {
        1
    };
    let mut i: usize = 0;
    while i < na
        invariant
            a@ == av,
            b@ == bv,
            na == av.len(),
            nb == bv.len(),
            i <= na,
            (diff == 0) == (na == nb && forall|j: int|
                0 <= j < i ==> #[trigger] av[j] == (if j < nb {
                    bv[j]
                } else {
                    0u8
                })),
        decreases na - i,
    {
        let other: u8 = if i < nb {
            b[i]
        } else {
            0
        };
        proof {
            lemma_or_xor_zero(diff, a@[i as int], other);
        }
        diff = diff | (a[i] ^ other);
        proof {
            assert forall|j: int| 0 <= j < i + 1 && (diff == 0) implies #[trigger] av[j] == (if j
                < nb {
                bv[j]
            } else {
                0u8
            }) by {}
        }
        i = i + 1;
    }
    proof {
        if diff == 0 {
            assert(av =~= bv);
        }
    }
    diff == 0
}

/// Whether the bearer-auth gate lets a request through: always without a
/// configured token or from a loopback peer; otherwise only with an
/// `Authorization: Bearer <token>` header whose token compares equal.
pub open spec fn auth_allows_spec(token: Option<Seq<char>>, loopback: bool, authorization: Option<Seq<char>>) -> bool {
    ||| token is None
    ||| loopback
    ||| (authorization is Some && has_prefix(authorization->0, "Bearer "@) && vstd::utf8::encode_utf8(
        authorization->0.skip("Bearer "@.len() as int),
    ) == vstd::utf8::encode_utf8(token->0))
}

/// Whether the bearer-auth gate lets a request through.
pub fn auth_allows(token: Option<&str>, loopback: bool, authorization: Option<&str>) -> (r: bool)
    ensures
        r == auth_allows_spec(
            match token {
                Some(t) => Some(t@),
                None => None,
            },
            loopback,
            match authorization {
                Some(a) => Some(a@),
                None => None,
            },
        ),
{
    let t = match token {
        None => {
            return true;
        },
        Some(t) => t,
    };
    if loopback {
        return true;
    }
    match authorization {
        None => false,
        Some(h) => {
            let hc = chars_of(h);
            let pfx = chars_of("Bearer ");
            if crate::text::starts_with(&hc, &pfx) {
                let rest = string_of(&slice_chars(&hc, pfx.len(), hc.len()));
                assert(rest@ =~= h@.skip("Bearer "@.len() as int));
                constant_time_eq(rest.as_str(), t)
            } else {
                false
            }
        },
    }
}

// ---------------------------------------------------------------------------
// Graph paths
// ---------------------------------------------------------------------------

/// Where a task's cross-plan links live: `/plan_links/<plan>/<task>`.
pub fn plan_link_path(plan: &str, task: &str) -> (r: String)
    ensures
        r@ == "/plan_links/"@ + plan@ + "/"@ + task@,
{
    let mut s = owned("/plan_links/");
    push_str(&mut s, plan);
    push_str(&mut s, "/");
    push_str(&mut s, task);
    s
}

/// Where a session's turn lives: `/sessions/<sid>/turns/t<idx>`, the
/// index zero-padded to four digits.
pub fn session_turn_path(sid: &str, idx: u32) -> (r: String)
    ensures
        r@ == "/sessions/"@ + sid@ + "/turns/t"@ + padded(idx as nat, 4),
{
    let mut s = owned("/sessions/");
    push_str(&mut s, sid);
    push_str(&mut s, "/turns/t");
    push_chars(&mut s, &crate::text::padded_exec(idx as u64, 4));
    s
}

/// Where a session's title lives: `/sessions/<sid>/title`.
pub fn session_title_path(sid: &str) -> (r: String)
    ensures
        r@ == "/sessions/"@ + sid@ + "/title"@,
{
    let mut s = owned("/sessions/");
    push_str(&mut s, sid);
    push_str(&mut s, "/title");
    s
}

/// Where a session's meta lives: `/sessions/<sid>/meta`.
pub fn session_meta_path(sid: &str) -> (r: String)
    ensures
        r@ == "/sessions/"@ + sid@ + "/meta"@,
{
    let mut s = owned("/sessions/");
    push_str(&mut s, sid);
    push_str(&mut s, "/meta");
    s
}

/// The slug of a registered doc path: the path lowercased with runs of
/// other characters than ASCII letters and digits turned into one `-`, no
/// `-` at either end.
pub fn doc_slug(path: &str) -> (r: String)
    ensures
        r@ == crate::memory::slug(path@),
        crate::memory::is_slug(r@),
{
    crate::memory::slugify(path)
}

/// Where registering the doc at `path` writes and the commit's intent, or
/// the refusal (400) of a path with an empty slug.
pub fn doc_register_write(path: &str) -> (r: Result<(String, String), (u16, String)>)
    ensures
        crate::memory::slug(path@).len() == 0 ==> (r matches Err((status, m)) && status == 400 && m@
            == "path is required"@),
        crate::memory::slug(path@).len() > 0 ==> (r matches Ok((at, intent)) && at@ == "/docs/"@
            + crate::memory::slug(path@) && intent@ == "register doc "@ + path@),
{
    let slug = doc_slug(path);
    if chars_of(slug.as_str()).len() == 0 {
        return Err((400, owned("path is required")));
    }
    let mut at = owned("/docs/");
    push_str(&mut at, slug.as_str());
    let mut intent = owned("register doc ");
    push_str(&mut intent, path);
    Ok((at, intent))
}

/// The slug a stored doc path belongs to: the first component after
/// `/docs/`, when that is not empty.
pub open spec fn doc_slug_of(p: Seq<char>) -> Option<Seq<char>> {
    if has_prefix(p, "/docs/"@) {
        let f = crate::requests::before_slash(p.skip("/docs/"@.len() as int));
        if f.len() > 0 {
            Some(f)
        } else {
            None
        }
    } else {
        None
    }
}

/// The slugs of the paths, in path order, with repeats.
pub open spec fn doc_slugs_of(paths: Seq<String>) -> Seq<Seq<char>>
    decreases paths.len(),
{
    if paths.len() == 0 {
        Seq::empty()
    } else {
        let r = doc_slugs_of(paths.drop_last());
        match doc_slug_of(paths.last()@) {
            Some(x) => r.push(x),
            None => r,
        }
    }
}

/// The registered docs among `paths` (a listing under `/docs`): each
/// slug once, in ascending order.
pub fn doc_slugs(paths: &Vec<String>) -> (r: Vec<String>)
    ensures
        crate::recall::names_ascending(crate::text::views(r@)),
        crate::text::views(r@).to_set() == doc_slugs_of(paths@).to_set(),
{
    proof {
        reveal_strlit("/docs/");
    }
    let pre = chars_of("/docs/");
    let mut r: Vec<String> = Vec::new();
    let n: usize = paths.len();
    let mut i: usize = 0;
    proof {
        assert(crate::text::views(r@).to_set() =~= doc_slugs_of(paths@.take(0)).to_set());
    }
    while i < n
        invariant
            n == paths@.len(),
            i <= n,
            pre@ == "/docs/"@,
            crate::recall::names_ascending(crate::text::views(r@)),
            crate::text::views(r@).to_set() == doc_slugs_of(paths@.take(i as int)).to_set(),
        decreases n - i,
    {
        proof {
            assert(paths@.take(i + 1).drop_last() =~= paths@.take(i as int));
            assert(paths@.take(i + 1).last() == paths@[i as int]);
        }
        let cs = chars_of(paths[i].as_str());
        if crate::text::starts_with(&cs, &pre) {
            let first = crate::requests::before_slash_exec(&cs, pre.len());
            if first.len() > 0 {
                let ghost x = first@;
                crate::recall::insert_name(&mut r, string_of(&first));
                proof {
                    doc_slugs_of(paths@.take(i as int)).lemma_push_to_set_commute(x);
                }
            }
        }
        i = i + 1;
    }
    proof {
        assert(paths@.take(n as int) =~= paths@);
    }
    r
}

// ---------------------------------------------------------------------------
// Request defaults
// ---------------------------------------------------------------------------

/// The branch a request targets unless it names one.
pub fn default_ref() -> (r: String)
    ensures
        r@ == "main"@,
{
    owned("main")
}

/// The importance a remembered fact gets unless given one.
pub fn default_importance() -> (r: String)
    ensures
        r@ == "medium"@,
{
    owned("medium")
}

/// The description of a merge unless given one.
pub fn default_merge_description() -> (r: String)
    ensures
        r@ == "Merge"@,
{
    owned("Merge")
}

/// The reason recorded when a fact is forgotten through the REST surface.
pub fn default_forget_reason() -> (r: String)
    ensures
        r@ == "forgotten by user"@,
{
    owned("forgotten by user")
}

/// The default of the boolean request flags that default on.
pub fn default_true() -> (r: bool)
    ensures
        r,
{
    true
}


// ---------------------------------------------------------------------------
// Hub configuration
// ---------------------------------------------------------------------------

/// Runtime configuration of the HTTP hub. The default has rate limiting
/// off, no ASD repos, no `/mcp` surface, no auth token and no extra
/// origins.
#[derive(Clone, Debug)]
pub struct HubConfig {
    /// Requests per minute per peer IP; 0 disables rate limiting.
    pub rate_limit_rpm: u32,
    /// ASD repos with known base URLs: (name, base URL).
    pub asd_repos: Vec<(String, String)>,
    /// ASD repos the process pool manages: (name, db path).
    pub asd_pool_repos: Vec<(String, String)>,
    /// Path of the `asd-serve` binary (default: found on PATH).
    pub asd_serve_binary: Option<String>,
    /// Idle seconds before a spawned `asd-serve` is stopped.
    pub asd_idle_timeout_secs: Option<u64>,
    /// Whether to serve the MCP tools at `/mcp`.
    pub mcp_http: bool,
    /// Agent id of commits made through `/mcp`.
    pub agent_id: String,
    /// Bearer token guarding non-loopback requests.
    pub auth_token: Option<String>,
    /// Browser origins allowed beyond same-origin.
    pub allowed_origins: Vec<String>,
    /// Path of the `ctx` CLI used by session sync (default: `ctx` on PATH).
    pub ctx_binary: Option<String>,
    /// The hub's own loopback base URL, for session sync.
    pub self_base_url: Option<String>,
}

impl Default for HubConfig {
    fn default() -> (r: HubConfig)
        ensures
            r.rate_limit_rpm == 0,
            r.asd_repos@.len() == 0,
            r.asd_pool_repos@.len() == 0,
            r.asd_serve_binary is None,
            r.asd_idle_timeout_secs is None,
            !r.mcp_http,
            r.agent_id@.len() == 0,
            r.auth_token is None,
            r.allowed_origins@.len() == 0,
            r.ctx_binary is None,
            r.self_base_url is None,
    {
        HubConfig {
            rate_limit_rpm: 0,
            asd_repos: Vec::new(),
            asd_pool_repos: Vec::new(),
            asd_serve_binary: None,
            asd_idle_timeout_secs: None,
            mcp_http: false,
            agent_id: String::new(),
            auth_token: None,
            allowed_origins: Vec::new(),
            ctx_binary: None,
            self_base_url: None,
        }
    }
}

// ---------------------------------------------------------------------------
// Session sync
// ---------------------------------------------------------------------------

/// How session sync runs the `ctx` CLI: the binary and its arguments.
#[derive(Debug)]
pub struct SyncCommand {
    pub program: String,
    pub args: Vec<String>,
}

/// The arguments of the sync run: ingest every transcript with full turns
/// into the hub at `base_url`, in namespace `ns`, on branch `main`.
pub open spec fn sync_args_of(base_url: Seq<char>, ns: Seq<char>) -> Seq<Seq<char>> {
    seq![
        "ingest-session"@,
        "--all"@,
        "--full-turn"@,
        "--server"@,
        base_url,
        "--namespace"@,
        ns,
        "--branch"@,
        "main"@,
    ]
}

/// The command a session sync runs: the configured `ctx` binary (else
/// `ctx`), pointed at the hub's own URL (else `http://127.0.0.1:3001`).
pub fn sync_command(ctx_binary: Option<&str>, self_base_url: Option<&str>, ns: &str) -> (r: SyncCommand)
    ensures
        r.program@ == match ctx_binary {
            Some(b) => b@,
            None => "ctx"@,
        },
        crate::text::views(r.args@) == sync_args_of(
            match self_base_url {
                Some(u) => u@,
                None => "http://127.0.0.1:3001"@,
            },
            ns@,
        ),
{
    let program = match ctx_binary {
        Some(b) => owned(b),
        None => owned("ctx"),
    };
    let base = match self_base_url {
        Some(u) => owned(u),
        None => owned("http://127.0.0.1:3001"),
    };
    let mut args: Vec<String> = Vec::new();
    args.push(owned("ingest-session"));
    args.push(owned("--all"));
    args.push(owned("--full-turn"));
    args.push(owned("--server"));
    args.push(base);
    args.push(owned("--namespace"));
    args.push(owned(ns));
    args.push(owned("--branch"));
    args.push(owned("main"));
    proof {
        let b = match self_base_url {
            Some(u) => u@,
            None => "http://127.0.0.1:3001"@,
        };
        assert(crate::text::views(args@) =~= sync_args_of(b, ns@));
    }
    SyncCommand { program, args }
}

/// The message when the `ctx` binary is missing.
pub fn sync_not_found_message(ctx_bin: &str) -> (r: String)
    ensures
        r@ == "ctx binary not found ('"@ + ctx_bin@
            + "'); set --ctx-binary. Session sync runs the local CLI and requires a co-located hub."@,
{
    let mut s = owned("ctx binary not found ('");
    push_str(&mut s, ctx_bin);
    push_str(
        &mut s,
        "'); set --ctx-binary. Session sync runs the local CLI and requires a co-located hub.",
    );
    s
}

/// The last (at most) five lines of `stderr`, newest first, joined with
/// ` | `.
pub open spec fn stderr_tail_of(stderr: Seq<char>) -> Seq<char> {
    let ls = crate::text::lines(stderr).reverse();
    crate::text::joined(ls.take(if ls.len() < 5 { ls.len() as int } else { 5 }), " | "@)
}

/// The message when the sync run fails: its exit code (or `signal`) and
/// the tail of its stderr.
pub fn sync_failure_message(code: Option<i32>, stderr: &str) -> (r: String)
    ensures
        r@ == "ctx ingest-session exited "@ + match code {
            Some(c) => crate::text::signed_decimal(c as int),
            None => "signal"@,
        } + ": "@ + stderr_tail_of(stderr@),
{
    let ls = crate::text::lines_exec(&chars_of(stderr));
    let n: usize = ls.len();
    let take: usize = if n < 5 {
        n
    } else {
        5
    };
    let mut picked: Vec<String> = Vec::new();
    let mut i: usize = 0;
    while i < take
        invariant
            n == ls@.len(),
            take <= n,
            take == (if n < 5 { n } else { 5 }),
            i <= take,
            crate::text::views(picked@) =~= Seq::new(
                i as nat,
                |k: int| ls@[n - 1 - k]@,
            ),
        decreases take - i,
    {
        let ghost before = picked@;
        picked.push(string_of(&ls[n - 1 - i]));
        assert(crate::text::views(picked@) =~= crate::text::views(before).push(ls@[n - 1 - i]@));
        i = i + 1;
    }
    proof {
        let lsv = crate::text::lines(stderr@);
        assert(ls@.len() == lsv.len());
        assert(crate::text::views(picked@) =~= lsv.reverse().take(take as int));
    }
    let tail = crate::text::join_strings(&picked, " | ");
    let mut s = owned("ctx ingest-session exited ");
    match code {
        Some(c) => push_chars(&mut s, &crate::text::signed_decimal_exec(c)),
        None => push_str(&mut s, "signal"),
    }
    push_str(&mut s, ": ");
    push_str(&mut s, tail.as_str());
    s
}

/// The message when the sync run times out.
pub fn sync_timeout_message(secs: u64) -> (r: String)
    ensures
        r@ == "session sync timed out after "@ + crate::text::decimal(secs as nat)
            + "s (ctx ingest-session --all still running)"@,
{
    let mut s = owned("session sync timed out after ");
    crate::text::push_decimal(&mut s, secs);
    push_str(&mut s, "s (ctx ingest-session --all still running)");
    s
}

/// The counts the sync run reports: from the last stdout line that is a
/// JSON object carrying `sessions` (a missing or non-integer count reads
/// as 0), or zeros when there is none. Each line is given as what reading
/// it as such an object gave (`None`: not one).
pub open spec fn sync_counts_of(lines: Seq<Option<(Option<u64>, Option<u64>, Option<u64>)>>) -> (
    u64,
    u64,
    u64,
)
    decreases lines.len(),
{
    if lines.len() == 0 {
        (0, 0, 0)
    } else {
        match lines.last() {
            Some(c) => (
                match c.0 {
                    Some(v) => v,
                    None => 0,
                },
                match c.1 {
                    Some(v) => v,
                    None => 0,
                },
                match c.2 {
                    Some(v) => v,
                    None => 0,
                },
            ),
            None => sync_counts_of(lines.drop_last()),
        }
    }
}

/// The (sessions, turns, tokens) a sync run reported.
pub fn sync_counts(lines: &Vec<Option<(Option<u64>, Option<u64>, Option<u64>)>>) -> (r: (u64, u64, u64))
    ensures
        r == sync_counts_of(lines@),
{
    let mut j: usize = lines.len();
    assert(lines@.take(j as int) =~= lines@);
    while j > 0
        invariant
            j <= lines@.len(),
            sync_counts_of(lines@) == sync_counts_of(lines@.take(j as int)),
        decreases j,
    {
        assert(lines@.take(j as int).drop_last() =~= lines@.take(j - 1));
        match lines[j - 1] {
            Some(c) => {
                let s = match c.0 {
                    Some(v) => v,
                    None => 0,
                };
                let t = match c.1 {
                    Some(v) => v,
                    None => 0,
                };
                let k = match c.2 {
                    Some(v) => v,
                    None => 0,
                };
                return (s, t, k);
            },
            None => {},
        }
        j = j - 1;
    }
    (0, 0, 0)
}


/// What `serde_json::from_str::<serde_json::Value>` makes of `line`, looked
/// up at `key` (`Value::get`) and read with `Value::as_u64`: `None` when
/// the line does not parse or has no such key, else whether the entry is
/// an unsigned integer and which.
pub uninterp spec fn json_u64_at(line: Seq<char>, key: Seq<char>) -> Option<Option<u64>>;

/// Looks `key` up in a JSON line with `serde_json`; the result is what
/// [`json_u64_at`] names.
#[verifier::external_body]
fn read_json_u64(line: &str, key: &str) -> (r: Option<Option<u64>>)
    ensures
        r == json_u64_at(line@, key@),
{
    serde_json::from_str::<serde_json::Value>(line).ok().and_then(|v| v.get(key).map(|x| x.as_u64()))
}

/// A line of the sync run's output read as its summary: `None` unless it
/// is a JSON object carrying `sessions`; else the `sessions`, `turns` and
/// `tokens` entries that are unsigned integers.
pub open spec fn sync_line_counts(line: Seq<char>) -> Option<(Option<u64>, Option<u64>, Option<u64>)> {
    match json_u64_at(line, "sessions"@) {
        None => None,
        Some(s) => Some(
            (
                s,
                match json_u64_at(line, "turns"@) {
                    Some(t) => t,
                    None => None,
                },
                match json_u64_at(line, "tokens"@) {
                    Some(k) => k,
                    None => None,
                },
            ),
        ),
    }
}

fn read_sync_line(line: &str) -> (r: Option<(Option<u64>, Option<u64>, Option<u64>)>)
    ensures
        r == sync_line_counts(line@),
{
    match read_json_u64(line, "sessions") {
        None => None,
        Some(s) => {
            let t = match read_json_u64(line, "turns") {
                Some(t) => t,
                None => None,
            };
            let k = match read_json_u64(line, "tokens") {
                Some(k) => k,
                None => None,
            };
            Some((s, t, k))
        },
    }
}

/// The (sessions, turns, tokens) that the sync run's stdout reports: from
/// its last line that, trimmed, is a JSON object carrying `sessions`.
pub fn sync_summary(stdout: &str) -> (r: (u64, u64, u64))
    ensures
        r == sync_counts_of(
            crate::text::lines(stdout@).map_values(|l: Seq<char>| sync_line_counts(crate::text::trim(l))),
        ),
{
    let ls = crate::text::lines_exec(&chars_of(stdout));
    let ghost target = crate::text::lines(stdout@).map_values(
        |l: Seq<char>| sync_line_counts(crate::text::trim(l)),
    );
    let mut read: Vec<Option<(Option<u64>, Option<u64>, Option<u64>)>> = Vec::new();
    let n: usize = ls.len();
    let mut i: usize = 0;
    while i < n
        invariant
            n == ls@.len(),
            n == crate::text::lines(stdout@).len(),
            forall|k: int| 0 <= k < n ==> #[trigger] ls@[k]@ == crate::text::lines(stdout@)[k],
            target == crate::text::lines(stdout@).map_values(
                |l: Seq<char>| sync_line_counts(crate::text::trim(l)),
            ),
            i <= n,
            read@ =~= target.take(i as int),
        decreases n - i,
    {
        let t = string_of(&crate::text::trim_exec(&ls[i]));
        let c = read_sync_line(t.as_str());
        read.push(c);
        i = i + 1;
    }
    assert(target.take(n as int) =~= target);
    sync_counts(&read)
}


// ---------------------------------------------------------------------------
// Activity heatmap
// ---------------------------------------------------------------------------

/// How many commits the activity view scans at most.
pub const ACTIVITY_SCAN_LIMIT: usize = 50000;

/// The days of history an activity request covers: 120 unless given,
/// clamped to 1..=730.
pub open spec fn activity_window(days: Option<u32>) -> i64 {
    let d = match days {
        Some(d) => d as int,
        None => 120,
    };
    (if d < 1 {
        1
    } else if d > 730 {
        730
    } else {
        d
    }) as i64
}

/// How many of the commit days are day `d`.
pub open spec fn commits_on(days: Seq<i64>, d: int) -> nat
    decreases days.len(),
{
    if days.len() == 0 {
        0
    } else {
        commits_on(days.drop_last(), d) + if days.last() == d {
            1nat
        } else {
            0nat
        }
    }
}

/// The earliest commit day, if any.
pub open spec fn oldest_day(days: Seq<i64>) -> Option<i64>
    decreases days.len(),
{
    if days.len() == 0 {
        None
    } else {
        match oldest_day(days.drop_last()) {
            Some(o) => Some(if days.last() < o { days.last() } else { o }),
            None => Some(days.last()),
        }
    }
}

/// The oldest commit seen lies inside the window starting at `cutoff`
/// (the scan never reached back past it).
pub open spec fn inside_window(oldest: Option<i64>, cutoff: int) -> bool {
    match oldest {
        Some(o) => o >= cutoff,
        None => false,
    }
}

/// Commits per day over a window ending today.
#[derive(Debug, Clone, PartialEq, Eq)]
pub struct Activity {
    /// The window's length in days.
    pub requested_days: i64,
    /// Every day of the window, oldest first, as (day since the Unix
    /// epoch, commits that day), zero-filled.
    pub days: Vec<(i64, u64)>,
    /// Days of the window with at least one commit.
    pub active_days: usize,
    /// How many commits were scanned.
    pub scanned: usize,
    /// The scan hit its limit without reaching back past the window.
    pub truncated: bool,
}

/// How many of the first `n` days had commits.
pub open spec fn active_count(days: Seq<(i64, u64)>, n: int) -> nat
    decreases n,
{
    if n <= 0 || n > days.len() {
        0
    } else {
        active_count(days, n - 1) + if days[n - 1].1 > 0 {
            1nat
        } else {
            0nat
        }
    }
}

fn count_on(days: &Vec<i64>, d: i64) -> (r: u64)
    requires
        days@.len() <= u64::MAX,
    ensures
        r == commits_on(days@, d as int),
{
    let n: usize = days.len();
    let mut c: u64 = 0;
    let mut i: usize = 0;
    while i < n
        invariant
            n == days@.len(),
            n <= u64::MAX,
            i <= n,
            c == commits_on(days@.take(i as int), d as int),
            c <= i,
        decreases n - i,
    {
        assert(days@.take(i + 1).drop_last() =~= days@.take(i as int));
        if days[i] == d {
            c = c + 1;
        }
        i = i + 1;
    }
    assert(days@.take(n as int) =~= days@);
    c
}

/// The activity heatmap from the days (since the Unix epoch) of the
/// commits scanned, today's day and the requested window: every day from
/// `today - (window - 1)` through `today` with its commit count.
pub fn activity(commit_days: &Vec<i64>, today: i64, requested: Option<u32>) -> (r: Activity)
    requires
        today >= i64::MIN + 730,
        commit_days@.len() <= u64::MAX,
    ensures
        r.requested_days == activity_window(requested),
        r.days@.len() == activity_window(requested),
        forall|i: int|
            0 <= i < r.days@.len() ==> (#[trigger] r.days@[i]).0 == today - (activity_window(requested)
                - 1) + i && r.days@[i].1 == commits_on(commit_days@, r.days@[i].0 as int),
        r.active_days == active_count(r.days@, r.days@.len() as int),
        r.scanned == commit_days@.len(),
        r.truncated == (commit_days@.len() >= ACTIVITY_SCAN_LIMIT && inside_window(
            oldest_day(commit_days@),
            today - (activity_window(requested) - 1),
        )),
{
    let window: i64 = match requested {
        Some(d) => if d < 1 {
            1
        } else if d > 730 {
            730
        } else {
            d as i64
        },
        None => 120,
    };
    let cutoff: i64 = today - (window - 1);
    let mut out: Vec<(i64, u64)> = Vec::new();
    let mut active: usize = 0;
    let mut k: i64 = 0;
    while k < window
        invariant
            1 <= window <= 730,
            window == activity_window(requested),
            cutoff == today - (window - 1),
            today >= i64::MIN + 730,
            commit_days@.len() <= u64::MAX,
            0 <= k <= window,
            out@.len() == k,
            forall|i: int|
                0 <= i < k ==> (#[trigger] out@[i]).0 == cutoff + i && out@[i].1 == commits_on(
                    commit_days@,
                    out@[i].0 as int,
                ),
            active == active_count(out@, k as int),
            active <= k,
        decreases window - k,
    {
        let d: i64 = cutoff + k;
        let c = count_on(commit_days, d);
        let ghost before = out@;
        out.push((d, c));
        assert(forall|i: int| 0 <= i < k ==> out@[i] == before[i]);
        assert(active_count(out@, k as int) == active_count(before, k as int)) by {
            lemma_active_prefix(before, out@, k as int);
        }
        if c > 0 {
            active = active + 1;
        }
        k = k + 1;
    }
    // the oldest commit day
    let n: usize = commit_days.len();
    let mut oldest: Option<i64> = None;
    let mut i: usize = 0;
    while i < n
        invariant
            n == commit_days@.len(),
            i <= n,
            oldest == oldest_day(commit_days@.take(i as int)),
        decreases n - i,
    {
        assert(commit_days@.take(i + 1).drop_last() =~= commit_days@.take(i as int));
        let d = commit_days[i];
        oldest = match oldest {
            Some(o) => Some(if d < o { d } else { o }),
            None => Some(d),
        };
        i = i + 1;
    }
    assert(commit_days@.take(n as int) =~= commit_days@);
    let truncated = n >= ACTIVITY_SCAN_LIMIT && match oldest {
        Some(o) => o >= cutoff,
        None => false,
    };
    Activity { requested_days: window, days: out, active_days: active, scanned: n, truncated }
}

proof fn lemma_active_prefix(a: Seq<(i64, u64)>, b: Seq<(i64, u64)>, k: int)
    requires
        0 <= k <= a.len(),
        k <= b.len(),
        forall|i: int| 0 <= i < k ==> a[i] == b[i],
    ensures
        active_count(a, k) == active_count(b, k),
    decreases k,
{
    if k > 0 {
        lemma_active_prefix(a, b, k - 1);
    }
}

} // verus!
