//! Requests of the memory tools and what each one writes to the graph:
//! the path, commit message and value of every write, decided before the
//! graph is touched.

use vstd::prelude::*;

use crate::memory::{slug, slugify, truncate_utf8, truncated, RememberParams, MAX_FACT_LEN};
use crate::recall::{insert_name, names_ascending};
use crate::text::{
    chars_of, copy_string, decimal, decimal_exec, has_prefix, join_strings, joined, owned, padded,
    padded_exec, push_chars, push_decimal, push_str, slice_chars, starts_with, string_byte_len,
    string_of, utf8_len, views,
};

verus! {

// ---------------------------------------------------------------------------
// Parameter types
// ---------------------------------------------------------------------------

/// A recall request.
#[derive(Debug)]
pub struct RecallParams {
    /// Topic to search for.
    pub topic: String,
    /// Maximum token budget for the response (default 1500).
    pub budget: usize,
    /// Branch to search (default `main`).
    pub ref_name: String,
    /// Path prefix the results must lie under.
    pub scope: Option<String>,
}

/// A request for a project's whole context tree.
#[derive(Debug)]
pub struct ContextParams {
    pub project: String,
    pub ref_name: String,
}

/// An end-of-session summary.
#[derive(Debug)]
pub struct SummarizeSessionParams {
    pub session_id: String,
    pub key_points: Vec<String>,
    pub decisions: Vec<String>,
}

/// A request for the changes since an ISO 8601 time.
#[derive(Debug)]
pub struct WhatChangedSinceParams {
    pub since: String,
}

/// A request to trace a decision.
#[derive(Debug)]
pub struct WhyDidWeParams {
    pub decision: String,
}

/// One pre-parsed markdown section to prime.
#[derive(Debug)]
pub struct PrimeSectionParam {
    /// Section title (used as a stable path slug).
    pub title: String,
    /// Section body.
    pub body: String,
}

/// LLM token usage reported by an agent.
#[derive(Debug)]
pub struct RecordLlmUsageParams {
    pub input_tokens: u64,
    pub output_tokens: u64,
    pub cache_read_tokens: u64,
    pub cache_create_tokens: u64,
    pub model: Option<String>,
    pub provider: Option<String>,
}

/// A request to load markdown sections as pinned or primed memories.
#[derive(Debug)]
pub struct PrimeParams {
    /// Source name grouping the sections.
    pub source: String,
    /// Pinned (always recalled) rather than primed (searchable).
    pub pinned: bool,
    pub sections: Vec<PrimeSectionParam>,
    pub ref_name: String,
}

/// A request to forget a path.
#[derive(Debug)]
pub struct ForgetParams {
    pub path: String,
    pub reason: String,
    pub ref_name: String,
}

/// Lists branches; takes no parameters.
#[derive(Debug)]
pub struct BranchListParams {}

/// A request to create a branch.
#[derive(Debug)]
pub struct BranchCreateParams {
    pub name: String,
    /// Source ref (default `main`).
    pub from: String,
}

/// A request to list taints.
#[derive(Debug)]
pub struct TaintListParams {
    pub path_prefix: Option<String>,
    /// taint | quarantine | watch.
    pub kind: Option<String>,
    pub include_resolved: bool,
}

/// A request to apply a taint, quarantine or watch.
#[derive(Debug)]
pub struct TaintApplyParams {
    pub path: String,
    pub name: String,
    /// taint | quarantine | watch.
    pub kind: String,
    /// warn | block | review | isolate | advisory (taints only).
    pub effect: Option<String>,
    /// low | medium | high | critical (default medium).
    pub severity: Option<String>,
    pub reason: String,
    pub agent_id: String,
    pub ref_name: String,
    /// Agents a quarantine lets through.
    pub authorized_agents: Option<Vec<String>>,
}

/// A request to resolve a taint.
#[derive(Debug)]
pub struct TaintRemoveParams {
    pub taint_id: String,
    pub reason: String,
    pub agent_id: String,
    pub ref_name: String,
}

/// A request to read the value at a path.
#[derive(Debug)]
pub struct GetStateParams {
    pub path: String,
    pub ref_name: String,
}

/// A request to list paths under a prefix.
#[derive(Debug)]
pub struct ListPathsParams {
    pub prefix: String,
    pub max_depth: Option<usize>,
    pub ref_name: String,
}

/// A substring search over stored values.
#[derive(Debug)]
pub struct SearchValuesParams {
    pub query: String,
    pub max_results: Option<usize>,
    pub ref_name: String,
}

/// A request for the commit log.
#[derive(Debug)]
pub struct GetLogParams {
    pub limit: usize,
    pub ref_name: String,
}

/// A request for the blame of a path.
#[derive(Debug)]
pub struct GetBlameParams {
    pub path: String,
    pub ref_name: String,
}

/// A request for the diff of two refs.
#[derive(Debug)]
pub struct DiffParams {
    pub ref_a: String,
    pub ref_b: String,
}

// ---------------------------------------------------------------------------
// remember
// ---------------------------------------------------------------------------

/// What a `remember` call writes.
#[derive(Debug)]
pub struct RememberWrite {
    /// `/memory/<context>/<id>`, or `/memory/facts/<id>` without a context.
    pub path: String,
    /// The stored fact, capped at `MAX_FACT_LEN` bytes.
    pub fact: String,
    /// The commit message: the stored fact capped at 512 bytes.
    pub message: String,
    /// Whether the fact was cut.
    pub truncated: bool,
    /// The byte length of the fact as given.
    pub original_bytes: usize,
}

/// The path a remembered fact with this context and id goes to.
pub open spec fn remember_path(context: Option<Seq<char>>, id: Seq<char>) -> Seq<char> {
    match context {
        Some(c) => "/memory/"@ + c + "/"@ + id,
        None => "/memory/facts/"@ + id,
    }
}

/// What a (validated) `remember` call writes under the id `id`.
pub fn remember_write(p: &RememberParams, id: &str) -> (r: RememberWrite)
    ensures
        r.path@ == remember_path(
            match p.context {
                Some(c) => Some(c@),
                None => None,
            },
            id@,
        ),
        r.fact@ == truncated(p.fact@, MAX_FACT_LEN as nat),
        r.message@ == truncated(truncated(p.fact@, MAX_FACT_LEN as nat), 512),
        r.truncated == (utf8_len(r.fact@) != utf8_len(p.fact@)),
        r.original_bytes == utf8_len(p.fact@),
{
    let fact = truncate_utf8(p.fact.as_str(), MAX_FACT_LEN);
    let message = truncate_utf8(fact.as_str(), 512);
    let original_bytes = string_byte_len(&p.fact);
    let truncated = string_byte_len(&fact) != original_bytes;
    let mut path = match &p.context {
        Some(c) => {
            let mut path = owned("/memory/");
            push_str(&mut path, c.as_str());
            push_str(&mut path, "/");
            path
        },
        None => owned("/memory/facts/"),
    };
    push_str(&mut path, id);
    proof {
        if p.context is Some {
            assert(path@ =~= remember_path(Some(p.context->0@), id@));
        } else {
            assert(path@ =~= remember_path(None, id@));
        }
    }
    RememberWrite { path, fact, message, truncated, original_bytes }
}

// ---------------------------------------------------------------------------
// prime
// ---------------------------------------------------------------------------

/// One section write of a prime.
#[derive(Debug)]
pub struct PrimeWrite {
    /// `/memory/<pinned|primed>/<source>/<slug>`.
    pub path: String,
    /// `Prime: <title>`.
    pub message: String,
    pub title: String,
    pub body: String,
}

/// What a prime writes: the agent it writes as, the tags of every commit,
/// and one write per section whose title has a non-empty slug.
#[derive(Debug)]
pub struct PrimePlan {
    /// The caller's agent with `-prime` appended.
    pub agent: String,
    /// `[namespace, source, "prime"]`.
    pub tags: Vec<String>,
    pub writes: Vec<PrimeWrite>,
}

/// `pinned` or `primed`.
pub open spec fn prime_namespace(pinned: bool) -> Seq<char> {
    if pinned {
        "pinned"@
    } else {
        "primed"@
    }
}

/// A write as (path, message, title, body).
pub open spec fn prime_write_view(w: PrimeWrite) -> (Seq<char>, Seq<char>, Seq<char>, Seq<char>) {
    (w.path@, w.message@, w.title@, w.body@)
}

/// The writes of the first `n` sections: sections with an empty slug are
/// skipped, the others go to `/memory/<ns>/<source>/<slug>` in order.
pub open spec fn prime_writes_of(
    ns: Seq<char>,
    source: Seq<char>,
    sections: Seq<PrimeSectionParam>,
    n: int,
) -> Seq<(Seq<char>, Seq<char>, Seq<char>, Seq<char>)>
    decreases n,
{
    if n <= 0 || n > sections.len() {
        Seq::empty()
    } else {
        let prev = prime_writes_of(ns, source, sections, n - 1);
        let s = sections[n - 1];
        if slug(s.title@).len() == 0 {
            prev
        } else {
            prev.push(
                (
                    "/memory/"@ + ns + "/"@ + source + "/"@ + slug(s.title@),
                    "Prime: "@ + s.title@,
                    s.title@,
                    s.body@,
                ),
            )
        }
    }
}

/// What priming `sections` from `source` as `agent_id` writes.
pub fn prime_plan(agent_id: &str, source: &str, pinned: bool, sections: &Vec<PrimeSectionParam>) -> (r:
    PrimePlan)
    ensures
        r.agent@ == agent_id@ + "-prime"@,
        views(r.tags@) == seq![prime_namespace(pinned), source@, "prime"@],
        r.writes@.map_values(|w: PrimeWrite| prime_write_view(w)) == prime_writes_of(
            prime_namespace(pinned),
            source@,
            sections@,
            sections@.len() as int,
        ),
{
    let ns = if pinned {
        "pinned"
    } else {
        "primed"
    };
    let mut agent = owned(agent_id);
    push_str(&mut agent, "-prime");
    let mut tags: Vec<String> = Vec::new();
    tags.push(owned(ns));
    tags.push(owned(source));
    tags.push(owned("prime"));
    assert(views(tags@) =~= seq![prime_namespace(pinned), source@, "prime"@]);
    let mut writes: Vec<PrimeWrite> = Vec::new();
    let n: usize = sections.len();
    let mut i: usize = 0;
    while i < n
        invariant
            n == sections@.len(),
            i <= n,
            ns@ == prime_namespace(pinned),
            writes@.map_values(|w: PrimeWrite| prime_write_view(w)) == prime_writes_of(
                ns@,
                source@,
                sections@,
                i as int,
            ),
        decreases n - i,
    {
        let sec = &sections[i];
        let sl = slugify(sec.title.as_str());
        if crate::text::chars_of(sl.as_str()).len() > 0 {
            let mut path = owned("/memory/");
            push_str(&mut path, ns);
            push_str(&mut path, "/");
            push_str(&mut path, source);
            push_str(&mut path, "/");
            push_str(&mut path, sl.as_str());
            let mut message = owned("Prime: ");
            push_str(&mut message, sec.title.as_str());
            let w = PrimeWrite {
                path,
                message,
                title: copy_string(&sec.title),
                body: copy_string(&sec.body),
            };
            let ghost before = writes@;
            writes.push(w);
            proof {
                assert(writes@.map_values(|w: PrimeWrite| prime_write_view(w)) =~= before.map_values(
                    |w: PrimeWrite| prime_write_view(w),
                ).push(prime_write_view(w)));
            }
        } else {
            proof {
                assert(sl@.len() == 0);
            }
        }
        i = i + 1;
    }
    PrimePlan { agent, tags, writes }
}

// ---------------------------------------------------------------------------
// summarize_session
// ---------------------------------------------------------------------------

/// One write of a session summary.
#[derive(Debug)]
pub struct SessionWrite {
    pub path: String,
    pub message: String,
}

/// What an end-of-session summary writes, and its reply.
#[derive(Debug)]
pub struct SessionSummaryPlan {
    /// The key points joined with `. `.
    pub summary: String,
    /// `/sessions/<id>/summary`.
    pub summary_write: SessionWrite,
    /// `/sessions/<id>/decisions`, when there are decisions.
    pub decisions_write: Option<SessionWrite>,
    /// `/sessions/<id>/details`: the key points themselves.
    pub details_write: SessionWrite,
    /// `Session '<id>' saved: <k> key points, <d> decisions`.
    pub reply: String,
}

fn session_write(id: &str, leaf: &str, what: &str) -> (r: SessionWrite)
    ensures
        r.path@ == "/sessions/"@ + id@ + leaf@,
        r.message@ == "Session "@ + id@ + what@,
{
    let mut path = owned("/sessions/");
    push_str(&mut path, id);
    push_str(&mut path, leaf);
    let mut message = owned("Session ");
    push_str(&mut message, id);
    push_str(&mut message, what);
    SessionWrite { path, message }
}

/// What summarizing a session writes and replies.
pub fn session_summary_plan(p: &SummarizeSessionParams) -> (r: SessionSummaryPlan)
    ensures
        r.summary@ == joined(views(p.key_points@), ". "@),
        r.summary_write.path@ == "/sessions/"@ + p.session_id@ + "/summary"@,
        r.summary_write.message@ == "Session "@ + p.session_id@ + " summary"@,
        match r.decisions_write {
            None => p.decisions@.len() == 0,
            Some(w) => p.decisions@.len() > 0 && w.path@ == "/sessions/"@ + p.session_id@
                + "/decisions"@ && w.message@ == "Session "@ + p.session_id@ + " decisions"@,
        },
        r.details_write.path@ == "/sessions/"@ + p.session_id@ + "/details"@,
        r.details_write.message@ == "Session "@ + p.session_id@ + " details"@,
        r.reply@ == "Session '"@ + p.session_id@ + "' saved: "@ + decimal(p.key_points@.len())
            + " key points, "@ + decimal(p.decisions@.len()) + " decisions"@,
{
    let id = p.session_id.as_str();
    let summary = join_strings(&p.key_points, ". ");
    let summary_write = session_write(id, "/summary", " summary");
    let decisions_write = if p.decisions.len() > 0 {
        Some(session_write(id, "/decisions", " decisions"))
    } else {
        None
    };
    let details_write = session_write(id, "/details", " details");
    let mut reply = owned("Session '");
    push_str(&mut reply, id);
    push_str(&mut reply, "' saved: ");
    let k = p.key_points.len();
    let d = p.decisions.len();
    push_chars(&mut reply, &decimal_exec(k as u64));
    push_str(&mut reply, " key points, ");
    push_chars(&mut reply, &decimal_exec(d as u64));
    push_str(&mut reply, " decisions");
    proof {
        assert(summary_write.path@ =~= "/sessions/"@ + p.session_id@ + "/summary"@);
        assert(summary_write.message@ =~= "Session "@ + p.session_id@ + " summary"@);
        assert(details_write.path@ =~= "/sessions/"@ + p.session_id@ + "/details"@);
        assert(details_write.message@ =~= "Session "@ + p.session_id@ + " details"@);
        if decisions_write is Some {
            assert(decisions_write->0.path@ =~= "/sessions/"@ + p.session_id@ + "/decisions"@);
            assert(decisions_write->0.message@ =~= "Session "@ + p.session_id@ + " decisions"@);
        }
    }
    SessionSummaryPlan { summary, summary_write, decisions_write, details_write, reply }
}


// ---------------------------------------------------------------------------
// Session capture
// ---------------------------------------------------------------------------

/// The largest turn payload the hub stores: 1 MiB.
pub const SESSION_TURNS_MAX_BYTES: usize = 1048576;

/// A write into a session's subtree: where, the commit's intent, and its
/// tags.
#[derive(Debug)]
pub struct CaptureWrite {
    pub path: String,
    pub intent: String,
    pub tags: Vec<String>,
}

/// A refused capture: the HTTP status and the message.
#[derive(Debug)]
pub struct CaptureError {
    pub status: u16,
    pub message: String,
}

/// How storing turn `idx` of session `sid` writes, or why a payload of
/// `payload_bytes` bytes is refused (over 1 MiB: 413).
pub fn turn_capture_write(sid: &str, idx: u32, payload_bytes: usize) -> (r: Result<CaptureWrite, CaptureError>)
    ensures
        payload_bytes > SESSION_TURNS_MAX_BYTES ==> (r matches Err(e) && e.status == 413 && e.message@
            == "turn payload "@ + decimal(payload_bytes as nat) + " bytes exceeds "@ + decimal(
            SESSION_TURNS_MAX_BYTES as nat,
        ) + " byte cap"@),
        payload_bytes <= SESSION_TURNS_MAX_BYTES ==> (r matches Ok(w) && w.path@ == "/sessions/"@
            + sid@ + "/turns/t"@ + padded(idx as nat, 4) && w.intent@ == "capture session "@ + sid@
            + " turn "@ + padded(idx as nat, 4) && views(w.tags@) == seq![
            "session:"@ + sid@,
            "turn:"@ + decimal(idx as nat),
            "kind:full-turn"@,
        ]),
{
    if payload_bytes > SESSION_TURNS_MAX_BYTES {
        let mut m = owned("turn payload ");
        push_chars(&mut m, &decimal_exec(payload_bytes as u64));
        push_str(&mut m, " bytes exceeds ");
        push_chars(&mut m, &decimal_exec(SESSION_TURNS_MAX_BYTES as u64));
        push_str(&mut m, " byte cap");
        return Err(CaptureError { status: 413, message: m });
    }
    let path = crate::hub::session_turn_path(sid, idx);
    let mut intent = owned("capture session ");
    push_str(&mut intent, sid);
    push_str(&mut intent, " turn ");
    push_chars(&mut intent, &padded_exec(idx as u64, 4));
    let mut t1 = owned("session:");
    push_str(&mut t1, sid);
    let mut t2 = owned("turn:");
    push_chars(&mut t2, &decimal_exec(idx as u64));
    let mut tags: Vec<String> = Vec::new();
    tags.push(t1);
    tags.push(t2);
    tags.push(owned("kind:full-turn"));
    proof {
        assert(views(tags@) =~= seq!["session:"@ + sid@, "turn:"@ + decimal(idx as nat), "kind:full-turn"@]);
    }
    Ok(CaptureWrite { path, intent, tags })
}

/// The body of a request naming a session: a bare JSON string, an object
/// (with its `title` field when that is a string), or anything else.
pub enum TitleBody {
    Text(String),
    Object(Option<String>),
    Other,
}

/// The title a naming request carries and how it is written, or why it is
/// refused (400).
pub fn title_capture_write(sid: &str, body: TitleBody) -> (r: Result<(String, CaptureWrite), CaptureError>)
    ensures
        match body {
            TitleBody::Text(t) => r matches Ok((title, _)) && title@ == t@,
            TitleBody::Object(Some(t)) => r matches Ok((title, _)) && title@ == t@,
            TitleBody::Object(None) => r matches Err(e) && e.status == 400 && e.message@
                == "title object must carry a string `title` field"@,
            TitleBody::Other => r matches Err(e) && e.status == 400 && e.message@
                == "title body must be a JSON string or {\"title\": \"\u{2026}\"}"@,
        },
        r matches Ok((_, w)) ==> w.path@ == "/sessions/"@ + sid@ + "/title"@ && w.intent@
            == "name session "@ + sid@ && views(w.tags@) == seq![
            "session:"@ + sid@,
            "kind:session-title"@,
        ],
{
    let title = match body {
        TitleBody::Text(t) => t,
        TitleBody::Object(Some(t)) => t,
        TitleBody::Object(None) => {
            return Err(
                CaptureError {
                    status: 400,
                    message: owned("title object must carry a string `title` field"),
                },
            );
        },
        TitleBody::Other => {
            return Err(
                CaptureError {
                    status: 400,
                    message: owned("title body must be a JSON string or {\"title\": \"\u{2026}\"}"),
                },
            );
        },
    };
    let path = crate::hub::session_title_path(sid);
    let mut intent = owned("name session ");
    push_str(&mut intent, sid);
    let mut t1 = owned("session:");
    push_str(&mut t1, sid);
    let mut tags: Vec<String> = Vec::new();
    tags.push(t1);
    tags.push(owned("kind:session-title"));
    proof {
        assert(views(tags@) =~= seq!["session:"@ + sid@, "kind:session-title"@]);
    }
    Ok((title, CaptureWrite { path, intent, tags }))
}

/// How a session's meta object is written, or why a body that is not a
/// JSON object is refused (400).
pub fn meta_capture_write(sid: &str, body_is_object: bool) -> (r: Result<CaptureWrite, CaptureError>)
    ensures
        !body_is_object ==> (r matches Err(e) && e.status == 400 && e.message@
            == "meta body must be a JSON object {source?, started_at?, updated_at?}"@),
        body_is_object ==> (r matches Ok(w) && w.path@ == "/sessions/"@ + sid@ + "/meta"@
            && w.intent@ == "session meta "@ + sid@ && views(w.tags@) == seq![
            "session:"@ + sid@,
            "kind:session-meta"@,
        ]),
{
    if !body_is_object {
        return Err(
            CaptureError {
                status: 400,
                message: owned("meta body must be a JSON object {source?, started_at?, updated_at?}"),
            },
        );
    }
    let path = crate::hub::session_meta_path(sid);
    let mut intent = owned("session meta ");
    push_str(&mut intent, sid);
    let mut t1 = owned("session:");
    push_str(&mut t1, sid);
    let mut tags: Vec<String> = Vec::new();
    tags.push(t1);
    tags.push(owned("kind:session-meta"));
    proof {
        assert(views(tags@) =~= seq!["session:"@ + sid@, "kind:session-meta"@]);
    }
    Ok(CaptureWrite { path, intent, tags })
}

/// Where a session's turns live: `/sessions/<sid>/turns/`.
pub open spec fn turns_prefix(sid: Seq<char>) -> Seq<char> {
    "/sessions/"@ + sid + "/turns/"@
}

/// `s` up to its first `/`.
pub open spec fn before_slash(s: Seq<char>) -> Seq<char>
    decreases s.len(),
{
    if s.len() == 0 || s[0] == '/' {
        Seq::empty()
    } else {
        seq![s[0]] + before_slash(s.drop_first())
    }
}

/// The turn a stored path belongs to: the turns prefix and the first
/// component after it; `None` for a path outside the session's turns.
pub open spec fn turn_root(sid: Seq<char>, p: Seq<char>) -> Option<Seq<char>> {
    let pre = turns_prefix(sid);
    if has_prefix(p, pre) {
        Some(pre + before_slash(p.skip(pre.len() as int)))
    } else {
        None
    }
}

/// The turns of the paths, in path order, with repeats.
pub open spec fn turn_roots_of(sid: Seq<char>, paths: Seq<String>) -> Seq<Seq<char>>
    decreases paths.len(),
{
    if paths.len() == 0 {
        Seq::empty()
    } else {
        let r = turn_roots_of(sid, paths.drop_last());
        match turn_root(sid, paths.last()@) {
            Some(x) => r.push(x),
            None => r,
        }
    }
}

proof fn lemma_before_slash_at(s: Seq<char>, k: int)
    requires
        0 <= k <= s.len(),
        forall|t: int| 0 <= t < k ==> s[t] != '/',
        k < s.len() ==> s[k] == '/',
    ensures
        before_slash(s) == s.take(k),
    decreases k,
{
    if k == 0 {
        assert(s.take(0) =~= Seq::<char>::empty());
    } else {
        lemma_before_slash_at(s.drop_first(), k - 1);
        assert(s.take(k) =~= seq![s[0]] + s.drop_first().take(k - 1));
    }
}

/// The characters of `cs` from `start` up to the next `/`.
pub(crate) fn before_slash_exec(cs: &Vec<char>, start: usize) -> (r: Vec<char>)
    requires
        start <= cs@.len(),
    ensures
        r@ == before_slash(cs@.skip(start as int)),
{
    let n: usize = cs.len();
    let mut k: usize = start;
    while k < n && cs[k] != '/'
        invariant
            n == cs@.len(),
            start <= k <= n,
            forall|t: int| start <= t < k ==> cs@[t] != '/',
        decreases n - k,
    {
        k = k + 1;
    }
    let first = slice_chars(cs, start, k);
    proof {
        let rest = cs@.skip(start as int);
        lemma_before_slash_at(rest, k - start);
        assert(first@ =~= rest.take(k - start));
    }
    first
}

/// The turn a path belongs to, as `turn_root` says.
fn turn_root_exec(pre: &Vec<char>, p: &String, Ghost(sid): Ghost<Seq<char>>) -> (r: Option<String>)
    requires
        pre@ == turns_prefix(sid),
    ensures
        opt_string_view(r) == turn_root(sid, p@),
{
    let cs = chars_of(p.as_str());
    if !starts_with(&cs, pre) {
        return None;
    }
    let first = before_slash_exec(&cs, pre.len());
    let mut root = string_of(pre);
    push_chars(&mut root, &first);
    Some(root)
}

/// An optional string's view.
pub open spec fn opt_string_view(o: Option<String>) -> Option<Seq<char>> {
    match o {
        Some(s) => Some(s@),
        None => None,
    }
}

/// The turns stored for session `sid` among `paths` (a listing of the
/// paths under its turns): one entry per turn, in ascending order.
pub fn turn_roots(sid: &str, paths: &Vec<String>) -> (r: Vec<String>)
    ensures
        names_ascending(views(r@)),
        views(r@).to_set() == turn_roots_of(sid@, paths@).to_set(),
{
    let mut pre_s = owned("/sessions/");
    push_str(&mut pre_s, sid);
    push_str(&mut pre_s, "/turns/");
    let pre = chars_of(pre_s.as_str());
    let mut r: Vec<String> = Vec::new();
    let n: usize = paths.len();
    let mut i: usize = 0;
    proof {
        assert(views(r@).to_set() =~= turn_roots_of(sid@, paths@.take(0)).to_set());
    }
    while i < n
        invariant
            n == paths@.len(),
            i <= n,
            pre@ == turns_prefix(sid@),
            names_ascending(views(r@)),
            views(r@).to_set() == turn_roots_of(sid@, paths@.take(i as int)).to_set(),
        decreases n - i,
    {
        proof {
            assert(paths@.take(i + 1).drop_last() =~= paths@.take(i as int));
            assert(paths@.take(i + 1).last() == paths@[i as int]);
        }
        match turn_root_exec(&pre, &paths[i], Ghost(sid@)) {
            Some(root) => {
                let ghost x = root@;
                insert_name(&mut r, root);
                proof {
                    turn_roots_of(sid@, paths@.take(i as int)).lemma_push_to_set_commute(x);
                }
            },
            None => {},
        }
        i = i + 1;
    }
    proof {
        assert(paths@.take(n as int) =~= paths@);
    }
    r
}

} // verus!
