//! The taint vocabulary of the tool and HTTP surfaces: parsing kinds,
//! effects and severities, what an apply request asks for, and what a taint
//! check tells a writer.

use vstd::prelude::*;

use crate::text::{copy_string, owned, push_str, str_eq};

verus! {

/// What a taint is.
#[derive(Debug, Clone, Copy, PartialEq, Eq, Structural)]
pub enum TaintKind {
    Taint,
    Quarantine,
    Watch,
}

/// What a taint does to writes.
#[derive(Debug, Clone, Copy, PartialEq, Eq, Structural)]
pub enum TaintEffect {
    Warn,
    Block,
    Review,
    Isolate,
    Advisory,
}

/// How serious a taint is.
#[derive(Debug, Clone, Copy, PartialEq, Eq, Structural)]
pub enum TaintSeverity {
    Low,
    Medium,
    High,
    Critical,
}

/// The kind a name gives.
pub open spec fn kind_of(s: Seq<char>) -> Option<TaintKind> {
    if s == "taint"@ {
        Some(TaintKind::Taint)
    } else if s == "quarantine"@ {
        Some(TaintKind::Quarantine)
    } else if s == "watch"@ {
        Some(TaintKind::Watch)
    } else {
        None
    }
}

/// The effect a name gives.
pub open spec fn effect_of(s: Seq<char>) -> Option<TaintEffect> {
    if s == "warn"@ {
        Some(TaintEffect::Warn)
    } else if s == "block"@ {
        Some(TaintEffect::Block)
    } else if s == "review"@ {
        Some(TaintEffect::Review)
    } else if s == "isolate"@ {
        Some(TaintEffect::Isolate)
    } else if s == "advisory"@ {
        Some(TaintEffect::Advisory)
    } else {
        None
    }
}

/// The severity a name gives; none or an empty one is medium.
pub open spec fn severity_of(s: Option<Seq<char>>) -> Option<TaintSeverity> {
    match s {
        None => Some(TaintSeverity::Medium),
        Some(v) => if v.len() == 0 || v == "medium"@ {
            Some(TaintSeverity::Medium)
        } else if v == "low"@ {
            Some(TaintSeverity::Low)
        } else if v == "high"@ {
            Some(TaintSeverity::High)
        } else if v == "critical"@ {
            Some(TaintSeverity::Critical)
        } else {
            None
        },
    }
}

/// `<what>: <value>`, the message for an unknown name.
pub open spec fn invalid_text(what: Seq<char>, v: Seq<char>) -> Seq<char> {
    "invalid "@ + what + ": "@ + v
}

fn invalid_msg(what: &str, v: &str) -> (r: String)
    ensures
        r@ == invalid_text(what@, v@),
{
    let mut m = owned("invalid ");
    push_str(&mut m, what);
    push_str(&mut m, ": ");
    push_str(&mut m, v);
    m
}

/// Parses a taint kind: `taint`, `quarantine` or `watch`.
pub fn parse_taint_kind(s: &str) -> (r: Result<TaintKind, String>)
    ensures
        match r {
            Ok(k) => kind_of(s@) == Some(k),
            Err(m) => kind_of(s@) is None && m@ == invalid_text("kind"@, s@),
        },
{
    if str_eq(s, "taint") {
        Ok(TaintKind::Taint)
    } else if str_eq(s, "quarantine") {
        Ok(TaintKind::Quarantine)
    } else if str_eq(s, "watch") {
        Ok(TaintKind::Watch)
    } else {
        Err(invalid_msg("kind", s))
    }
}

/// Parses an optional taint kind filter: none or empty means any kind.
pub fn parse_taint_kind_opt(s: Option<&str>) -> (r: Result<Option<TaintKind>, String>)
    ensures
        match s {
            None => r == Ok::<Option<TaintKind>, String>(None),
            Some(v) => if v@.len() == 0 {
                r == Ok::<Option<TaintKind>, String>(None)
            } else {
                match r {
                    Ok(k) => k is Some && kind_of(v@) == k,
                    Err(m) => kind_of(v@) is None && m@ == invalid_text("kind"@, v@),
                }
            },
        },
{
    match s {
        None => Ok(None),
        Some(v) => if crate::text::chars_of(v).len() == 0 {
            Ok(None)
        } else {
            match parse_taint_kind(v) {
                Ok(k) => Ok(Some(k)),
                Err(m) => Err(m),
            }
        },
    }
}

/// Parses a taint effect: `warn`, `block`, `review`, `isolate` or
/// `advisory`.
pub fn parse_taint_effect(s: &str) -> (r: Result<TaintEffect, String>)
    ensures
        match r {
            Ok(e) => effect_of(s@) == Some(e),
            Err(m) => effect_of(s@) is None && m@ == invalid_text("effect"@, s@),
        },
{
    if str_eq(s, "warn") {
        Ok(TaintEffect::Warn)
    } else if str_eq(s, "block") {
        Ok(TaintEffect::Block)
    } else if str_eq(s, "review") {
        Ok(TaintEffect::Review)
    } else if str_eq(s, "isolate") {
        Ok(TaintEffect::Isolate)
    } else if str_eq(s, "advisory") {
        Ok(TaintEffect::Advisory)
    } else {
        Err(invalid_msg("effect", s))
    }
}

/// The characters of an optional `str`.
pub open spec fn opt_str(o: Option<&str>) -> Option<Seq<char>> {
    match o {
        Some(s) => Some(s@),
        None => None,
    }
}

/// Parses a taint severity: `low`, `medium`, `high` or `critical`; none or
/// an empty one is medium.
pub fn parse_taint_severity(s: Option<&str>) -> (r: Result<TaintSeverity, String>)
    ensures
        match r {
            Ok(v) => severity_of(opt_str(s)) == Some(v),
            Err(m) => severity_of(opt_str(s)) is None && m@ == invalid_text("severity"@, s->0@),
        },
{
    match s {
        None => Ok(TaintSeverity::Medium),
        Some(v) => if crate::text::chars_of(v).len() == 0 || str_eq(v, "medium") {
            Ok(TaintSeverity::Medium)
        } else if str_eq(v, "low") {
            Ok(TaintSeverity::Low)
        } else if str_eq(v, "high") {
            Ok(TaintSeverity::High)
        } else if str_eq(v, "critical") {
            Ok(TaintSeverity::Critical)
        } else {
            Err(invalid_msg("severity", v))
        },
    }
}

/// The name of a taint effect.
pub fn taint_effect_to_str(e: TaintEffect) -> (r: &'static str)
    ensures
        effect_of(r@) == Some(e),
{
    proof {
        reveal_strlit("warn");
        reveal_strlit("block");
        reveal_strlit("review");
        reveal_strlit("isolate");
        reveal_strlit("advisory");
    }
    match e {
        TaintEffect::Warn => "warn",
        TaintEffect::Block => {
            assert("block"@ != "warn"@) by {
                assert("block"@.len() != "warn"@.len());
            }
            "block"
        },
        TaintEffect::Review => {
            assert("review"@ != "warn"@ && "review"@ != "block"@) by {
                assert("review"@.len() != "warn"@.len() && "review"@.len() != "block"@.len());
            }
            "review"
        },
        TaintEffect::Isolate => {
            assert("isolate"@ != "warn"@ && "isolate"@ != "block"@ && "isolate"@ != "review"@) by {
                assert("isolate"@.len() != "warn"@.len() && "isolate"@.len() != "block"@.len()
                    && "isolate"@.len() != "review"@.len());
            }
            "isolate"
        },
        TaintEffect::Advisory => {
            assert("advisory"@ != "warn"@ && "advisory"@ != "block"@ && "advisory"@ != "review"@
                && "advisory"@ != "isolate"@) by {
                assert("advisory"@.len() != "warn"@.len() && "advisory"@.len() != "block"@.len()
                    && "advisory"@.len() != "review"@.len() && "advisory"@.len()
                    != "isolate"@.len());
            }
            "advisory"
        },
    }
}

// ---------------------------------------------------------------------------
// Applying a taint
// ---------------------------------------------------------------------------

/// What an apply request asks the graph for.
#[derive(Debug, Clone, Copy, PartialEq, Eq, Structural)]
pub enum ApplyRequest {
    Taint { effect: TaintEffect, severity: TaintSeverity },
    Quarantine { severity: TaintSeverity },
    Watch { severity: TaintSeverity },
}

/// What reading an apply request gives: its kind, severity and effect are
/// read in that order, and a taint (not a quarantine or watch) needs an
/// effect.
pub open spec fn apply_outcome(
    kind: Seq<char>,
    severity: Option<Seq<char>>,
    effect: Option<Seq<char>>,
    r: Result<ApplyRequest, String>,
) -> bool {
    match r {
        Ok(req) => {
            &&& kind_of(kind) is Some
            &&& severity_of(severity) is Some
            &&& match req {
                ApplyRequest::Taint { effect: e, severity: s } => kind_of(kind) == Some(TaintKind::Taint)
                    && severity_of(severity) == Some(s) && effect is Some && effect_of(effect->0)
                    == Some(e),
                ApplyRequest::Quarantine { severity: s } => kind_of(kind) == Some(TaintKind::Quarantine)
                    && severity_of(severity) == Some(s),
                ApplyRequest::Watch { severity: s } => kind_of(kind) == Some(TaintKind::Watch)
                    && severity_of(severity) == Some(s),
            }
        },
        Err(m) => if kind_of(kind) is None {
            m@ == invalid_text("kind"@, kind)
        } else if severity_of(severity) is None {
            m@ == invalid_text("severity"@, severity->0)
        } else {
            &&& kind_of(kind) == Some(TaintKind::Taint)
            &&& match effect {
                None => m@ == "effect is required for kind=taint"@,
                Some(e) => effect_of(e) is None && m@ == invalid_text("effect"@, e),
            }
        },
    }
}

/// Reads an apply request's kind, severity and effect, in that order; a
/// taint (not a quarantine or watch) needs an effect.
pub fn plan_taint_apply(kind: &str, severity: Option<&str>, effect: Option<&str>) -> (r: Result<
    ApplyRequest,
    String,
>)
    ensures
        apply_outcome(kind@, opt_str(severity), opt_str(effect), r),
{
    let k = parse_taint_kind(kind)?;
    let s = parse_taint_severity(severity)?;
    match k {
        TaintKind::Taint => {
            let es = match effect {
                Some(e) => e,
                None => {
                    return Err(owned("effect is required for kind=taint"));
                },
            };
            let e = parse_taint_effect(es)?;
            Ok(ApplyRequest::Taint { effect: e, severity: s })
        },
        TaintKind::Quarantine => Ok(ApplyRequest::Quarantine { severity: s }),
        TaintKind::Watch => Ok(ApplyRequest::Watch { severity: s }),
    }
}


/// Reads an HTTP apply request, whose body always carries a kind and an
/// effect: an empty kind is refused with `kind required`; otherwise it is
/// read as `plan_taint_apply` reads it, the effect given.
pub fn http_taint_apply(kind: &str, severity: Option<&str>, effect: &str) -> (r: Result<ApplyRequest, String>)
    ensures
        kind@.len() == 0 ==> (r matches Err(m) && m@ == "kind required"@),
        kind@.len() > 0 ==> apply_outcome(kind@, opt_str(severity), Some(effect@), r),
{
    if crate::text::chars_of(kind).len() == 0 {
        return Err(owned("kind required"));
    }
    plan_taint_apply(kind, severity, Some(effect))
}

// ---------------------------------------------------------------------------
// Checking a write
// ---------------------------------------------------------------------------

/// An active taint on a path, as a check reports it.
pub struct TaintInfo {
    pub id: String,
    pub name: String,
    pub reason: String,
    pub effect: TaintEffect,
}

/// An active quarantine on a path, as a check reports it.
pub struct QuarantineInfo {
    pub id: String,
    pub authorized_agents: Vec<String>,
}

/// What a taint check tells a writer beyond the graph's own verdict.
pub struct TaintVerdict {
    /// `name: reason` of each warning or isolating taint, in order.
    pub warnings: Vec<String>,
    /// What stops the write: `isolate` for a quarantine the agent is not
    /// authorized for, else the effect of the first blocking or review
    /// taint.
    pub effect: Option<String>,
    /// The id of the quarantine or taint that stops the write.
    pub matching_taint_id: Option<String>,
}

/// The warnings of a run of taints.
pub open spec fn warnings_of(ts: Seq<TaintInfo>) -> Seq<Seq<char>>
    decreases ts.len(),
{
    if ts.len() == 0 {
        Seq::empty()
    } else {
        let prev = warnings_of(ts.drop_last());
        let t = ts.last();
        if t.effect == TaintEffect::Warn || t.effect == TaintEffect::Isolate {
            prev.push(t.name@ + ": "@ + t.reason@)
        } else {
            prev
        }
    }
}

/// The first quarantine, from `i` on, that does not authorize `agent`.
pub open spec fn first_barring(qs: Seq<QuarantineInfo>, agent: Seq<char>, i: int) -> Option<int>
    decreases qs.len() - i,
{
    if i < 0 || i >= qs.len() {
        None
    } else if !qs[i].authorized_agents@.map_values(|a: String| a@).contains(agent) {
        Some(i)
    } else {
        first_barring(qs, agent, i + 1)
    }
}

/// The first taint, from `i` on, that blocks or holds writes for review.
pub open spec fn first_blocking(ts: Seq<TaintInfo>, i: int) -> Option<int>
    decreases ts.len() - i,
{
    if i < 0 || i >= ts.len() {
        None
    } else if ts[i].effect == TaintEffect::Block || ts[i].effect == TaintEffect::Review {
        Some(i)
    } else {
        first_blocking(ts, i + 1)
    }
}

fn authorizes(agents: &Vec<String>, agent: &str) -> (r: bool)
    ensures
        r == agents@.map_values(|a: String| a@).contains(agent@),
{
    let ghost av = agents@.map_values(|a: String| a@);
    let n: usize = agents.len();
    let mut i: usize = 0;
    while i < n
        invariant
            n == agents@.len(),
            av == agents@.map_values(|a: String| a@),
            i <= n,
            forall|k: int| 0 <= k < i ==> av[k] != agent@,
        decreases n - i,
    {
        if str_eq(agents[i].as_str(), agent) {
            assert(av[i as int] == agent@);
            return true;
        }
        i = i + 1;
    }
    false
}

/// What a taint check tells `agent` about writing where these taints and
/// quarantines apply.
pub fn taint_verdict(taints: &Vec<TaintInfo>, quarantines: &Vec<QuarantineInfo>, agent: &str) -> (r:
    TaintVerdict)
    ensures
        r.warnings@.map_values(|w: String| w@) == warnings_of(taints@),
        match first_barring(quarantines@, agent@, 0) {
            Some(q) => {
                &&& r.effect matches Some(e) && e@ == "isolate"@
                &&& r.matching_taint_id matches Some(id) && id@ == quarantines@[q].id@
            },
            None => match first_blocking(taints@, 0) {
                Some(t) => {
                    &&& r.effect matches Some(e) && effect_of(e@) == Some(taints@[t].effect)
                    &&& r.matching_taint_id matches Some(id) && id@ == taints@[t].id@
                },
                None => r.effect is None && r.matching_taint_id is None,
            },
        },
{
    let n: usize = taints.len();
    let mut warnings: Vec<String> = Vec::new();
    let mut i: usize = 0;
    while i < n
        invariant
            n == taints@.len(),
            i <= n,
            warnings@.map_values(|w: String| w@) == warnings_of(taints@.take(i as int)),
        decreases n - i,
    {
        assert(taints@.take(i + 1).drop_last() =~= taints@.take(i as int));
        assert(taints@.take(i + 1).last() == taints@[i as int]);
        let t = &taints[i];
        if t.effect == TaintEffect::Warn || t.effect == TaintEffect::Isolate {
            let mut w = copy_string(&t.name);
            push_str(&mut w, ": ");
            push_str(&mut w, t.reason.as_str());
            let ghost before = warnings@;
            warnings.push(w);
            assert(warnings@.map_values(|w: String| w@) =~= before.map_values(|w: String| w@).push(
                t.name@ + ": "@ + t.reason@,
            ));
        }
        i = i + 1;
    }
    assert(taints@.take(n as int) =~= taints@);
    let nq: usize = quarantines.len();
    let mut q: usize = 0;
    while q < nq
        invariant
            nq == quarantines@.len(),
            q <= nq,
            first_barring(quarantines@, agent@, 0) == first_barring(quarantines@, agent@, q as int),
            warnings@.map_values(|w: String| w@) == warnings_of(taints@),
        decreases nq - q,
    {
        if !authorizes(&quarantines[q].authorized_agents, agent) {
            return TaintVerdict {
                warnings,
                effect: Some(owned("isolate")),
                matching_taint_id: Some(copy_string(&quarantines[q].id)),
            };
        }
        q = q + 1;
    }
    let mut t: usize = 0;
    while t < n
        invariant
            n == taints@.len(),
            t <= n,
            first_blocking(taints@, 0) == first_blocking(taints@, t as int),
            first_barring(quarantines@, agent@, 0) is None,
            warnings@.map_values(|w: String| w@) == warnings_of(taints@),
        decreases n - t,
    {
        let e = taints[t].effect;
        if e == TaintEffect::Block || e == TaintEffect::Review {
            return TaintVerdict {
                warnings,
                effect: Some(owned(taint_effect_to_str(e))),
                matching_taint_id: Some(copy_string(&taints[t].id)),
            };
        }
        t = t + 1;
    }
    TaintVerdict { warnings, effect: None, matching_taint_id: None }
}


// ---------------------------------------------------------------------------
// Resolving a taint
// ---------------------------------------------------------------------------

/// How to resolve the taint `taint_id`, from what looking it up gave: the
/// kind decides whether it is untainted, unquarantined or unwatched; a
/// failed lookup passes its message on, and a missing taint is reported
/// by id.
pub fn taint_removal(lookup: Result<Option<TaintKind>, String>, taint_id: &str) -> (r: Result<
    TaintKind,
    String,
>)
    ensures
        match lookup {
            Ok(Some(k)) => r == Ok::<TaintKind, String>(k),
            Ok(None) => r matches Err(m) && m@ == "taint not found: "@ + taint_id@,
            Err(e) => r matches Err(m) && m@ == e@,
        },
{
    match lookup {
        Ok(Some(k)) => Ok(k),
        Ok(None) => {
            let mut m = crate::text::owned("taint not found: ");
            crate::text::push_str(&mut m, taint_id);
            Err(m)
        },
        Err(e) => Err(e),
    }
}

} // verus!
