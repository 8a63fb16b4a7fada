//! Plan tools: the request types, input validation and labels of the plan
//! surface, and the small decisions around it (task counts, who `plan_next`
//! looks for, which in-progress tasks are stale).

use vstd::prelude::*;

use crate::identity::DEFAULT_NAMESPACE;
use crate::recall::{insert_name, names_ascending};
use crate::text::{
    byte_len, chars_of, copy_string, decimal, has_char, is_control, lower_chars, lower_seq, owned,
    push_chars, push_decimal, push_str, str_eq, string_of, trim, trim_exec, utf8_len, views,
};

verus! {

/// Path prefix where plans live in the state graph.
pub const PLANS_PREFIX: &'static str = "/plans";

/// Maximum length (bytes) of a task title.
pub const MAX_TITLE_LEN: usize = 256;

/// Maximum length (bytes) of a task description.
pub const MAX_DESCRIPTION_LEN: usize = 2048;

/// Maximum length (bytes) of an `assigned_to` string.
pub const MAX_ASSIGNED_TO_LEN: usize = 128;

// ---------------------------------------------------------------------------
// Unsafe text
// ---------------------------------------------------------------------------

/// A character that never belongs in a plan-tool text field: controls
/// (except tab) and line/paragraph separators, bidi formatting controls,
/// zero-width and invisible formatting, and tag characters.
pub open spec fn unsafe_char(c: char) -> bool {
    let u = c as u32;
    ||| (is_control(c) && c != '\t')
    ||| u == 0x2028
    ||| u == 0x2029
    ||| (0x202A <= u && u <= 0x202E)
    ||| (0x2066 <= u && u <= 0x2069)
    ||| u == 0x200B
    ||| u == 0x200C
    ||| u == 0x200D
    ||| u == 0xFEFF
    ||| u == 0x00AD
    ||| (0xE0000 <= u && u <= 0xE007F)
}

fn unsafe_char_exec(c: char) -> (r: bool)
    ensures
        r == unsafe_char(c),
{
    let u: u32 = c as u32;
    (crate::text::is_control_exec(c) && c != '\t') || u == 0x2028 || u == 0x2029 || (0x202A <= u
        && u <= 0x202E) || (0x2066 <= u && u <= 0x2069) || u == 0x200B || u == 0x200C || u
        == 0x200D || u == 0xFEFF || u == 0x00AD || (0xE0000 <= u && u <= 0xE007F)
}

/// Whether `s` holds a character that should never appear in a plan-tool
/// text field.
pub fn is_unsafe_text(s: &str) -> (r: bool)
    ensures
        r == exists|i: int| 0 <= i < s@.len() && unsafe_char(#[trigger] s@[i]),
{
    let cs = chars_of(s);
    let n: usize = cs.len();
    let mut i: usize = 0;
    while i < n
        invariant
            n == cs@.len(),
            cs@ == s@,
            i <= n,
            forall|k: int| 0 <= k < i ==> !unsafe_char(#[trigger] cs@[k]),
        decreases n - i,
    {
        if unsafe_char_exec(cs[i]) {
            return true;
        }
        i = i + 1;
    }
    false
}

// ---------------------------------------------------------------------------
// Errors
// ---------------------------------------------------------------------------

/// The kind of error the task store reports.
#[derive(Debug, Clone, Copy, PartialEq, Eq, Structural)]
pub enum StoreErrorKind {
    PlanNotFound,
    TaskNotFound,
    PlanAlreadyExists,
    Blocked,
    BlockerNotFound,
    InvalidTransition,
    ProofRequired,
    ReasonRequired,
    ParentNotFound,
    ParentIsSubtask,
    InvalidBlockerId,
    Other,
}

/// An error the task store reported: its kind and message.
#[derive(Debug, Clone, PartialEq, Eq)]
pub struct StoreError {
    pub kind: StoreErrorKind,
    pub message: String,
}

/// Errors surfaced from the plan-tool layer.
#[derive(Debug, Clone, PartialEq, Eq)]
pub enum PlanToolError {
    /// An error the task store reported.
    Substrate(StoreError),
    InvalidProof(String),
    InvalidPriority(String),
    InvalidInput(String),
    Repo(String),
}

/// The message of a plan-tool error.
pub open spec fn plan_error_text(e: PlanToolError) -> Seq<char> {
    match e {
        PlanToolError::Substrate(e) => e.message@,
        PlanToolError::InvalidProof(m) => "invalid proof: "@ + m@,
        PlanToolError::InvalidPriority(m) => "invalid priority: "@ + m@,
        PlanToolError::InvalidInput(m) => "invalid input: "@ + m@,
        PlanToolError::Repo(m) => "repository error: "@ + m@,
    }
}

impl PlanToolError {
    /// The error's message.
    pub fn message(&self) -> (r: String)
        ensures
            r@ == plan_error_text(*self),
    {
        match self {
            PlanToolError::Substrate(e) => copy_string(&e.message),
            PlanToolError::InvalidProof(m) => {
                let mut s = owned("invalid proof: ");
                push_str(&mut s, m.as_str());
                s
            },
            PlanToolError::InvalidPriority(m) => {
                let mut s = owned("invalid priority: ");
                push_str(&mut s, m.as_str());
                s
            },
            PlanToolError::InvalidInput(m) => {
                let mut s = owned("invalid input: ");
                push_str(&mut s, m.as_str());
                s
            },
            PlanToolError::Repo(m) => {
                let mut s = owned("repository error: ");
                push_str(&mut s, m.as_str());
                s
            },
        }
    }
}

// ---------------------------------------------------------------------------
// Validation
// ---------------------------------------------------------------------------

/// The message for a field over its byte limit.
pub open spec fn too_long_text(field: Seq<char>, len: nat, max: nat) -> Seq<char> {
    field + " exceeds maximum length ("@ + decimal(len) + " bytes; max "@ + decimal(max) + ")"@
}

/// The message for a field with unsafe characters.
pub open spec fn unsafe_field_text(field: Seq<char>) -> Seq<char> {
    field
        + " contains control or unsafe formatting characters (newlines, bidi overrides, zero-width, BOM, tag chars); strip them before submitting"@
}

/// `s` holds an unsafe character.
pub open spec fn has_unsafe(s: Seq<char>) -> bool {
    exists|i: int| 0 <= i < s.len() && unsafe_char(#[trigger] s[i])
}

/// What checking a plan text field finds: `None` when the value fits in
/// `max` bytes and holds no unsafe character, else the message of the
/// invalid-input error.
pub open spec fn plan_text_problem(field: Seq<char>, value: Seq<char>, max: nat) -> Option<Seq<char>> {
    if utf8_len(value) > max {
        Some(too_long_text(field, utf8_len(value), max))
    } else if has_unsafe(value) {
        Some(unsafe_field_text(field))
    } else {
        None
    }
}

/// The result of a check: `Ok` for no problem, else the invalid-input error
/// with the problem's message.
pub open spec fn checked(r: Result<(), PlanToolError>, problem: Option<Seq<char>>) -> bool {
    match r {
        Ok(_) => problem is None,
        Err(e) => e matches PlanToolError::InvalidInput(m) && problem == Some(m@),
    }
}

/// Checks a plan text field: at most `max_len` bytes and no unsafe
/// characters.
pub fn validate_plan_text(field: &str, value: &str, max_len: usize) -> (r: Result<(), PlanToolError>)
    ensures
        checked(r, plan_text_problem(field@, value@, max_len as nat)),
{
    let len = byte_len(value);
    if len > max_len {
        let mut m = owned(field);
        push_str(&mut m, " exceeds maximum length (");
        push_decimal(&mut m, len as u64);
        push_str(&mut m, " bytes; max ");
        push_decimal(&mut m, max_len as u64);
        push_str(&mut m, ")");
        return Err(PlanToolError::InvalidInput(m));
    }
    if is_unsafe_text(value) {
        let mut m = owned(field);
        push_str(
            &mut m,
            " contains control or unsafe formatting characters (newlines, bidi overrides, zero-width, BOM, tag chars); strip them before submitting",
        );
        return Err(PlanToolError::InvalidInput(m));
    }
    Ok(())
}


/// What checking an `assigned_to` value finds: nothing for the empty
/// value; else at most 128 bytes and no unsafe character.
pub open spec fn assignee_problem(value: Seq<char>) -> Option<Seq<char>> {
    if value.len() == 0 {
        None
    } else if utf8_len(value) > MAX_ASSIGNED_TO_LEN {
        Some(too_long_text("assigned_to"@, utf8_len(value), MAX_ASSIGNED_TO_LEN as nat))
    } else if has_unsafe(value) {
        Some("assigned_to contains control or unsafe formatting characters"@)
    } else {
        None
    }
}

/// Checks an `assigned_to` value.
pub fn validate_assigned_to(value: &str) -> (r: Result<(), PlanToolError>)
    ensures
        checked(r, assignee_problem(value@)),
{
    let cs = chars_of(value);
    if cs.len() == 0 {
        return Ok(());
    }
    let len = byte_len(value);
    if len > MAX_ASSIGNED_TO_LEN {
        let mut m = owned("assigned_to");
        push_str(&mut m, " exceeds maximum length (");
        push_decimal(&mut m, len as u64);
        push_str(&mut m, " bytes; max ");
        push_decimal(&mut m, MAX_ASSIGNED_TO_LEN as u64);
        push_str(&mut m, ")");
        return Err(PlanToolError::InvalidInput(m));
    }
    if is_unsafe_text(value) {
        return Err(
            PlanToolError::InvalidInput(
                owned("assigned_to contains control or unsafe formatting characters"),
            ),
        );
    }
    Ok(())
}

// ---------------------------------------------------------------------------
// Labels
// ---------------------------------------------------------------------------

/// A task's priority.
#[derive(Debug, Clone, Copy, PartialEq, Eq, Structural)]
pub enum Priority {
    Low,
    Medium,
    High,
    Critical,
}

/// A task's status.
#[derive(Debug, Clone, Copy, PartialEq, Eq, Structural)]
pub enum TaskStatus {
    Pending,
    InProgress,
    Done,
    Abandoned,
}

/// A plan's status.
#[derive(Debug, Clone, Copy, PartialEq, Eq, Structural)]
pub enum PlanStatus {
    Active,
    Completed,
    Archived,
}

/// The kind of proof a completed task carries.
#[derive(Debug, Clone, Copy, PartialEq, Eq, Structural)]
pub enum ProofKind {
    Commit,
    File,
    Test,
    Text,
}

/// `s` equals the literal `lit` (for matching lowercased input).
fn lit_eq(s: &Vec<char>, lit: &str) -> (r: bool)
    ensures
        r == (s@ == lit@),
{
    crate::text::chars_eq(s, &chars_of(lit))
}

/// The priority a (case-insensitive) name gives.
pub open spec fn priority_of(s: Seq<char>) -> Option<Priority> {
    let l = lower_seq(s);
    if l == "low"@ {
        Some(Priority::Low)
    } else if l == "medium"@ {
        Some(Priority::Medium)
    } else if l == "high"@ {
        Some(Priority::High)
    } else if l == "critical"@ {
        Some(Priority::Critical)
    } else {
        None
    }
}

/// Parses a priority name, ignoring ASCII case.
pub fn priority_from_str(s: &str) -> (r: Option<Priority>)
    ensures
        r == priority_of(s@),
{
    let l = lower_chars(&chars_of(s));
    if lit_eq(&l, "low") {
        Some(Priority::Low)
    } else if lit_eq(&l, "medium") {
        Some(Priority::Medium)
    } else if lit_eq(&l, "high") {
        Some(Priority::High)
    } else if lit_eq(&l, "critical") {
        Some(Priority::Critical)
    } else {
        None
    }
}

/// The name of a priority.
pub fn priority_label(p: Priority) -> (r: &'static str)
    ensures
        r@ == match p {
            Priority::Low => "low"@,
            Priority::Medium => "medium"@,
            Priority::High => "high"@,
            Priority::Critical => "critical"@,
        },
{
    match p {
        Priority::Low => "low",
        Priority::Medium => "medium",
        Priority::High => "high",
        Priority::Critical => "critical",
    }
}

/// The name of a task status.
pub fn task_status_label(s: TaskStatus) -> (r: &'static str)
    ensures
        r@ == match s {
            TaskStatus::Pending => "pending"@,
            TaskStatus::InProgress => "in_progress"@,
            TaskStatus::Done => "done"@,
            TaskStatus::Abandoned => "abandoned"@,
        },
{
    match s {
        TaskStatus::Pending => "pending",
        TaskStatus::InProgress => "in_progress",
        TaskStatus::Done => "done",
        TaskStatus::Abandoned => "abandoned",
    }
}

/// The name of a plan status.
pub fn plan_status_label(s: PlanStatus) -> (r: &'static str)
    ensures
        r@ == match s {
            PlanStatus::Active => "active"@,
            PlanStatus::Completed => "completed"@,
            PlanStatus::Archived => "archived"@,
        },
{
    match s {
        PlanStatus::Active => "active",
        PlanStatus::Completed => "completed",
        PlanStatus::Archived => "archived",
    }
}

/// The name of a proof kind.
pub fn proof_kind_label(k: ProofKind) -> (r: &'static str)
    ensures
        r@ == match k {
            ProofKind::Commit => "commit"@,
            ProofKind::File => "file"@,
            ProofKind::Test => "test"@,
            ProofKind::Text => "text"@,
        },
{
    match k {
        ProofKind::Commit => "commit",
        ProofKind::File => "file",
        ProofKind::Test => "test",
        ProofKind::Text => "text",
    }
}

/// The plan status a (case-insensitive) name gives.
pub open spec fn plan_status_of(s: Seq<char>) -> Option<PlanStatus> {
    let l = lower_seq(s);
    if l == "active"@ {
        Some(PlanStatus::Active)
    } else if l == "completed"@ {
        Some(PlanStatus::Completed)
    } else if l == "archived"@ {
        Some(PlanStatus::Archived)
    } else {
        None
    }
}

/// Parses a plan status name, ignoring ASCII case.
pub fn plan_status_from_str(s: &str) -> (r: Option<PlanStatus>)
    ensures
        r == plan_status_of(s@),
{
    let l = lower_chars(&chars_of(s));
    if lit_eq(&l, "active") {
        Some(PlanStatus::Active)
    } else if lit_eq(&l, "completed") {
        Some(PlanStatus::Completed)
    } else if lit_eq(&l, "archived") {
        Some(PlanStatus::Archived)
    } else {
        None
    }
}

// ---------------------------------------------------------------------------
// Proofs
// ---------------------------------------------------------------------------

/// Evidence that a task was completed.
#[derive(Debug, Clone, PartialEq, Eq)]
pub struct Proof {
    pub kind: ProofKind,
    pub value: String,
    pub note: Option<String>,
}

/// The proof kind a (case-insensitive) name gives.
pub open spec fn proof_kind_of(s: Seq<char>) -> Option<ProofKind> {
    let l = lower_seq(s);
    if l == "commit"@ {
        Some(ProofKind::Commit)
    } else if l == "file"@ {
        Some(ProofKind::File)
    } else if l == "test"@ {
        Some(ProofKind::Test)
    } else if l == "text"@ {
        Some(ProofKind::Text)
    } else {
        None
    }
}

/// Builds a proof from `(kind, value, note?)`: the value must not be blank
/// and the kind is one of commit, file, test, text (any ASCII case); an
/// empty note counts as none.
pub fn parse_proof(kind: &str, value: &str, note: Option<String>) -> (r: Result<Proof, PlanToolError>)
    ensures
        match r {
            Ok(p) => {
                &&& trim(value@).len() > 0
                &&& proof_kind_of(kind@) == Some(p.kind)
                &&& p.value@ == value@
                &&& match note {
                    Some(n) => if n@.len() > 0 {
                        p.note matches Some(pn) && pn@ == n@
                    } else {
                        p.note is None
                    },
                    None => p.note is None,
                }
            },
            Err(e) => if trim(value@).len() == 0 {
                e matches PlanToolError::InvalidProof(m) && m@ == "proof value must be non-empty"@
            } else {
                &&& proof_kind_of(kind@) is None
                &&& e matches PlanToolError::InvalidProof(m) && m@ == "unknown proof kind '"@
                    + lower_seq(kind@) + "' (expected commit|file|test|text)"@
            },
        },
{
    let v = trim_exec(&chars_of(value));
    if v.len() == 0 {
        return Err(PlanToolError::InvalidProof(owned("proof value must be non-empty")));
    }
    let l = lower_chars(&chars_of(kind));
    let k = if lit_eq(&l, "commit") {
        ProofKind::Commit
    } else if lit_eq(&l, "file") {
        ProofKind::File
    } else if lit_eq(&l, "test") {
        ProofKind::Test
    } else if lit_eq(&l, "text") {
        ProofKind::Text
    } else {
        let mut m = owned("unknown proof kind '");
        push_chars(&mut m, &l);
        push_str(&mut m, "' (expected commit|file|test|text)");
        return Err(PlanToolError::InvalidProof(m));
    };
    let note = match note {
        Some(n) => if chars_of(n.as_str()).len() > 0 {
            Some(n)
        } else {
            None
        },
        None => None,
    };
    Ok(Proof { kind: k, value: owned(value), note })
}


// ---------------------------------------------------------------------------
// New tasks
// ---------------------------------------------------------------------------

/// A task as it goes to the task store.
#[derive(Debug, Clone, PartialEq, Eq)]
pub struct NewTask {
    /// The title, with the description after an em dash when there is one
    /// (the stored task has no description field).
    pub full_title: String,
    pub priority: Priority,
    pub parent_id: Option<String>,
    pub blocked_by: Vec<String>,
    /// The assignee; an empty one counts as none.
    pub assigned_to: Option<String>,
}

/// The characters of an optional `str`.
pub open spec fn opt_str(o: Option<&str>) -> Option<Seq<char>> {
    match o {
        Some(s) => Some(s@),
        None => None,
    }
}

/// The first problem with a new task's inputs, checked in order: title,
/// description, assignee.
pub open spec fn task_problem(
    title: Seq<char>,
    description: Option<Seq<char>>,
    assigned_to: Option<Seq<char>>,
) -> Option<Seq<char>> {
    if plan_text_problem("title"@, title, MAX_TITLE_LEN as nat) is Some {
        plan_text_problem("title"@, title, MAX_TITLE_LEN as nat)
    } else if description is Some && plan_text_problem(
        "description"@,
        description->0,
        MAX_DESCRIPTION_LEN as nat,
    ) is Some {
        plan_text_problem("description"@, description->0, MAX_DESCRIPTION_LEN as nat)
    } else if assigned_to is Some && assignee_problem(assigned_to->0) is Some {
        assignee_problem(assigned_to->0)
    } else {
        None
    }
}

/// The stored title: the title, then ` — ` and the description when there
/// is a non-empty one.
pub open spec fn full_title_of(title: Seq<char>, description: Option<Seq<char>>) -> Seq<char> {
    match description {
        Some(d) => if d.len() > 0 {
            title + " — "@ + d
        } else {
            title
        },
        None => title,
    }
}

/// Validates and shapes a new task for the task store: title (at most 256
/// bytes), description (at most 2048 bytes) and assignee (at most 128
/// bytes) free of unsafe characters, and a known priority (medium when
/// none is given).
pub fn add_task(
    title: &str,
    description: Option<&str>,
    priority: Option<&str>,
    parent_id: Option<&str>,
    assigned_to: Option<&str>,
    blocked_by: Vec<String>,
) -> (r: Result<NewTask, PlanToolError>)
    ensures
        match r {
            Ok(t) => {
                &&& task_problem(title@, opt_str(description), opt_str(assigned_to)) is None
                &&& (match priority {
                    None => t.priority == Priority::Medium,
                    Some(p) => priority_of(p@) == Some(t.priority),
                })
                &&& t.full_title@ == full_title_of(title@, opt_str(description))
                &&& opt_view(t.parent_id) == opt_str(parent_id)
                &&& t.blocked_by@ == blocked_by@
                &&& opt_view(t.assigned_to) == (match assigned_to {
                    Some(a) => if a@.len() > 0 {
                        Some(a@)
                    } else {
                        None
                    },
                    None => None,
                })
            },
            Err(e) => match task_problem(title@, opt_str(description), opt_str(assigned_to)) {
                Some(m) => e matches PlanToolError::InvalidInput(em) && em@ == m,
                None => {
                    &&& priority matches Some(p) && priority_of(p@) is None
                    &&& e matches PlanToolError::InvalidPriority(em) && em@ == priority->0@
                },
            },
        },
{
    validate_plan_text("title", title, MAX_TITLE_LEN)?;
    if let Some(d) = description {
        validate_plan_text("description", d, MAX_DESCRIPTION_LEN)?;
    }
    if let Some(a) = assigned_to {
        validate_assigned_to(a)?;
    }
    let pri = match priority {
        None => Priority::Medium,
        Some(p) => match priority_from_str(p) {
            Some(v) => v,
            None => {
                return Err(PlanToolError::InvalidPriority(owned(p)));
            },
        },
    };
    let full_title = match description {
        Some(d) => if chars_of(d).len() > 0 {
            let mut t = owned(title);
            push_str(&mut t, " — ");
            push_str(&mut t, d);
            t
        } else {
            owned(title)
        },
        None => owned(title),
    };
    let assigned = match assigned_to {
        Some(a) => if chars_of(a).len() > 0 {
            Some(owned(a))
        } else {
            None
        },
        None => None,
    };
    Ok(NewTask {
        full_title,
        priority: pri,
        parent_id: match parent_id {
            Some(p) => Some(owned(p)),
            None => None,
        },
        blocked_by,
        assigned_to: assigned,
    })
}

/// The characters of an optional string.
pub open spec fn opt_view(o: Option<String>) -> Option<Seq<char>> {
    match o {
        Some(s) => Some(s@),
        None => None,
    }
}

// ---------------------------------------------------------------------------
// Task counts and plan_next
// ---------------------------------------------------------------------------

/// A plan's tasks counted by status.
#[derive(Debug, Clone, Copy, PartialEq, Eq)]
pub struct TaskCounts {
    pub pending: u32,
    pub in_progress: u32,
    pub done: u32,
    pub abandoned: u32,
    pub total: u32,
}

/// How many of `s` have status `st`.
pub open spec fn count_status(s: Seq<TaskStatus>, st: TaskStatus) -> nat
    decreases s.len(),
{
    if s.len() == 0 {
        0
    } else {
        count_status(s.drop_last(), st) + if s.last() == st {
            1nat
        } else {
            0nat
        }
    }
}

proof fn lemma_count_status_bound(s: Seq<TaskStatus>, st: TaskStatus)
    ensures
        count_status(s, st) <= s.len(),
    decreases s.len(),
{
    if s.len() > 0 {
        lemma_count_status_bound(s.drop_last(), st);
    }
}

/// Counts tasks by status.
pub fn task_counts(statuses: &Vec<TaskStatus>) -> (r: TaskCounts)
    requires
        statuses@.len() <= u32::MAX,
    ensures
        r.pending == count_status(statuses@, TaskStatus::Pending),
        r.in_progress == count_status(statuses@, TaskStatus::InProgress),
        r.done == count_status(statuses@, TaskStatus::Done),
        r.abandoned == count_status(statuses@, TaskStatus::Abandoned),
        r.total == statuses@.len(),
{
    let n: usize = statuses.len();
    let mut c = TaskCounts { pending: 0, in_progress: 0, done: 0, abandoned: 0, total: 0 };
    let mut i: usize = 0;
    while i < n
        invariant
            n == statuses@.len(),
            n <= u32::MAX,
            i <= n,
            c.pending == count_status(statuses@.take(i as int), TaskStatus::Pending),
            c.in_progress == count_status(statuses@.take(i as int), TaskStatus::InProgress),
            c.done == count_status(statuses@.take(i as int), TaskStatus::Done),
            c.abandoned == count_status(statuses@.take(i as int), TaskStatus::Abandoned),
            c.total == 0,
        decreases n - i,
    {
        assert(statuses@.take(i + 1).drop_last() =~= statuses@.take(i as int));
        proof {
            lemma_count_status_bound(statuses@.take(i as int), TaskStatus::Pending);
            lemma_count_status_bound(statuses@.take(i as int), TaskStatus::InProgress);
            lemma_count_status_bound(statuses@.take(i as int), TaskStatus::Done);
            lemma_count_status_bound(statuses@.take(i as int), TaskStatus::Abandoned);
        }
        match statuses[i] {
            TaskStatus::Pending => c.pending = c.pending + 1,
            TaskStatus::InProgress => c.in_progress = c.in_progress + 1,
            TaskStatus::Done => c.done = c.done + 1,
            TaskStatus::Abandoned => c.abandoned = c.abandoned + 1,
        }
        i = i + 1;
    }
    assert(statuses@.take(n as int) =~= statuses@);
    c.total = n as u32;
    c
}

/// Every task has exactly one status: the counts add up to the total.
pub proof fn law_task_counts_add_up(s: Seq<TaskStatus>)
    ensures
        count_status(s, TaskStatus::Pending) + count_status(s, TaskStatus::InProgress)
            + count_status(s, TaskStatus::Done) + count_status(s, TaskStatus::Abandoned) == s.len(),
    decreases s.len(),
{
    if s.len() > 0 {
        law_task_counts_add_up(s.drop_last());
    }
}

/// Who `plan_next` looks for: the session's own agent for `me`, the given
/// agent otherwise, anyone when none or an empty one is given.
pub fn next_assignee(assigned_to: Option<&str>, agent_id: &str) -> (r: Option<String>)
    ensures
        opt_view(r) == match assigned_to {
            Some(a) => if a@ == "me"@ {
                Some(agent_id@)
            } else if a@.len() > 0 {
                Some(a@)
            } else {
                None
            },
            None => None,
        },
{
    match assigned_to {
        Some(a) => if str_eq(a, "me") {
            Some(owned(agent_id))
        } else if chars_of(a).len() > 0 {
            Some(owned(a))
        } else {
            None
        },
        None => None,
    }
}

/// Whether `plan_next` offers unassigned tasks: when asked to, unless it is
/// restricted to assigned ones.
pub fn next_includes_unassigned(include_unassigned: bool, assigned_only: bool) -> (r: bool)
    ensures
        r == (include_unassigned && !assigned_only),
{
    include_unassigned && !assigned_only
}

// ---------------------------------------------------------------------------
// Request types
// ---------------------------------------------------------------------------

/// `plan_new`: create a plan.
pub struct PlanNewParams {
    /// Name of the plan (kebab-case, no spaces). Used in paths.
    pub name: String,
    pub description: Option<String>,
    /// Branch to write to (default: "main").
    pub ref_name: String,
}

/// `plan_add`: add a task to a plan.
pub struct PlanAddParams {
    pub plan_id: String,
    pub title: String,
    pub description: Option<String>,
    /// low | medium | high | critical. Default: medium.
    pub priority: Option<String>,
    pub parent_id: Option<String>,
    pub assigned_to: Option<String>,
    pub blocked_by: Vec<String>,
    pub ref_name: String,
}

/// `plan_start`: start a task.
pub struct PlanStartParams {
    pub plan_id: String,
    pub task_id: String,
    pub reason: Option<String>,
    pub ref_name: String,
}

/// A proof as a request carries it: kind, value, optional note.
pub struct ProofParam {
    /// commit | file | test | text
    pub kind: String,
    pub value: String,
    pub note: Option<String>,
}

/// `plan_complete`: complete a task with a proof.
pub struct PlanCompleteParams {
    pub plan_id: String,
    pub task_id: String,
    pub proof: ProofParam,
    pub reason: Option<String>,
    pub ref_name: String,
}

/// `plan_abandon`: abandon a task, with a reason.
pub struct PlanAbandonParams {
    pub plan_id: String,
    pub task_id: String,
    pub reason: String,
    pub ref_name: String,
}

/// `plan_next`: the next pickable task.
pub struct PlanNextParams {
    pub plan_id: String,
    /// Filter to tasks assigned to this agent; "me" is the session's agent.
    pub assigned_to: Option<String>,
    /// Include unassigned tasks too (default true).
    pub include_unassigned: bool,
    /// Only tasks explicitly assigned.
    pub assigned_only: bool,
    pub ref_name: String,
}

/// `plan_list`: list plans, optionally by status.
pub struct PlanListParams {
    pub status_filter: Option<String>,
    pub ref_name: String,
}

/// `plan_get`: one plan with its tasks.
pub struct PlanGetParams {
    pub plan_id: String,
    pub ref_name: String,
}

/// `plan_archive`: archive a plan.
pub struct PlanArchiveParams {
    pub plan_id: String,
    pub ref_name: String,
}

/// `plan_tasks`: the tasks of a plan.
pub struct PlanTasksParams {
    pub plan_id: String,
    pub ref_name: String,
}

/// The error body of a failed plan tool call.
pub struct ToolErr {
    pub error: String,
}

/// The error body for a plan-tool error.
pub fn tool_err(e: &PlanToolError) -> (r: ToolErr)
    ensures
        r.error@ == plan_error_text(*e),
{
    ToolErr { error: e.message() }
}


// ---------------------------------------------------------------------------
// Stale tasks
// ---------------------------------------------------------------------------

/// Days after which an in-progress task counts as stale, by default.
pub fn default_stale_days() -> (r: i64)
    ensures
        r == 7,
{
    7
}

/// A task of an active plan, as the stale scan reads it. Instants are
/// seconds since the Unix epoch and the nanosecond within the second.
pub struct StaleCandidate {
    /// The namespace, when scanning every namespace.
    pub namespace: Option<String>,
    pub plan: String,
    pub id: String,
    pub title: String,
    pub status: TaskStatus,
    pub created_at: (i64, u32),
    pub started_at: Option<(i64, u32)>,
}

/// An in-progress task that has not moved for too long.
pub struct StaleTask {
    pub namespace: Option<String>,
    pub plan: String,
    pub id: String,
    pub title: String,
    /// When the task was started (or created, if it never recorded a start).
    pub since: (i64, u32),
    /// Whole days since then.
    pub age_days: i64,
}

/// A stale entry: namespace, plan, id, title, since, age in days.
pub type StaleView = (Option<Seq<char>>, Seq<char>, Seq<char>, Seq<char>, (i64, u32), int);

/// The instant a candidate has been in progress since.
pub open spec fn since_of(c: StaleCandidate) -> (i64, u32) {
    match c.started_at {
        Some(t) => t,
        None => c.created_at,
    }
}

/// The stale entries among `cands`, in order: in-progress tasks whose start
/// (else creation) lies before `days` days (at least zero) before `now`,
/// with their age in whole days.
pub open spec fn stale_from(cands: Seq<StaleCandidate>, now: (i64, u32), days: i64) -> Seq<StaleView>
    decreases cands.len(),
{
    if cands.len() == 0 {
        Seq::empty()
    } else {
        let prev = stale_from(cands.drop_last(), now, days);
        let c = cands.last();
        let d: int = if days < 0 {
            0
        } else {
            days as int
        };
        let since = since_of(c);
        if c.status == TaskStatus::InProgress && (since.0 < now.0 - d * 86400 || (since.0 == now.0
            - d * 86400 && since.1 < now.1)) {
            prev.push(
                (
                    crate::segments::opt_view(c.namespace),
                    c.plan@,
                    c.id@,
                    c.title@,
                    since,
                    crate::segments::trunc_div(
                        crate::segments::whole_seconds(crate::segments::span_parts(since, now)),
                        86400,
                    ),
                ),
            )
        } else {
            prev
        }
    }
}

/// `x` placed after every entry at least as old (stable, most stale first).
pub open spec fn insert_by_age(x: StaleView, s: Seq<StaleView>) -> Seq<StaleView>
    decreases s.len(),
{
    if s.len() == 0 {
        seq![x]
    } else if x.5 > s[0].5 {
        seq![x] + s
    } else {
        seq![s[0]] + insert_by_age(x, s.drop_first())
    }
}

/// The entries, most stale first, in their order among equally stale ones.
pub open spec fn sort_by_age(s: Seq<StaleView>) -> Seq<StaleView>
    decreases s.len(),
{
    if s.len() == 0 {
        s
    } else {
        insert_by_age(s.last(), sort_by_age(s.drop_last()))
    }
}

/// The view of stale entries.
pub open spec fn stale_view(v: Seq<StaleTask>) -> Seq<StaleView> {
    v.map_values(
        |t: StaleTask|
            (crate::segments::opt_view(t.namespace), t.plan@, t.id@, t.title@, t.since, t.age_days as int),
    )
}

/// The first position, from `i` on, of an entry younger than `age`.
pub open spec fn first_younger(age: int, s: Seq<StaleView>, i: int) -> int
    decreases s.len() - i,
{
    if i < 0 || i >= s.len() {
        s.len() as int
    } else if age > s[i].5 {
        i
    } else {
        first_younger(age, s, i + 1)
    }
}

proof fn lemma_insert_by_age(x: StaleView, s: Seq<StaleView>)
    ensures
        0 <= first_younger(x.5, s, 0) <= s.len(),
        insert_by_age(x, s) == s.take(first_younger(x.5, s, 0)) + seq![x] + s.skip(
            first_younger(x.5, s, 0),
        ),
    decreases s.len(),
{
    if s.len() == 0 || x.5 > s[0].5 {
        assert(insert_by_age(x, s) =~= s.take(0) + seq![x] + s.skip(0));
    } else {
        let t = s.drop_first();
        lemma_insert_by_age(x, t);
        lemma_first_younger_shift(x.5, s, 0);
        let k = first_younger(x.5, t, 0);
        assert(insert_by_age(x, s) =~= s.take(k + 1) + seq![x] + s.skip(k + 1));
    }
}

proof fn lemma_first_younger_shift(age: int, s: Seq<StaleView>, i: int)
    requires
        0 <= i < s.len(),
        forall|j: int| 0 <= j <= i ==> !(age > #[trigger] s[j].5),
    ensures
        first_younger(age, s, i + 1) == first_younger(age, s.drop_first(), i) + 1,
        first_younger(age, s, 0) == first_younger(age, s, i + 1),
    decreases s.len() - i,
{
    if i + 1 < s.len() {
        assert(s.drop_first()[i] == s[i + 1]);
        if !(age > s[i + 1].5) {
            lemma_first_younger_shift(age, s, i + 1);
        }
    }
    lemma_first_younger_prefix(age, s, i + 1);
}

proof fn lemma_first_younger_prefix(age: int, s: Seq<StaleView>, i: int)
    requires
        0 <= i <= s.len(),
        forall|j: int| 0 <= j < i ==> !(age > #[trigger] s[j].5),
    ensures
        first_younger(age, s, 0) == first_younger(age, s, i),
    decreases i,
{
    if i > 0 {
        lemma_first_younger_prefix(age, s, i - 1);
    }
}

/// The in-progress tasks of active plans that have not moved for `days`
/// days (at least zero) before `now`, most stale first. `cands` are the
/// tasks in scan order.
pub fn stale_tasks(cands: &Vec<StaleCandidate>, now: (i64, u32), days: i64) -> (r: Vec<StaleTask>)
    ensures
        stale_view(r@) == sort_by_age(stale_from(cands@, now, days)),
        forall|k: int|
            0 <= k < r@.len() ==> {
                let t = #[trigger] r@[k];
                let dd: int = if days < 0 {
                    0
                } else {
                    days as int
                };
                &&& t.since.0 + dd * 86400 < now.0 || (t.since.0 + dd * 86400 == now.0
                    && t.since.1 < now.1)
                &&& (t.since.1 < 1_000_000_000 && now.1 < 1_000_000_000) ==> t.age_days >= dd
            },
{
    proof {
        law_stale_entries_old_enough(cands@, now, days);
    }
    let d: i128 = if days < 0 {
        0
    } else {
        days as i128
    };
    let cutoff: i128 = now.0 as i128 - d * 86400;
    let n: usize = cands.len();
    let mut out: Vec<StaleTask> = Vec::new();
    let ghost mut found: Seq<StaleView> = Seq::empty();
    let mut i: usize = 0;
    while i < n
        invariant
            n == cands@.len(),
            i <= n,
            d == (if days < 0 { 0int } else { days as int }),
            cutoff == now.0 - d * 86400,
            found == stale_from(cands@.take(i as int), now, days),
            stale_view(out@) == sort_by_age(found),
        decreases n - i,
    {
        assert(cands@.take(i + 1).drop_last() =~= cands@.take(i as int));
        assert(cands@.take(i + 1).last() == cands@[i as int]);
        let c = &cands[i];
        let since: (i64, u32) = match c.started_at {
            Some(t) => t,
            None => c.created_at,
        };
        if c.status == TaskStatus::InProgress && ((since.0 as i128) < cutoff || ((since.0 as i128)
            == cutoff && since.1 < now.1)) {
            let w = crate::segments::whole_seconds_between(since, now);
            let age: i128 = if w >= 0 {
                (w as u128 / 86400) as i128
            } else {
                -(((-w) as u128 / 86400) as i128)
            };
            assert(age == crate::segments::trunc_div(w as int, 86400));
            assert(-0x1_0000_0000_0000 <= age <= 0x1_0000_0000_0000);
            let entry = StaleTask {
                namespace: match &c.namespace {
                    Some(ns) => Some(copy_string(ns)),
                    None => None,
                },
                plan: copy_string(&c.plan),
                id: copy_string(&c.id),
                title: copy_string(&c.title),
                since,
                age_days: age as i64,
            };
            let ghost xv: StaleView = (
                crate::segments::opt_view(c.namespace),
                c.plan@,
                c.id@,
                c.title@,
                since,
                age as int,
            );
            assert(xv == (crate::segments::opt_view(entry.namespace), entry.plan@, entry.id@, entry.title@, entry.since, entry.age_days as int));
            let ghost ov = stale_view(out@);
            let m: usize = out.len();
            let mut k: usize = 0;
            while k < m && !(entry.age_days > out[k].age_days)
                invariant
                    m == out@.len(),
                    ov == stale_view(out@),
                    k <= m,
                    xv.5 == entry.age_days as int,
                    first_younger(xv.5, ov, 0) == first_younger(xv.5, ov, k as int),
                decreases m - k,
            {
                k = k + 1;
            }
            proof {
                lemma_insert_by_age(xv, ov);
                found = found.push(xv);
            }
            out.insert(k, entry);
            assert(stale_view(out@) =~= ov.take(k as int) + seq![xv] + ov.skip(k as int));
            assert(found.drop_last() =~= stale_from(cands@.take(i as int), now, days));
        }
        i = i + 1;
    }
    assert(cands@.take(n as int) =~= cands@);
    proof {
        let dd: int = if days < 0 {
            0
        } else {
            days as int
        };
        assert forall|k: int| 0 <= k < out@.len() implies {
            let t = #[trigger] out@[k];
            &&& t.since.0 + dd * 86400 < now.0 || (t.since.0 + dd * 86400 == now.0 && t.since.1
                < now.1)
            &&& (t.since.1 < 1_000_000_000 && now.1 < 1_000_000_000) ==> t.age_days >= dd
        } by {
            let e = sort_by_age(stale_from(cands@, now, days))[k];
            assert(stale_view(out@)[k] == e);
            assert(e.4 == out@[k].since);
            assert(e.5 == out@[k].age_days as int);
        }
    }
    out
}


proof fn lemma_insert_by_age_elems(x: StaleView, s: Seq<StaleView>)
    ensures
        insert_by_age(x, s).len() == s.len() + 1,
        forall|k: int|
            0 <= k < insert_by_age(x, s).len() ==> #[trigger] insert_by_age(x, s)[k] == x || s.contains(
                insert_by_age(x, s)[k],
            ),
{
    lemma_insert_by_age(x, s);
    let j = first_younger(x.5, s, 0);
    let r = insert_by_age(x, s);
    assert forall|k: int| 0 <= k < r.len() implies #[trigger] r[k] == x || s.contains(r[k]) by {
        if k < j {
            assert(r[k] == s[k]);
        } else if k > j {
            assert(r[k] == s[k - 1]);
        }
    }
}

proof fn lemma_sort_by_age_elems(s: Seq<StaleView>)
    ensures
        sort_by_age(s).len() == s.len(),
        forall|k: int| 0 <= k < sort_by_age(s).len() ==> s.contains(#[trigger] sort_by_age(s)[k]),
    decreases s.len(),
{
    if s.len() > 0 {
        let p = s.drop_last();
        lemma_sort_by_age_elems(p);
        lemma_insert_by_age_elems(s.last(), sort_by_age(p));
        assert forall|k: int| 0 <= k < sort_by_age(s).len() implies s.contains(#[trigger] sort_by_age(s)[k]) by {
            let e = sort_by_age(s)[k];
            if e == s.last() {
                assert(s[s.len() - 1] == e);
            } else {
                assert(sort_by_age(p).contains(e));
                let j = choose|j: int| 0 <= j < sort_by_age(p).len() && sort_by_age(p)[j] == e;
                assert(p.contains(e));
                let q = choose|q: int| 0 <= q < p.len() && p[q] == e;
                assert(s[q] == e);
            }
        }
    }
}

/// A start lying `d` whole days or more before `now` (two instants within
/// their seconds) is at least `d` days old.
proof fn lemma_age_at_least(since: (i64, u32), now: (i64, u32), d: int)
    requires
        d >= 0,
        since.1 < 1_000_000_000,
        now.1 < 1_000_000_000,
        since.0 < now.0 - d * 86400 || (since.0 == now.0 - d * 86400 && since.1 < now.1),
    ensures
        crate::segments::trunc_div(crate::segments::whole_seconds(crate::segments::span_parts(since, now)), 86400)
            >= d,
{
    let sp = crate::segments::span_parts(since, now);
    let secs0 = now.0 - since.0;
    let frac = now.1 - since.1;
    assert(sp.0 == secs0 + frac / 1_000_000_000);
    assert(sp.1 == frac % 1_000_000_000);
    let w = crate::segments::whole_seconds(sp);
    assert(w >= d * 86400);
    assert(w / 86400 >= d) by (nonlinear_arith)
        requires
            w >= d * 86400,
            d >= 0,
    ;
}

/// What every listed stale entry satisfies: it started (else was created)
/// more than `days` (at least zero) days of seconds before `now`, and,
/// for instants within their seconds, is at least `days` days old.
proof fn lemma_stale_from_old_enough(cands: Seq<StaleCandidate>, now: (i64, u32), days: i64)
    ensures
        forall|k: int|
            0 <= k < stale_from(cands, now, days).len() ==> {
                let e = #[trigger] stale_from(cands, now, days)[k];
                let d: int = if days < 0 {
                    0
                } else {
                    days as int
                };
                &&& e.4.0 + d * 86400 < now.0 || (e.4.0 + d * 86400 == now.0 && e.4.1 < now.1)
                &&& (e.4.1 < 1_000_000_000 && now.1 < 1_000_000_000) ==> e.5 >= d
            },
    decreases cands.len(),
{
    if cands.len() > 0 {
        let p = cands.drop_last();
        lemma_stale_from_old_enough(p, now, days);
        let d: int = if days < 0 {
            0
        } else {
            days as int
        };
        let since = since_of(cands.last());
        if since.1 < 1_000_000_000 && now.1 < 1_000_000_000 && (since.0 < now.0 - d * 86400 || (
        since.0 == now.0 - d * 86400 && since.1 < now.1)) {
            lemma_age_at_least(since, now, d);
        }
        let r = stale_from(cands, now, days);
        assert forall|k: int| 0 <= k < r.len() && k < stale_from(p, now, days).len() implies r[k]
            == stale_from(p, now, days)[k] by {}
    }
}

/// Stale tasks are really stale: every listed task started (else was
/// created) strictly more than `days` (at least zero) times 86400 seconds
/// before `now`, and, when both instants lie within their seconds, its age
/// is at least `days` whole days.
pub proof fn law_stale_entries_old_enough(cands: Seq<StaleCandidate>, now: (i64, u32), days: i64)
    ensures
        forall|k: int|
            0 <= k < sort_by_age(stale_from(cands, now, days)).len() ==> {
                let e = #[trigger] sort_by_age(stale_from(cands, now, days))[k];
                let d: int = if days < 0 {
                    0
                } else {
                    days as int
                };
                &&& e.4.0 + d * 86400 < now.0 || (e.4.0 + d * 86400 == now.0 && e.4.1 < now.1)
                &&& (e.4.1 < 1_000_000_000 && now.1 < 1_000_000_000) ==> e.5 >= d
            },
{
    let s = stale_from(cands, now, days);
    lemma_stale_from_old_enough(cands, now, days);
    lemma_sort_by_age_elems(s);
    assert forall|k: int| 0 <= k < sort_by_age(s).len() implies ({
        let e = #[trigger] sort_by_age(s)[k];
        let d: int = if days < 0 {
            0
        } else {
            days as int
        };
        &&& e.4.0 + d * 86400 < now.0 || (e.4.0 + d * 86400 == now.0 && e.4.1 < now.1)
        &&& (e.4.1 < 1_000_000_000 && now.1 < 1_000_000_000) ==> e.5 >= d
    }) by {
        let e = sort_by_age(s)[k];
        assert(s.contains(e));
        let q = choose|q: int| 0 <= q < s.len() && s[q] == e;
        assert(s[q] == e);
    }
}

/// The HTTP status a plan-tool error answers with: 404 for what is not
/// found, 409 for conflicts, 400 for bad input, 500 otherwise.
pub open spec fn plan_error_status_spec(e: PlanToolError) -> u16 {
    match e {
        PlanToolError::Substrate(se) => match se.kind {
            StoreErrorKind::PlanNotFound | StoreErrorKind::TaskNotFound
            | StoreErrorKind::ParentNotFound => 404,
            StoreErrorKind::PlanAlreadyExists | StoreErrorKind::Blocked
            | StoreErrorKind::BlockerNotFound | StoreErrorKind::InvalidTransition => 409,
            StoreErrorKind::ProofRequired | StoreErrorKind::ReasonRequired
            | StoreErrorKind::ParentIsSubtask | StoreErrorKind::InvalidBlockerId => 400,
            StoreErrorKind::Other => 500,
        },
        PlanToolError::InvalidProof(_) | PlanToolError::InvalidPriority(_)
        | PlanToolError::InvalidInput(_) => 400,
        PlanToolError::Repo(_) => 500,
    }
}

/// The HTTP status and body a plan-tool error answers with.
pub fn plan_error_to_response(err: &PlanToolError) -> (r: (u16, String))
    ensures
        r.0 == plan_error_status_spec(*err),
        r.1@ == plan_error_text(*err),
{
    let status: u16 = match err {
        PlanToolError::Substrate(se) => match se.kind {
            StoreErrorKind::PlanNotFound | StoreErrorKind::TaskNotFound
            | StoreErrorKind::ParentNotFound => 404,
            StoreErrorKind::PlanAlreadyExists | StoreErrorKind::Blocked
            | StoreErrorKind::BlockerNotFound | StoreErrorKind::InvalidTransition => 409,
            StoreErrorKind::ProofRequired | StoreErrorKind::ReasonRequired
            | StoreErrorKind::ParentIsSubtask | StoreErrorKind::InvalidBlockerId => 400,
            StoreErrorKind::Other => 500,
        },
        PlanToolError::InvalidProof(_) | PlanToolError::InvalidPriority(_)
        | PlanToolError::InvalidInput(_) => 400,
        PlanToolError::Repo(_) => 500,
    };
    (status, err.message())
}


// ---------------------------------------------------------------------------
// Which namespaces a listing scans
// ---------------------------------------------------------------------------

/// The namespaces a plan listing scans: the request's own namespace, or,
/// for a listing over all namespaces, every listed namespace together with
/// `default`, sorted, each once.
pub fn scan_namespaces(all_namespaces: bool, request_ns: &String, listed: &Vec<String>) -> (r: Vec<String>)
    ensures
        !all_namespaces ==> views(r@) == seq![request_ns@],
        all_namespaces ==> names_ascending(views(r@)),
        all_namespaces ==> views(r@).to_set() == views(listed@).to_set().insert(DEFAULT_NAMESPACE@),
{
    if !all_namespaces {
        let mut r: Vec<String> = Vec::new();
        r.push(copy_string(request_ns));
        proof {
            assert(views(r@) =~= seq![request_ns@]);
        }
        return r;
    }
    let mut r: Vec<String> = Vec::new();
    let n: usize = listed.len();
    let mut i: usize = 0;
    proof {
        assert(views(r@).to_set() =~= views(listed@.take(0)).to_set());
    }
    while i < n
        invariant
            n == listed@.len(),
            i <= n,
            names_ascending(views(r@)),
            views(r@).to_set() == views(listed@.take(i as int)).to_set(),
        decreases n - i,
    {
        insert_name(&mut r, copy_string(&listed[i]));
        proof {
            assert(views(listed@.take(i + 1)) =~= views(listed@.take(i as int)).push(listed@[i as int]@));
            views(listed@.take(i as int)).lemma_push_to_set_commute(listed@[i as int]@);
        }
        i = i + 1;
    }
    proof {
        assert(listed@.take(n as int) =~= listed@);
    }
    insert_name(&mut r, owned(DEFAULT_NAMESPACE));
    r
}


// ---------------------------------------------------------------------------
// Cross-plan links
// ---------------------------------------------------------------------------

/// The `plan/task` targets after linking `target`: appended unless listed.
pub open spec fn with_target(links: Seq<Seq<char>>, target: Seq<char>) -> Seq<Seq<char>> {
    if links.contains(target) {
        links
    } else {
        links.push(target)
    }
}

/// Linking the same target twice is linking it once.
pub proof fn law_link_idempotent(links: Seq<Seq<char>>, target: Seq<char>)
    ensures
        with_target(with_target(links, target), target) == with_target(links, target),
        with_target(links, target).contains(target),
{
    if !links.contains(target) {
        assert(links.push(target)[links.len() as int] == target);
    }
}

/// What recording "task `task_id` of plan `name`, when done, satisfies
/// `target`" writes: where, the commit's intent, and the whole list.
#[derive(Debug)]
pub struct PlanLink {
    pub path: String,
    pub intent: String,
    pub satisfies: Vec<String>,
}

/// Links task `task_id` of plan `name` to `target` (a `plan/task` of
/// another plan), given the targets it already satisfies; a target
/// without `/` is refused with 400.
pub fn link_plan(name: &str, task_id: &str, target: &str, existing: &Vec<String>) -> (r: Result<PlanLink, (u16, String)>)
    ensures
        !target@.contains('/') ==> (r matches Err((status, msg)) && status == 400 && msg@
            == "target must be 'plan/task' (e.g. other-plan/t-002)"@),
        target@.contains('/') ==> (r matches Ok(l) && l.path@ == "/plan_links/"@ + name@ + "/"@
            + task_id@ && l.intent@ == name@ + "/"@ + task_id@ + " satisfies "@ + target@ && views(
            l.satisfies@,
        ) == with_target(views(existing@), target@)),
{
    let t = chars_of(target);
    if !has_char(&t, '/') {
        return Err((400, owned("target must be 'plan/task' (e.g. other-plan/t-002)")));
    }
    let n: usize = existing.len();
    let mut found = false;
    let mut i: usize = 0;
    while i < n
        invariant
            n == existing@.len(),
            i <= n,
            found == views(existing@).take(i as int).contains(target@),
        decreases n - i,
    {
        proof {
            broadcast use vstd::seq_lib::group_seq_properties;

            assert(views(existing@).take(i + 1) =~= views(existing@).take(i as int).push(existing@[i as int]@));
        }
        if str_eq(existing[i].as_str(), target) {
            found = true;
        }
        i = i + 1;
    }
    proof {
        assert(views(existing@).take(n as int) =~= views(existing@));
    }
    let mut satisfies: Vec<String> = Vec::new();
    let mut j: usize = 0;
    while j < n
        invariant
            n == existing@.len(),
            j <= n,
            views(satisfies@) == views(existing@).take(j as int),
        decreases n - j,
    {
        let ghost before = satisfies@;
        satisfies.push(copy_string(&existing[j]));
        proof {
            assert(views(satisfies@) =~= views(before).push(existing@[j as int]@));
            assert(views(existing@).take(j + 1) =~= views(existing@).take(j as int).push(existing@[j as int]@));
        }
        j = j + 1;
    }
    proof {
        assert(views(existing@).take(n as int) =~= views(existing@));
    }
    if !found {
        let ghost before = satisfies@;
        satisfies.push(owned(target));
        proof {
            assert(views(satisfies@) =~= views(before).push(target@));
        }
    }
    let path = crate::hub::plan_link_path(name, task_id);
    let mut intent = owned(name);
    push_str(&mut intent, "/");
    push_str(&mut intent, task_id);
    push_str(&mut intent, " satisfies ");
    push_str(&mut intent, target);
    Ok(PlanLink { path, intent, satisfies })
}

} // verus!
