//! Reminder tools: the request types and their reading into reminders,
//! schedules, references, filters and execution records, and the labels of
//! the reminder vocabulary.

use vstd::prelude::*;

use crate::text::{
    chars_of, chars_eq, copy_string, slice_chars, has_suffix, lower_chars, lower_seq, owned, push_chars,
    push_str, str_eq, string_of,
};

verus! {

// ---------------------------------------------------------------------------
// Vocabulary
// ---------------------------------------------------------------------------

/// A reminder's priority.
#[derive(Debug, Clone, Copy, PartialEq, Eq, Structural)]
pub enum Priority {
    Critical,
    High,
    Medium,
    Low,
    Minimal,
}

/// Where a reminder is in its life.
#[derive(Debug, Clone, Copy, PartialEq, Eq, Structural)]
pub enum ReminderStatus {
    Pending,
    Due,
    AwaitingPermission,
    InProgress,
    Completed,
    Snoozed,
    Cancelled,
}

/// How an execution attempt ended.
#[derive(Debug, Clone, Copy, PartialEq, Eq, Structural)]
pub enum ExecutionResult {
    Success,
    Failed,
    Deferred,
    Snoozed,
    Cancelled,
}

/// A day of the week.
#[derive(Debug, Clone, Copy, PartialEq, Eq, Structural)]
pub enum Weekday {
    Mon,
    Tue,
    Wed,
    Thu,
    Fri,
    Sat,
    Sun,
}

/// A wall-clock time of day (UTC): hour and minute.
#[derive(Debug, Clone, Copy, PartialEq, Eq, Structural)]
pub struct TimeOfDay {
    pub hour: u32,
    pub minute: u32,
}

/// When a reminder recurs.
#[derive(Debug, Clone, Copy, PartialEq, Eq, Structural)]
pub enum Schedule {
    Once,
    Interval { every_seconds: u64 },
    Daily { time: TimeOfDay },
    Weekly { day: Weekday, time: TimeOfDay },
}

fn lit_eq(s: &Vec<char>, lit: &str) -> (r: bool)
    ensures
        r == (s@ == lit@),
{
    chars_eq(s, &chars_of(lit))
}

/// The name of a priority.
pub fn priority_label(p: Priority) -> (r: &'static str)
    ensures
        r@ == match p {
            Priority::Critical => "critical"@,
            Priority::High => "high"@,
            Priority::Medium => "medium"@,
            Priority::Low => "low"@,
            Priority::Minimal => "minimal"@,
        },
{
    match p {
        Priority::Critical => "critical",
        Priority::High => "high",
        Priority::Medium => "medium",
        Priority::Low => "low",
        Priority::Minimal => "minimal",
    }
}

/// The name of a status.
pub fn status_label(s: ReminderStatus) -> (r: &'static str)
    ensures
        r@ == match s {
            ReminderStatus::Pending => "pending"@,
            ReminderStatus::Due => "due"@,
            ReminderStatus::AwaitingPermission => "awaiting_permission"@,
            ReminderStatus::InProgress => "in_progress"@,
            ReminderStatus::Completed => "completed"@,
            ReminderStatus::Snoozed => "snoozed"@,
            ReminderStatus::Cancelled => "cancelled"@,
        },
{
    match s {
        ReminderStatus::Pending => "pending",
        ReminderStatus::Due => "due",
        ReminderStatus::AwaitingPermission => "awaiting_permission",
        ReminderStatus::InProgress => "in_progress",
        ReminderStatus::Completed => "completed",
        ReminderStatus::Snoozed => "snoozed",
        ReminderStatus::Cancelled => "cancelled",
    }
}

/// The name of an execution result.
pub fn result_label(r: ExecutionResult) -> (s: &'static str)
    ensures
        s@ == match r {
            ExecutionResult::Success => "success"@,
            ExecutionResult::Failed => "failed"@,
            ExecutionResult::Deferred => "deferred"@,
            ExecutionResult::Snoozed => "snoozed"@,
            ExecutionResult::Cancelled => "cancelled"@,
        },
{
    match r {
        ExecutionResult::Success => "success",
        ExecutionResult::Failed => "failed",
        ExecutionResult::Deferred => "deferred",
        ExecutionResult::Snoozed => "snoozed",
        ExecutionResult::Cancelled => "cancelled",
    }
}

/// The lowercase three-letter name of a weekday, as reminders render it.
pub fn weekday_label(d: Weekday) -> (r: &'static str)
    ensures
        r@ == match d {
            Weekday::Mon => "mon"@,
            Weekday::Tue => "tue"@,
            Weekday::Wed => "wed"@,
            Weekday::Thu => "thu"@,
            Weekday::Fri => "fri"@,
            Weekday::Sat => "sat"@,
            Weekday::Sun => "sun"@,
        },
{
    match d {
        Weekday::Mon => "mon",
        Weekday::Tue => "tue",
        Weekday::Wed => "wed",
        Weekday::Thu => "thu",
        Weekday::Fri => "fri",
        Weekday::Sat => "sat",
        Weekday::Sun => "sun",
    }
}

/// The priority a (case-insensitive) name gives.
pub open spec fn priority_of(s: Seq<char>) -> Option<Priority> {
    let l = lower_seq(s);
    if l == "critical"@ {
        Some(Priority::Critical)
    } else if l == "high"@ {
        Some(Priority::High)
    } else if l == "medium"@ {
        Some(Priority::Medium)
    } else if l == "low"@ {
        Some(Priority::Low)
    } else if l == "minimal"@ {
        Some(Priority::Minimal)
    } else {
        None
    }
}

/// Parses a priority name, ignoring ASCII case.
pub fn parse_priority(s: &str) -> (r: Option<Priority>)
    ensures
        r == priority_of(s@),
{
    let l = lower_chars(&chars_of(s));
    if lit_eq(&l, "critical") {
        Some(Priority::Critical)
    } else if lit_eq(&l, "high") {
        Some(Priority::High)
    } else if lit_eq(&l, "medium") {
        Some(Priority::Medium)
    } else if lit_eq(&l, "low") {
        Some(Priority::Low)
    } else if lit_eq(&l, "minimal") {
        Some(Priority::Minimal)
    } else {
        None
    }
}

/// The status a (case-insensitive) name gives.
pub open spec fn status_of(s: Seq<char>) -> Option<ReminderStatus> {
    let l = lower_seq(s);
    if l == "pending"@ {
        Some(ReminderStatus::Pending)
    } else if l == "due"@ {
        Some(ReminderStatus::Due)
    } else if l == "awaiting_permission"@ {
        Some(ReminderStatus::AwaitingPermission)
    } else if l == "in_progress"@ {
        Some(ReminderStatus::InProgress)
    } else if l == "completed"@ {
        Some(ReminderStatus::Completed)
    } else if l == "snoozed"@ {
        Some(ReminderStatus::Snoozed)
    } else if l == "cancelled"@ {
        Some(ReminderStatus::Cancelled)
    } else {
        None
    }
}

/// Parses a status name, ignoring ASCII case.
pub fn parse_status(s: &str) -> (r: Option<ReminderStatus>)
    ensures
        r == status_of(s@),
{
    let l = lower_chars(&chars_of(s));
    if lit_eq(&l, "pending") {
        Some(ReminderStatus::Pending)
    } else if lit_eq(&l, "due") {
        Some(ReminderStatus::Due)
    } else if lit_eq(&l, "awaiting_permission") {
        Some(ReminderStatus::AwaitingPermission)
    } else if lit_eq(&l, "in_progress") {
        Some(ReminderStatus::InProgress)
    } else if lit_eq(&l, "completed") {
        Some(ReminderStatus::Completed)
    } else if lit_eq(&l, "snoozed") {
        Some(ReminderStatus::Snoozed)
    } else if lit_eq(&l, "cancelled") {
        Some(ReminderStatus::Cancelled)
    } else {
        None
    }
}

/// The execution result a (case-insensitive) name gives.
pub open spec fn result_of(s: Seq<char>) -> Option<ExecutionResult> {
    let l = lower_seq(s);
    if l == "success"@ {
        Some(ExecutionResult::Success)
    } else if l == "failed"@ {
        Some(ExecutionResult::Failed)
    } else if l == "deferred"@ {
        Some(ExecutionResult::Deferred)
    } else if l == "snoozed"@ {
        Some(ExecutionResult::Snoozed)
    } else if l == "cancelled"@ {
        Some(ExecutionResult::Cancelled)
    } else {
        None
    }
}

/// Parses an execution result name, ignoring ASCII case.
pub fn parse_result(s: &str) -> (r: Option<ExecutionResult>)
    ensures
        r == result_of(s@),
{
    let l = lower_chars(&chars_of(s));
    if lit_eq(&l, "success") {
        Some(ExecutionResult::Success)
    } else if lit_eq(&l, "failed") {
        Some(ExecutionResult::Failed)
    } else if lit_eq(&l, "deferred") {
        Some(ExecutionResult::Deferred)
    } else if lit_eq(&l, "snoozed") {
        Some(ExecutionResult::Snoozed)
    } else if lit_eq(&l, "cancelled") {
        Some(ExecutionResult::Cancelled)
    } else {
        None
    }
}

/// `s` without its trailing `day`s (`trim_end_matches("day")`).
pub open spec fn trim_days(s: Seq<char>) -> Seq<char>
    decreases s.len(),
{
    if s.len() >= 3 && has_suffix(s, "day"@) {
        trim_days(s.subrange(0, s.len() - 3))
    } else {
        s
    }
}

/// The weekday a name gives: its three-letter abbreviation or its full
/// name, in any ASCII case (trailing `day`s are ignored after an
/// abbreviation).
pub open spec fn weekday_of(s: Seq<char>) -> Option<Weekday> {
    let l = lower_seq(s);
    let t = trim_days(l);
    if t == "mon"@ || l == "monday"@ {
        Some(Weekday::Mon)
    } else if t == "tue"@ || l == "tuesday"@ {
        Some(Weekday::Tue)
    } else if t == "wed"@ || l == "wednesday"@ {
        Some(Weekday::Wed)
    } else if t == "thu"@ || l == "thursday"@ {
        Some(Weekday::Thu)
    } else if t == "fri"@ || l == "friday"@ {
        Some(Weekday::Fri)
    } else if t == "sat"@ || l == "saturday"@ {
        Some(Weekday::Sat)
    } else if t == "sun"@ || l == "sunday"@ {
        Some(Weekday::Sun)
    } else {
        None
    }
}

/// Parses a weekday name (Mon/Monday/mon…).
pub fn parse_weekday(s: &str) -> (r: Option<Weekday>)
    ensures
        r == weekday_of(s@),
{
    let l = lower_chars(&chars_of(s));
    let day = chars_of("day");
    let mut j: usize = l.len();
    assert(l@.subrange(0, j as int) =~= l@);
    while j >= 3 && crate::text::ends_with(&slice_chars3(&l, j), &day)
        invariant
            j <= l@.len(),
            day@ == "day"@,
            trim_days(l@) == trim_days(l@.subrange(0, j as int)),
        decreases j,
    {
        assert(l@.subrange(0, j as int).subrange(0, j - 3) =~= l@.subrange(0, j - 3));
        j = j - 3;
    }
    let t = slice_chars3(&l, j);
    if lit_eq(&t, "mon") || lit_eq(&l, "monday") {
        Some(Weekday::Mon)
    } else if lit_eq(&t, "tue") || lit_eq(&l, "tuesday") {
        Some(Weekday::Tue)
    } else if lit_eq(&t, "wed") || lit_eq(&l, "wednesday") {
        Some(Weekday::Wed)
    } else if lit_eq(&t, "thu") || lit_eq(&l, "thursday") {
        Some(Weekday::Thu)
    } else if lit_eq(&t, "fri") || lit_eq(&l, "friday") {
        Some(Weekday::Fri)
    } else if lit_eq(&t, "sat") || lit_eq(&l, "saturday") {
        Some(Weekday::Sat)
    } else if lit_eq(&t, "sun") || lit_eq(&l, "sunday") {
        Some(Weekday::Sun)
    } else {
        None
    }
}

fn slice_chars3(s: &Vec<char>, j: usize) -> (r: Vec<char>)
    requires
        j <= s@.len(),
    ensures
        r@ == s@.subrange(0, j as int),
{
    crate::text::slice_chars(s, 0, j)
}


// ---------------------------------------------------------------------------
// Times
// ---------------------------------------------------------------------------

/// What `chrono::NaiveTime::parse_from_str(s, fmt)` makes of `s`: `None`
/// when it rejects the text, else the hour and minute of the time it reads.
pub uninterp spec fn naive_time(s: Seq<char>, fmt: Seq<char>) -> Option<(u32, u32)>;

/// Parses a time of day with `chrono::NaiveTime::parse_from_str` and reads
/// the hour and minute back (`Timelike::hour`, `Timelike::minute`); the
/// result is what [`naive_time`] names.
#[verifier::external_body]
fn parse_naive_time(s: &str, fmt: &str) -> (r: Option<(u32, u32)>)
    ensures
        r == naive_time(s@, fmt@),
{
    match chrono::NaiveTime::parse_from_str(s, fmt) {
        Ok(t) => Some((chrono::Timelike::hour(&t), chrono::Timelike::minute(&t))),
        Err(_) => None,
    }
}

/// The format of schedule times.
pub const HHMM_FORMAT: &'static str = "%H:%M";

/// The hour and minute an `HH:MM` text gives, as `chrono` reads it with
/// [`HHMM_FORMAT`].
pub open spec fn hhmm_time(s: Seq<char>) -> Option<(u32, u32)> {
    naive_time(s, HHMM_FORMAT@)
}

/// What `s.parse::<chrono::DateTime<chrono::Utc>>()` makes of `s` (relaxed
/// RFC 3339): `None` when it rejects the text, else the instant as seconds
/// since the Unix epoch and the nanosecond within the second.
pub uninterp spec fn utc_datetime(s: Seq<char>) -> Option<(i64, u32)>;

/// Parses a datetime with `str::parse::<chrono::DateTime<chrono::Utc>>` and
/// reads the instant back with `timestamp` and `timestamp_subsec_nanos`;
/// the result is what [`utc_datetime`] names.
#[verifier::external_body]
fn parse_utc_datetime(s: &str) -> (r: Option<(i64, u32)>)
    ensures
        r == utc_datetime(s@),
{
    match s.parse::<chrono::DateTime<chrono::Utc>>() {
        Ok(d) => Some((d.timestamp(), d.timestamp_subsec_nanos())),
        Err(_) => None,
    }
}

// ---------------------------------------------------------------------------
// Errors
// ---------------------------------------------------------------------------

/// Errors of the reminder tools.
#[derive(Debug, Clone, PartialEq, Eq)]
pub enum ReminderToolError {
    /// An error the reminder store reported, by its message.
    Store(String),
    InvalidInput(String),
}

/// The message of a reminder-tool error.
pub open spec fn reminder_error_text(e: ReminderToolError) -> Seq<char> {
    match e {
        ReminderToolError::Store(m) => m@,
        ReminderToolError::InvalidInput(m) => "invalid input: "@ + m@,
    }
}

impl ReminderToolError {
    /// The error's message.
    pub fn message(&self) -> (r: String)
        ensures
            r@ == reminder_error_text(*self),
    {
        match self {
            ReminderToolError::Store(m) => copy_string(m),
            ReminderToolError::InvalidInput(m) => {
                let mut s = owned("invalid input: ");
                push_str(&mut s, m.as_str());
                s
            },
        }
    }
}

/// `e` is the invalid-input error with message `m`.
pub open spec fn invalid_input(e: ReminderToolError, m: Seq<char>) -> bool {
    e matches ReminderToolError::InvalidInput(x) && x@ == m
}

/// Parses an ISO 8601 / RFC 3339 datetime.
pub fn parse_datetime(s: &str) -> (r: Result<(i64, u32), ReminderToolError>)
    ensures
        match r {
            Ok(t) => utc_datetime(s@) == Some(t),
            Err(e) => utc_datetime(s@) is None && invalid_input(
                e,
                "invalid datetime '"@ + s@
                    + "' — use ISO 8601 / RFC 3339 (e.g. 2026-05-02T14:00:00Z)"@,
            ),
        },
{
    match parse_utc_datetime(s) {
        Some(t) => Ok(t),
        None => {
            let mut m = owned("invalid datetime '");
            push_str(&mut m, s);
            push_str(&mut m, "' — use ISO 8601 / RFC 3339 (e.g. 2026-05-02T14:00:00Z)");
            Err(ReminderToolError::InvalidInput(m))
        },
    }
}

/// Parses an `HH:MM` time for daily and weekly schedules.
pub fn parse_hhmm(s: &str) -> (r: Result<TimeOfDay, ReminderToolError>)
    ensures
        match r {
            Ok(t) => hhmm_time(s@) == Some((t.hour, t.minute)),
            Err(e) => hhmm_time(s@) is None && invalid_input(
                e,
                "invalid time '"@ + s@ + "' — use HH:MM (e.g. 09:00)"@,
            ),
        },
{
    match parse_naive_time(s, HHMM_FORMAT) {
        Some((h, m)) => Ok(TimeOfDay { hour: h, minute: m }),
        None => {
            let mut msg = owned("invalid time '");
            push_str(&mut msg, s);
            push_str(&mut msg, "' — use HH:MM (e.g. 09:00)");
            Err(ReminderToolError::InvalidInput(msg))
        },
    }
}

// ---------------------------------------------------------------------------
// Schedules and references
// ---------------------------------------------------------------------------

/// Recurrence schedule of a create request: `kind` is once, interval,
/// daily or weekly.
#[derive(Debug)]
pub struct ScheduleParam {
    pub kind: String,
    /// Seconds between executions (for `interval`).
    pub every_seconds: Option<u64>,
    /// UTC wall-clock time as `HH:MM` (for `daily` and `weekly`).
    pub time: Option<String>,
    /// Day of week (for `weekly`).
    pub day: Option<String>,
}

/// The schedule a schedule parameter asks for, or the message of the
/// invalid-input error it gets.
pub open spec fn schedule_of(p: ScheduleParam) -> Result<Schedule, Seq<char>> {
    let k = lower_seq(p.kind@);
    if k == "once"@ {
        Ok(Schedule::Once)
    } else if k == "interval"@ {
        match p.every_seconds {
            Some(secs) => Ok(Schedule::Interval { every_seconds: secs }),
            None => Err("interval schedule requires every_seconds"@),
        }
    } else if k == "daily"@ {
        match p.time {
            None => Err("daily schedule requires time (HH:MM)"@),
            Some(t) => match hhmm_time(t@) {
                Some(hm) => Ok(Schedule::Daily { time: TimeOfDay { hour: hm.0, minute: hm.1 } }),
                None => Err("invalid time '"@ + t@ + "' — use HH:MM (e.g. 09:00)"@),
            },
        }
    } else if k == "weekly"@ {
        match p.time {
            None => Err("weekly schedule requires time (HH:MM)"@),
            Some(t) => match p.day {
                None => Err("weekly schedule requires day (Mon/Tue/…)"@),
                Some(d) => match weekday_of(d@) {
                    None => Err(
                        "unknown weekday '"@ + d@ + "' — use Mon/Tue/Wed/Thu/Fri/Sat/Sun"@,
                    ),
                    Some(day) => match hhmm_time(t@) {
                        Some(hm) => Ok(
                            Schedule::Weekly {
                                day,
                                time: TimeOfDay { hour: hm.0, minute: hm.1 },
                            },
                        ),
                        None => Err("invalid time '"@ + t@ + "' — use HH:MM (e.g. 09:00)"@),
                    },
                },
            },
        }
    } else {
        Err("unknown schedule kind '"@ + k + "' — use once|interval|daily|weekly"@)
    }
}

/// `r` is what `spec` says: the value, or the invalid-input error with the
/// message.
pub open spec fn result_is<T>(r: Result<T, ReminderToolError>, spec: Result<T, Seq<char>>) -> bool {
    match spec {
        Ok(v) => r == Ok::<T, ReminderToolError>(v),
        Err(m) => r matches Err(e) && invalid_input(e, m),
    }
}

impl ScheduleParam {
    /// The schedule this parameter asks for.
    pub fn into_schedule(self) -> (r: Result<Schedule, ReminderToolError>)
        ensures
            result_is(r, schedule_of(self)),
    {
        let k = lower_chars(&chars_of(self.kind.as_str()));
        if lit_eq(&k, "once") {
            Ok(Schedule::Once)
        } else if lit_eq(&k, "interval") {
            match self.every_seconds {
                Some(secs) => Ok(Schedule::Interval { every_seconds: secs }),
                None => Err(
                    ReminderToolError::InvalidInput(owned("interval schedule requires every_seconds")),
                ),
            }
        } else if lit_eq(&k, "daily") {
            match self.time {
                None => Err(ReminderToolError::InvalidInput(owned("daily schedule requires time (HH:MM)"))),
                Some(t) => {
                    let time = parse_hhmm(t.as_str())?;
                    Ok(Schedule::Daily { time })
                },
            }
        } else if lit_eq(&k, "weekly") {
            let t = match self.time {
                None => {
                    return Err(
                        ReminderToolError::InvalidInput(owned("weekly schedule requires time (HH:MM)")),
                    );
                },
                Some(t) => t,
            };
            let d = match self.day {
                None => {
                    return Err(
                        ReminderToolError::InvalidInput(owned("weekly schedule requires day (Mon/Tue/…)")),
                    );
                },
                Some(d) => d,
            };
            let day = match parse_weekday(d.as_str()) {
                Some(day) => day,
                None => {
                    let mut m = owned("unknown weekday '");
                    push_str(&mut m, d.as_str());
                    push_str(&mut m, "' — use Mon/Tue/Wed/Thu/Fri/Sat/Sun");
                    return Err(ReminderToolError::InvalidInput(m));
                },
            };
            let time = parse_hhmm(t.as_str())?;
            Ok(Schedule::Weekly { day, time })
        } else {
            let mut m = owned("unknown schedule kind '");
            push_chars(&mut m, &k);
            push_str(&mut m, "' — use once|interval|daily|weekly");
            Err(ReminderToolError::InvalidInput(m))
        }
    }
}

/// What a reference points at.
#[derive(Debug, Clone, PartialEq, Eq)]
pub enum RefKind {
    Branch,
    Memory,
    Plan,
    Task,
    StatePath,
    External { scheme: String },
}

/// A soft reference from a reminder to another object.
#[derive(Debug, Clone, PartialEq, Eq)]
pub struct ReminderRef {
    pub kind: RefKind,
    pub id: String,
    pub label: Option<String>,
    pub stale: bool,
}

/// A reference as a create request carries it.
#[derive(Debug)]
pub struct ReminderRefParam {
    /// branch | memory | plan | task | state_path | external
    pub kind: String,
    pub id: String,
    pub label: Option<String>,
    /// The scheme of an external reference (default `https`).
    pub scheme: Option<String>,
}

/// The kind a reference parameter names, by its lowercased kind and
/// scheme: `None` for an unknown kind; an external one without a scheme
/// takes `https`.
pub open spec fn ref_kind_of(kind: Seq<char>, scheme: Option<Seq<char>>) -> Option<(nat, Seq<char>)> {
    let k = lower_seq(kind);
    if k == "branch"@ {
        Some((0, Seq::empty()))
    } else if k == "memory"@ {
        Some((1, Seq::empty()))
    } else if k == "plan"@ {
        Some((2, Seq::empty()))
    } else if k == "task"@ {
        Some((3, Seq::empty()))
    } else if k == "state_path"@ {
        Some((4, Seq::empty()))
    } else if k == "external"@ {
        Some(
            (
                5,
                match scheme {
                    Some(s) => s,
                    None => "https"@,
                },
            ),
        )
    } else {
        None
    }
}

/// A reference kind as (tag, external scheme).
pub open spec fn ref_kind_view(k: RefKind) -> (nat, Seq<char>) {
    match k {
        RefKind::Branch => (0, Seq::empty()),
        RefKind::Memory => (1, Seq::empty()),
        RefKind::Plan => (2, Seq::empty()),
        RefKind::Task => (3, Seq::empty()),
        RefKind::StatePath => (4, Seq::empty()),
        RefKind::External { scheme } => (5, scheme@),
    }
}

/// The characters of an optional string.
pub open spec fn opt_view(o: Option<String>) -> Option<Seq<char>> {
    match o {
        Some(s) => Some(s@),
        None => None,
    }
}

/// `r` is the reference parameter `p` asks for, or its error.
pub open spec fn ref_read(p: ReminderRefParam, r: Result<ReminderRef, ReminderToolError>) -> bool {
    match ref_kind_of(p.kind@, opt_view(p.scheme)) {
        Some(kv) => r matches Ok(rf) && ref_kind_view(rf.kind) == kv && rf.id@ == p.id@ && opt_view(
            rf.label,
        ) == opt_view(p.label) && !rf.stale,
        None => r matches Err(e) && invalid_input(
            e,
            "unknown ref kind '"@ + lower_seq(p.kind@)
                + "' — use branch|memory|plan|task|state_path|external"@,
        ),
    }
}

impl ReminderRefParam {
    /// The reference this parameter asks for; not stale.
    pub fn into_reminder_ref(self) -> (r: Result<ReminderRef, ReminderToolError>)
        ensures
            ref_read(self, r),
    {
        let k = lower_chars(&chars_of(self.kind.as_str()));
        let kind = if lit_eq(&k, "branch") {
            RefKind::Branch
        } else if lit_eq(&k, "memory") {
            RefKind::Memory
        } else if lit_eq(&k, "plan") {
            RefKind::Plan
        } else if lit_eq(&k, "task") {
            RefKind::Task
        } else if lit_eq(&k, "state_path") {
            RefKind::StatePath
        } else if lit_eq(&k, "external") {
            let scheme = match self.scheme {
                Some(s) => s,
                None => owned("https"),
            };
            RefKind::External { scheme }
        } else {
            let mut m = owned("unknown ref kind '");
            push_chars(&mut m, &k);
            push_str(&mut m, "' — use branch|memory|plan|task|state_path|external");
            return Err(ReminderToolError::InvalidInput(m));
        };
        Ok(ReminderRef { kind, id: self.id, label: self.label, stale: false })
    }
}


/// The reference a parameter asks for, read without consuming it.
fn ref_from(p: &ReminderRefParam) -> (r: Result<ReminderRef, ReminderToolError>)
    ensures
        ref_read(*p, r),
{
    let k = lower_chars(&chars_of(p.kind.as_str()));
    let kind = if lit_eq(&k, "branch") {
        RefKind::Branch
    } else if lit_eq(&k, "memory") {
        RefKind::Memory
    } else if lit_eq(&k, "plan") {
        RefKind::Plan
    } else if lit_eq(&k, "task") {
        RefKind::Task
    } else if lit_eq(&k, "state_path") {
        RefKind::StatePath
    } else if lit_eq(&k, "external") {
        let scheme = match &p.scheme {
            Some(s) => copy_string(s),
            None => owned("https"),
        };
        RefKind::External { scheme }
    } else {
        let mut m = owned("unknown ref kind '");
        push_chars(&mut m, &k);
        push_str(&mut m, "' — use branch|memory|plan|task|state_path|external");
        return Err(ReminderToolError::InvalidInput(m));
    };
    let label = match &p.label {
        Some(l) => Some(copy_string(l)),
        None => None,
    };
    Ok(ReminderRef { kind, id: copy_string(&p.id), label, stale: false })
}

// ---------------------------------------------------------------------------
// Creating reminders
// ---------------------------------------------------------------------------

/// A request to create a reminder.
#[derive(Debug)]
pub struct ReminderCreateParams {
    /// Short title (imperative, one line).
    pub title: String,
    /// Full instructions the agent should follow at execution time.
    pub instructions: String,
    /// Specific tool calls or commands to run.
    pub commands: Vec<String>,
    /// RFC 3339 datetime when the reminder becomes due.
    pub due_at: String,
    /// critical | high | medium (default) | low | minimal.
    pub priority: Option<String>,
    /// Whether the agent may execute without approval (default `true`).
    pub autonomous: Option<bool>,
    /// Recurrence; absent for a one-shot reminder.
    pub schedule: Option<ScheduleParam>,
    /// Soft references to other objects.
    pub refs: Vec<ReminderRefParam>,
    pub tags: Vec<String>,
}

/// A validated reminder, ready for the store.
#[derive(Debug)]
pub struct NewReminder {
    pub title: String,
    pub instructions: String,
    /// When it becomes due: seconds since the Unix epoch and nanoseconds.
    pub due_at: (i64, u32),
    pub created_by: String,
    pub priority: Priority,
    pub autonomous: bool,
    pub commands: Vec<String>,
    pub refs: Vec<ReminderRef>,
    pub tags: Vec<String>,
    pub schedule: Option<Schedule>,
}

/// The characters of each string.
pub open spec fn strings_view(v: Seq<String>) -> Seq<Seq<char>> {
    v.map_values(|s: String| s@)
}

/// The message of the first reference at or after `i` whose kind is
/// unknown, if any.
pub open spec fn refs_error_from(refs: Seq<ReminderRefParam>, i: int) -> Option<Seq<char>>
    decreases refs.len() - i,
{
    if i < 0 || i >= refs.len() {
        None
    } else if ref_kind_of(refs[i].kind@, opt_view(refs[i].scheme)) is None {
        Some(
            "unknown ref kind '"@ + lower_seq(refs[i].kind@)
                + "' — use branch|memory|plan|task|state_path|external"@,
        )
    } else {
        refs_error_from(refs, i + 1)
    }
}

/// The message of the invalid-input error a create request gets, checked
/// in order: the due time, the priority, the references, the schedule;
/// `None` when the request is valid.
pub open spec fn create_error(p: ReminderCreateParams) -> Option<Seq<char>> {
    if utc_datetime(p.due_at@) is None {
        Some(
            "invalid datetime '"@ + p.due_at@
                + "' — use ISO 8601 / RFC 3339 (e.g. 2026-05-02T14:00:00Z)"@,
        )
    } else if p.priority matches Some(s) && priority_of(s@) is None {
        Some("unknown priority '"@ + p.priority->0@ + "' — use critical|high|medium|low|minimal"@)
    } else if refs_error_from(p.refs@, 0) is Some {
        refs_error_from(p.refs@, 0)
    } else if p.schedule matches Some(sp) && schedule_of(sp) is Err {
        Some(schedule_of(p.schedule->0)->Err_0)
    } else {
        None
    }
}

/// `n` is the reminder that the valid request `p` asks for, created by
/// `agent`.
pub open spec fn reminder_of(p: ReminderCreateParams, agent: Seq<char>, n: NewReminder) -> bool {
    &&& utc_datetime(p.due_at@) == Some(n.due_at)
    &&& n.title@ == p.title@
    &&& n.instructions@ == p.instructions@
    &&& n.created_by@ == agent
    &&& n.priority == match p.priority {
        None => Priority::Medium,
        Some(s) => priority_of(s@)->0,
    }
    &&& n.autonomous == match p.autonomous {
        None => true,
        Some(b) => b,
    }
    &&& strings_view(n.commands@) == strings_view(p.commands@)
    &&& strings_view(n.tags@) == strings_view(p.tags@)
    &&& n.refs@.len() == p.refs@.len()
    &&& forall|i: int| 0 <= i < n.refs@.len() ==> ref_read(p.refs@[i], Ok(#[trigger] n.refs@[i]))
    &&& n.schedule == match p.schedule {
        None => None,
        Some(sp) => Some(schedule_of(sp)->Ok_0),
    }
}

/// Validates a create request into the reminder it asks for, created by
/// `default_agent`: medium priority and autonomous unless it says
/// otherwise.
pub fn create_reminder(params: ReminderCreateParams, default_agent: &str) -> (r: Result<
    NewReminder,
    ReminderToolError,
>)
    ensures
        match create_error(params) {
            None => r matches Ok(n) && reminder_of(params, default_agent@, n),
            Some(m) => r matches Err(e) && invalid_input(e, m),
        },
{
    let ghost p = params;
    let due_at = parse_datetime(params.due_at.as_str())?;
    let priority = match &params.priority {
        None => Priority::Medium,
        Some(s) => match parse_priority(s.as_str()) {
            Some(pr) => pr,
            None => {
                let mut m = owned("unknown priority '");
                push_str(&mut m, s.as_str());
                push_str(&mut m, "' — use critical|high|medium|low|minimal");
                return Err(ReminderToolError::InvalidInput(m));
            },
        },
    };
    let mut refs: Vec<ReminderRef> = Vec::new();
    let mut i: usize = 0;
    let n = params.refs.len();
    while i < n
        invariant
            n == params.refs@.len(),
            i <= n,
            refs@.len() == i,
            refs_error_from(params.refs@, 0) == refs_error_from(params.refs@, i as int),
            utc_datetime(params.due_at@) is Some,
            !(params.priority matches Some(s) && priority_of(s@) is None),
            forall|j: int| 0 <= j < i ==> ref_read(params.refs@[j], Ok(#[trigger] refs@[j])),
        decreases n - i,
    {
        let rf = ref_from(&params.refs[i]);
        match rf {
            Ok(x) => {
                refs.push(x);
            },
            Err(e) => {
                assert(ref_kind_of(params.refs@[i as int].kind@, opt_view(params.refs@[i as int].scheme)) is None);
                assert(refs_error_from(params.refs@, i as int) is Some);
                return Err(e);
            },
        }
        i = i + 1;
    }
    assert(refs_error_from(params.refs@, n as int) is None);
    let ReminderCreateParams {
        title,
        instructions,
        commands,
        due_at: _,
        priority: _,
        autonomous,
        schedule,
        refs: _,
        tags,
    } = params;
    let schedule = match schedule {
        None => None,
        Some(sp) => Some(sp.into_schedule()?),
    };
    let autonomous = match autonomous {
        None => true,
        Some(b) => b,
    };
    let created_by = owned(default_agent);
    Ok(NewReminder {
        title,
        instructions,
        due_at,
        created_by,
        priority,
        autonomous,
        commands,
        refs,
        tags,
        schedule,
    })
}


// ---------------------------------------------------------------------------
// Listing reminders
// ---------------------------------------------------------------------------

/// A request to list reminders.
#[derive(Debug)]
pub struct ReminderListParams {
    /// pending | due | awaiting_permission | in_progress | completed |
    /// snoozed | cancelled.
    pub status: Option<String>,
    /// Reminders with priority at most this one.
    pub priority_at_most: Option<String>,
    /// Reminders by this creator.
    pub created_by: Option<String>,
    /// Reminders due at or before this RFC 3339 datetime.
    pub due_before: Option<String>,
    /// Reminders with a soft reference to this id.
    pub ref_id: Option<String>,
    /// Tags that must all be present.
    pub tags: Vec<String>,
}

/// What the store is asked to list.
#[derive(Debug)]
pub struct ReminderFilter {
    pub status: Option<ReminderStatus>,
    pub priority_at_most: Option<Priority>,
    pub created_by: Option<String>,
    pub due_before: Option<(i64, u32)>,
    pub ref_id: Option<String>,
    pub tags: Vec<String>,
}

/// The message of the invalid-input error a list request gets, checked in
/// order: status, priority, due time; `None` when it is valid.
pub open spec fn list_error(p: ReminderListParams) -> Option<Seq<char>> {
    if p.status matches Some(s) && status_of(s@) is None {
        Some(
            "unknown status '"@ + p.status->0@
                + "' — use pending|due|awaiting_permission|in_progress|completed|snoozed|cancelled"@,
        )
    } else if p.priority_at_most matches Some(s) && priority_of(s@) is None {
        Some("unknown priority '"@ + p.priority_at_most->0@ + "'"@)
    } else if p.due_before matches Some(s) && utc_datetime(s@) is None {
        Some(
            "invalid datetime '"@ + p.due_before->0@
                + "' — use ISO 8601 / RFC 3339 (e.g. 2026-05-02T14:00:00Z)"@,
        )
    } else {
        None
    }
}

/// `f` is the filter that the valid request `p` asks for.
pub open spec fn filter_of(p: ReminderListParams, f: ReminderFilter) -> bool {
    &&& f.status == match p.status {
        None => None,
        Some(s) => status_of(s@),
    }
    &&& f.priority_at_most == match p.priority_at_most {
        None => None,
        Some(s) => priority_of(s@),
    }
    &&& f.due_before == match p.due_before {
        None => None,
        Some(s) => utc_datetime(s@),
    }
    &&& opt_view(f.created_by) == opt_view(p.created_by)
    &&& opt_view(f.ref_id) == opt_view(p.ref_id)
    &&& strings_view(f.tags@) == strings_view(p.tags@)
}

/// Validates a list request into the filter it asks for.
pub fn list_reminders(params: ReminderListParams) -> (r: Result<ReminderFilter, ReminderToolError>)
    ensures
        match list_error(params) {
            None => r matches Ok(f) && filter_of(params, f),
            Some(m) => r matches Err(e) && invalid_input(e, m),
        },
{
    let status = match &params.status {
        None => None,
        Some(s) => match parse_status(s.as_str()) {
            Some(st) => Some(st),
            None => {
                let mut m = owned("unknown status '");
                push_str(&mut m, s.as_str());
                push_str(
                    &mut m,
                    "' — use pending|due|awaiting_permission|in_progress|completed|snoozed|cancelled",
                );
                return Err(ReminderToolError::InvalidInput(m));
            },
        },
    };
    let priority_at_most = match &params.priority_at_most {
        None => None,
        Some(s) => match parse_priority(s.as_str()) {
            Some(pr) => Some(pr),
            None => {
                let mut m = owned("unknown priority '");
                push_str(&mut m, s.as_str());
                push_str(&mut m, "'");
                return Err(ReminderToolError::InvalidInput(m));
            },
        },
    };
    let due_before = match &params.due_before {
        None => None,
        Some(s) => Some(parse_datetime(s.as_str())?),
    };
    let ReminderListParams { status: _, priority_at_most: _, created_by, due_before: _, ref_id, tags } =
        params;
    Ok(ReminderFilter { status, priority_at_most, created_by, due_before, ref_id, tags })
}

// ---------------------------------------------------------------------------
// Recording executions
// ---------------------------------------------------------------------------

/// A request to record an execution attempt.
#[derive(Debug)]
pub struct ReminderRecordParams {
    /// Reminder id.
    pub id: String,
    /// success | failed | deferred | snoozed | cancelled.
    pub result: String,
    /// Free-form notes about the attempt.
    pub notes: Vec<String>,
    /// Task created for the execution, if any.
    pub task_id: Option<String>,
    /// Agent performing it (default: the server's agent).
    pub agent_id: Option<String>,
}

/// One execution attempt of a reminder.
#[derive(Debug)]
pub struct ExecutionRecord {
    /// When it started: seconds since the Unix epoch and nanoseconds.
    pub started_at: (i64, u32),
    pub completed_at: Option<(i64, u32)>,
    pub agent_id: String,
    pub approved_by: Option<String>,
    pub result: ExecutionResult,
    pub notes: Vec<String>,
    pub task_id: Option<String>,
}

/// The message of the invalid-input error a record request gets, if any.
pub open spec fn record_error(p: ReminderRecordParams) -> Option<Seq<char>> {
    if result_of(p.result@) is None {
        Some("unknown result '"@ + p.result@ + "' — use success|failed|deferred|snoozed|cancelled"@)
    } else {
        None
    }
}

/// `rec` is the record that the valid request `p` asks for, started at
/// `started_at`, by `agent` unless the request names another agent.
pub open spec fn record_of(
    p: ReminderRecordParams,
    agent: Seq<char>,
    started_at: (i64, u32),
    rec: ExecutionRecord,
) -> bool {
    &&& rec.started_at == started_at
    &&& rec.completed_at is None
    &&& rec.approved_by is None
    &&& rec.agent_id@ == match p.agent_id {
        Some(a) => a@,
        None => agent,
    }
    &&& Some(rec.result) == result_of(p.result@)
    &&& strings_view(rec.notes@) == strings_view(p.notes@)
    &&& opt_view(rec.task_id) == opt_view(p.task_id)
}

/// Validates a record request into the reminder id and the execution record
/// it asks for, started at `started_at`.
pub fn execution_record(params: ReminderRecordParams, default_agent: &str, started_at: (i64, u32)) -> (r:
    Result<(String, ExecutionRecord), ReminderToolError>)
    ensures
        match record_error(params) {
            None => r matches Ok(v) && v.0@ == params.id@ && record_of(
                params,
                default_agent@,
                started_at,
                v.1,
            ),
            Some(m) => r matches Err(e) && invalid_input(e, m),
        },
{
    let result = match parse_result(params.result.as_str()) {
        Some(x) => x,
        None => {
            let mut m = owned("unknown result '");
            push_str(&mut m, params.result.as_str());
            push_str(&mut m, "' — use success|failed|deferred|snoozed|cancelled");
            return Err(ReminderToolError::InvalidInput(m));
        },
    };
    let ReminderRecordParams { id, result: _, notes, task_id, agent_id } = params;
    let agent_id = match agent_id {
        Some(a) => a,
        None => owned(default_agent),
    };
    let record = ExecutionRecord {
        started_at,
        completed_at: None,
        agent_id,
        approved_by: None,
        result,
        notes,
        task_id,
    };
    Ok((id, record))
}

/// When an execution read at clock `reading` started, as seconds since
/// the Unix epoch and the nanosecond within the second: the reading itself;
/// the epoch for a reading before it or beyond what `i64` seconds hold.
pub open spec fn started_at_spec(reading: Option<(u64, u32)>) -> (i64, u32) {
    match reading {
        Some(v) => if v.0 <= i64::MAX {
            (v.0 as i64, v.1)
        } else {
            (0, 0)
        },
        None => (0, 0),
    }
}

/// The start time of a clock reading, as `started_at_spec` says.
pub fn started_at_of(reading: Option<(u64, u32)>) -> (r: (i64, u32))
    ensures
        r == started_at_spec(reading),
{
    match reading {
        Some((s, n)) => if s <= 0x7FFF_FFFF_FFFF_FFFF {
            (s as i64, n)
        } else {
            (0, 0)
        },
        None => (0, 0),
    }
}

/// Validates a record request into the reminder id and the execution record
/// it asks for, started now.
pub fn record_execution(params: ReminderRecordParams, default_agent: &str) -> (r: Result<
    (String, ExecutionRecord),
    ReminderToolError,
>)
    ensures
        match record_error(params) {
            None => r matches Ok(v) && v.0@ == params.id@ && record_of(
                params,
                default_agent@,
                v.1.started_at,
                v.1,
            ) && exists|reading: Option<(u64, u32)>| v.1.started_at == #[trigger] started_at_spec(reading),
            Some(m) => r matches Err(e) && invalid_input(e, m),
        },
{
    let now = started_at_of(crate::memory::clock_reading());
    execution_record(params, default_agent, now)
}

// ---------------------------------------------------------------------------
// Other requests
// ---------------------------------------------------------------------------

/// `remind_me` takes no parameters.
#[derive(Debug)]
pub struct RemindMeParams {}

/// A request naming one reminder.
#[derive(Debug)]
pub struct ReminderGetParams {
    pub id: String,
}

/// A request to snooze a reminder until an RFC 3339 time.
#[derive(Debug)]
pub struct ReminderSnoozeParams {
    pub id: String,
    pub until: String,
}

/// A request to approve a reminder awaiting permission.
#[derive(Debug)]
pub struct ReminderApproveParams {
    pub id: String,
    /// Who approves (default: the server's agent).
    pub approved_by: Option<String>,
}

/// A request to cancel a reminder.
#[derive(Debug)]
pub struct ReminderCancelParams {
    pub id: String,
}

/// A request to start executing a reminder.
#[derive(Debug)]
pub struct ReminderStartParams {
    pub id: String,
    /// Agent performing it (default: the server's agent).
    pub agent_id: Option<String>,
}

/// The body of an error reply.
#[derive(Debug)]
pub struct ToolErr {
    pub error: String,
}


// ---------------------------------------------------------------------------
// Stored reminders and their rendering
// ---------------------------------------------------------------------------

/// A reminder as the store holds it.
#[derive(Debug)]
pub struct Reminder {
    pub id: String,
    pub title: String,
    pub instructions: String,
    pub commands: Vec<String>,
    pub refs: Vec<ReminderRef>,
    pub priority: Priority,
    /// Seconds since the Unix epoch and nanoseconds.
    pub due_at: (i64, u32),
    pub schedule: Option<Schedule>,
    pub autonomous: bool,
    pub created_by: String,
    pub created_at: (i64, u32),
    pub status: ReminderStatus,
    pub snoozed_until: Option<(i64, u32)>,
    pub executions: Vec<ExecutionRecord>,
    pub tags: Vec<String>,
}

/// The name of a schedule's kind.
pub fn schedule_kind_label(s: &Schedule) -> (r: &'static str)
    ensures
        r@ == match *s {
            Schedule::Once => "once"@,
            Schedule::Interval { .. } => "interval"@,
            Schedule::Daily { .. } => "daily"@,
            Schedule::Weekly { .. } => "weekly"@,
        },
{
    match s {
        Schedule::Once => "once",
        Schedule::Interval { .. } => "interval",
        Schedule::Daily { .. } => "daily",
        Schedule::Weekly { .. } => "weekly",
    }
}

/// A time of day as `HH:MM` (`%H:%M`).
pub fn time_label(t: TimeOfDay) -> (r: String)
    ensures
        r@ == crate::text::padded(t.hour as nat, 2) + seq![':'] + crate::text::padded(t.minute as nat, 2),
{
    let mut s = string_of(&crate::text::padded_exec(t.hour as u64, 2));
    crate::text::push_char(&mut s, ':');
    push_chars(&mut s, &crate::text::padded_exec(t.minute as u64, 2));
    s
}

/// The name of a reference's kind.
pub fn ref_kind_label(k: &RefKind) -> (r: &'static str)
    ensures
        r@ == match *k {
            RefKind::Branch => "branch"@,
            RefKind::Memory => "memory"@,
            RefKind::Plan => "plan"@,
            RefKind::Task => "task"@,
            RefKind::StatePath => "state_path"@,
            RefKind::External { .. } => "external"@,
        },
{
    match k {
        RefKind::Branch => "branch",
        RefKind::Memory => "memory",
        RefKind::Plan => "plan",
        RefKind::Task => "task",
        RefKind::StatePath => "state_path",
        RefKind::External { .. } => "external",
    }
}

} // verus!
