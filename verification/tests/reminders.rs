use ctxone_hub::reminders::{
    create_reminder, execution_record, started_at_of, list_reminders, parse_datetime, parse_hhmm, parse_priority,
    parse_result, parse_status, parse_weekday, priority_label, record_execution, ref_kind_label,
    result_label, schedule_kind_label, status_label, time_label, weekday_label, ExecutionResult,
    Priority, RefKind, ReminderCreateParams, ReminderListParams, ReminderRecordParams,
    ReminderRefParam, ReminderStatus, ReminderToolError, Schedule, ScheduleParam, TimeOfDay,
    Weekday,
};

fn invalid(e: ReminderToolError) -> String {
    match e {
        ReminderToolError::InvalidInput(m) => m,
        other => panic!("expected invalid input, got {other:?}"),
    }
}

fn create(due: &str) -> ReminderCreateParams {
    ReminderCreateParams {
        title: "Rotate keys".into(),
        instructions: "Run the rotation script".into(),
        commands: vec!["ctx rotate".into()],
        due_at: due.into(),
        priority: None,
        autonomous: None,
        schedule: None,
        refs: vec![],
        tags: vec!["ops".into()],
    }
}

fn sched(kind: &str, every: Option<u64>, time: Option<&str>, day: Option<&str>) -> ScheduleParam {
    ScheduleParam {
        kind: kind.into(),
        every_seconds: every,
        time: time.map(|s| s.to_string()),
        day: day.map(|s| s.to_string()),
    }
}

#[test]
fn vocabulary_round_trips() {
    for p in [Priority::Critical, Priority::High, Priority::Medium, Priority::Low, Priority::Minimal] {
        assert_eq!(parse_priority(priority_label(p)), Some(p));
    }
    for s in [
        ReminderStatus::Pending,
        ReminderStatus::Due,
        ReminderStatus::AwaitingPermission,
        ReminderStatus::InProgress,
        ReminderStatus::Completed,
        ReminderStatus::Snoozed,
        ReminderStatus::Cancelled,
    ] {
        assert_eq!(parse_status(status_label(s)), Some(s));
    }
    for r in [ExecutionResult::Success, ExecutionResult::Failed, ExecutionResult::Deferred] {
        assert_eq!(parse_result(result_label(r)), Some(r));
    }
    assert_eq!(parse_priority("HIGH"), Some(Priority::High));
    assert_eq!(parse_status("nope"), None);
}

#[test]
fn weekday_names() {
    assert_eq!(parse_weekday("Mon"), Some(Weekday::Mon));
    assert_eq!(parse_weekday("monday"), Some(Weekday::Mon));
    assert_eq!(parse_weekday("Sunday"), Some(Weekday::Sun));
    assert_eq!(parse_weekday("Tuesday"), Some(Weekday::Tue));
    assert_eq!(parse_weekday("funday"), None);
    assert_eq!(weekday_label(Weekday::Fri), "fri");
}

#[test]
fn times_and_datetimes() {
    assert_eq!(parse_hhmm("09:05").unwrap(), TimeOfDay { hour: 9, minute: 5 });
    assert_eq!(invalid(parse_hhmm("9am").unwrap_err()), "invalid time '9am' — use HH:MM (e.g. 09:00)");
    assert_eq!(parse_datetime("1970-01-01T00:01:00Z").unwrap(), (60, 0));
    assert_eq!(
        invalid(parse_datetime("tomorrow").unwrap_err()),
        "invalid datetime 'tomorrow' — use ISO 8601 / RFC 3339 (e.g. 2026-05-02T14:00:00Z)"
    );
    assert_eq!(time_label(TimeOfDay { hour: 7, minute: 3 }), "07:03");
}

#[test]
fn schedules() {
    assert_eq!(sched("ONCE", None, None, None).into_schedule().unwrap(), Schedule::Once);
    assert_eq!(
        sched("interval", Some(60), None, None).into_schedule().unwrap(),
        Schedule::Interval { every_seconds: 60 }
    );
    assert_eq!(
        invalid(sched("interval", None, None, None).into_schedule().unwrap_err()),
        "interval schedule requires every_seconds"
    );
    assert_eq!(
        sched("weekly", None, Some("09:00"), Some("Fri")).into_schedule().unwrap(),
        Schedule::Weekly { day: Weekday::Fri, time: TimeOfDay { hour: 9, minute: 0 } }
    );
    assert_eq!(
        invalid(sched("weekly", None, Some("09:00"), None).into_schedule().unwrap_err()),
        "weekly schedule requires day (Mon/Tue/…)"
    );
    assert_eq!(
        invalid(sched("Hourly", None, None, None).into_schedule().unwrap_err()),
        "unknown schedule kind 'hourly' — use once|interval|daily|weekly"
    );
    assert_eq!(schedule_kind_label(&Schedule::Once), "once");
}

#[test]
fn references() {
    let r = ReminderRefParam { kind: "External".into(), id: "x".into(), label: None, scheme: None }
        .into_reminder_ref()
        .unwrap();
    assert_eq!(r.kind, RefKind::External { scheme: "https".into() });
    assert!(!r.stale);
    assert_eq!(ref_kind_label(&r.kind), "external");
    let e = ReminderRefParam { kind: "Thing".into(), id: "x".into(), label: None, scheme: None }
        .into_reminder_ref()
        .unwrap_err();
    assert_eq!(invalid(e), "unknown ref kind 'thing' — use branch|memory|plan|task|state_path|external");
}

#[test]
fn create_applies_defaults() {
    let n = create_reminder(create("2026-05-05T09:00:00Z"), "agent-1").unwrap();
    assert_eq!(n.priority, Priority::Medium);
    assert!(n.autonomous);
    assert_eq!(n.created_by, "agent-1");
    assert_eq!(n.title, "Rotate keys");
    assert_eq!(n.tags, vec!["ops".to_string()]);
    assert!(n.schedule.is_none());
}

#[test]
fn create_checks_in_order() {
    let mut p = create("not a date");
    p.priority = Some("urgent".into());
    assert!(invalid(create_reminder(p, "a").unwrap_err()).starts_with("invalid datetime"));
    let mut p = create("2026-05-05T09:00:00Z");
    p.priority = Some("urgent".into());
    assert_eq!(
        invalid(create_reminder(p, "a").unwrap_err()),
        "unknown priority 'urgent' — use critical|high|medium|low|minimal"
    );
    let mut p = create("2026-05-05T09:00:00Z");
    p.refs = vec![ReminderRefParam { kind: "nope".into(), id: "1".into(), label: None, scheme: None }];
    p.schedule = Some(sched("bad", None, None, None));
    assert!(invalid(create_reminder(p, "a").unwrap_err()).starts_with("unknown ref kind"));
    let mut p = create("2026-05-05T09:00:00Z");
    p.schedule = Some(sched("daily", None, Some("25:99"), None));
    assert!(invalid(create_reminder(p, "a").unwrap_err()).starts_with("invalid time"));
}

#[test]
fn list_filters() {
    let f = list_reminders(ReminderListParams {
        status: Some("DUE".into()),
        priority_at_most: Some("low".into()),
        created_by: Some("me".into()),
        due_before: Some("1970-01-01T00:00:10Z".into()),
        ref_id: None,
        tags: vec!["a".into()],
    })
    .unwrap();
    assert_eq!(f.status, Some(ReminderStatus::Due));
    assert_eq!(f.priority_at_most, Some(Priority::Low));
    assert_eq!(f.due_before, Some((10, 0)));
    assert_eq!(f.created_by.as_deref(), Some("me"));
    let e = list_reminders(ReminderListParams {
        status: None,
        priority_at_most: Some("x".into()),
        created_by: None,
        due_before: None,
        ref_id: None,
        tags: vec![],
    })
    .unwrap_err();
    assert_eq!(invalid(e), "unknown priority 'x'");
}

#[test]
fn execution_records() {
    let params = || ReminderRecordParams {
        id: "r1".into(),
        result: "Success".into(),
        notes: vec!["done".into()],
        task_id: None,
        agent_id: None,
    };
    let (id, rec) = execution_record(params(), "hub-agent", (100, 5)).unwrap();
    assert_eq!(id, "r1");
    assert_eq!(rec.started_at, (100, 5));
    assert_eq!(rec.agent_id, "hub-agent");
    assert_eq!(rec.result, ExecutionResult::Success);
    assert!(rec.completed_at.is_none());
    let (_, rec) = record_execution(params(), "hub-agent").unwrap();
    assert!(rec.started_at.0 > 1_600_000_000);
    let mut bad = params();
    bad.result = "meh".into();
    assert_eq!(
        invalid(record_execution(bad, "a").unwrap_err()),
        "unknown result 'meh' — use success|failed|deferred|snoozed|cancelled"
    );
}

#[test]
fn tool_error_messages() {
    assert_eq!(ReminderToolError::InvalidInput("x".into()).message(), "invalid input: x");
    assert_eq!(ReminderToolError::Store("gone".into()).message(), "gone");
}

#[test]
fn execution_start_is_the_clock_reading() {
    assert_eq!(started_at_of(Some((1_700_000_000, 7))), (1_700_000_000, 7));
    assert_eq!(started_at_of(None), (0, 0));
    assert_eq!(started_at_of(Some((u64::MAX, 7))), (0, 0));
}
