use ctxone_hub::taint::{
    parse_taint_effect, parse_taint_kind, parse_taint_kind_opt, parse_taint_severity,
    plan_taint_apply, http_taint_apply, taint_effect_to_str, taint_removal, taint_verdict, ApplyRequest,
    QuarantineInfo, TaintEffect, TaintInfo, TaintKind, TaintSeverity,
};

#[test]
fn taint_vocabulary() {
    assert_eq!(parse_taint_kind("quarantine"), Ok(TaintKind::Quarantine));
    assert!(parse_taint_kind("bogus").is_err());
    assert_eq!(parse_taint_kind_opt(None), Ok(None));
    assert_eq!(parse_taint_kind_opt(Some("")), Ok(None));
    assert_eq!(parse_taint_effect("block"), Ok(TaintEffect::Block));
    assert_eq!(parse_taint_severity(None), Ok(TaintSeverity::Medium));
    assert_eq!(parse_taint_severity(Some("critical")), Ok(TaintSeverity::Critical));
    assert_eq!(taint_effect_to_str(TaintEffect::Advisory), "advisory");
}

#[test]
fn apply_requests() {
    assert_eq!(
        plan_taint_apply("taint", Some("high"), Some("warn")),
        Ok(ApplyRequest::Taint { effect: TaintEffect::Warn, severity: TaintSeverity::High })
    );
    assert_eq!(
        plan_taint_apply("watch", None, None),
        Ok(ApplyRequest::Watch { severity: TaintSeverity::Medium })
    );
    assert_eq!(
        plan_taint_apply("taint", None, None).unwrap_err(),
        "effect is required for kind=taint"
    );
}

#[test]
fn verdicts_name_warnings_and_the_blocker() {
    let taints = vec![
        TaintInfo { id: "t1".into(), name: "w".into(), reason: "careful".into(), effect: TaintEffect::Warn },
        TaintInfo { id: "t2".into(), name: "b".into(), reason: "stop".into(), effect: TaintEffect::Review },
    ];
    let v = taint_verdict(&taints, &vec![], "agent");
    assert_eq!(v.warnings, vec!["w: careful".to_string()]);
    assert_eq!(v.effect.as_deref(), Some("review"));
    assert_eq!(v.matching_taint_id.as_deref(), Some("t2"));

    let q = vec![QuarantineInfo { id: "q1".into(), authorized_agents: vec!["ok".into()] }];
    let v = taint_verdict(&vec![], &q, "agent");
    assert_eq!(v.effect.as_deref(), Some("isolate"));
    let v = taint_verdict(&vec![], &q, "ok");
    assert_eq!(v.effect, None);
}

#[test]
fn removal_lookups() {
    assert_eq!(taint_removal(Ok(Some(TaintKind::Watch)), "x"), Ok(TaintKind::Watch));
    assert_eq!(taint_removal(Ok(None), "x").unwrap_err(), "taint not found: x");
    assert_eq!(taint_removal(Err("db down".to_string()), "x").unwrap_err(), "db down");
}

#[test]
fn http_apply_requires_a_kind() {
    assert_eq!(http_taint_apply("", None, "warn").unwrap_err(), "kind required");
    assert_eq!(http_taint_apply("bogus", None, "warn").unwrap_err(), "invalid kind: bogus");
    assert_eq!(http_taint_apply("taint", None, "").unwrap_err(), "invalid effect: ");
    assert!(matches!(http_taint_apply("watch", Some(""), "").unwrap(), ApplyRequest::Watch { .. }));
}
