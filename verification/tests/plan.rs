use claudexor_linux::state::{implement_request, plan_answer_request, plan_view, PlanImplement};

#[test]
fn plan_chip_and_buttons() {
    let v = plan_view("ready", 0, 0, false, false, false);
    assert_eq!(v.label, "Plan ready");
    assert_eq!(v.implement, PlanImplement::Ready);
    assert!(!v.questions_open && v.note.is_none());
    let v = plan_view("needs_answers", 1, 3, false, false, false);
    assert_eq!(v.label, "3 open questions");
    assert!(v.questions_open);
    assert_eq!(v.implement, PlanImplement::Override);
    let v = plan_view("needs_answers", 1, 0, false, false, true);
    assert_eq!(v.label, "1 open question");
    assert!(!v.questions_open);
    assert_eq!(v.note, Some("answers sent…"));
    let v = plan_view("unverified", 0, 0, true, false, false);
    assert_eq!(v.label, "Plan unverified");
    assert_eq!(v.note, Some("answered below"));
    assert_eq!(v.implement, PlanImplement::Hidden);
    let v = plan_view("ready", 0, 0, true, true, true);
    assert_eq!(v.note, Some("implemented below"));
}

#[test]
fn plan_follow_up_requests() {
    let r = implement_request("run-1", true, &Some("alpha".into()));
    assert_eq!(r.prompt, "Implement this plan.");
    assert_eq!(r.mode, "agent");
    assert_eq!(r.plan_run_id.as_deref(), Some("run-1"));
    assert_eq!(r.override_plan_readiness, Some(true));
    assert_eq!(r.primary_harness.as_deref(), Some("alpha"));
    assert_eq!(implement_request("run-1", false, &None).override_plan_readiness, None);
    let r = plan_answer_request("run-2", "- Which DB? → DuckDB", &None);
    assert_eq!(r.mode, "plan");
    assert_eq!(r.answers_plan_run_id.as_deref(), Some("run-2"));
    assert_eq!(r.prompt, "- Which DB? → DuckDB");
}
