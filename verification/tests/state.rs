use claudexor_linux::model::{RunFailure, SetupJob};
use claudexor_linux::state::{failure_line, mime_for, notice_for, refreshes_details, Flight, Login};

#[test]
fn flight_is_single_with_one_trailing() {
    let mut f = Flight::default();
    assert!(f.start());
    assert!(!f.start());
    assert!(!f.start());
    assert!(f.finish(), "one trailing request after a storm");
    assert!(f.start());
    assert!(!f.finish());
}

#[test]
fn failure_line_uses_safe_message_and_code() {
    let f = RunFailure {
        phase: Some("routing".into()),
        category: Some("harness_unavailable".into()),
        code: None,
        safe_message: "no doctor-OK default route".into(),
        next_actions: vec![],
        ..Default::default()
    };
    assert_eq!(failure_line(&f).as_deref(), Some("no doctor-OK default route (harness_unavailable)"));
    let f = RunFailure { category: Some("budget".into()), code: Some("hard_cap".into()), ..Default::default() };
    assert_eq!(failure_line(&f).as_deref(), Some("hard_cap"));
}

#[test]
fn failure_line_is_none_without_message_or_code() {
    let f = RunFailure { safe_message: "   ".into(), ..Default::default() };
    assert_eq!(failure_line(&f), None);
    let f = RunFailure { safe_message: " boom ".into(), ..Default::default() };
    assert_eq!(failure_line(&f).as_deref(), Some("boom"));
}

#[test]
fn mime_detection() {
    assert_eq!(mime_for("Shot.PNG"), ("image", "image/png"));
    assert_eq!(mime_for("main.rs"), ("file", "text/plain"));
    assert_eq!(mime_for("blob"), ("file", "application/octet-stream"));
}

#[test]
fn mime_uses_the_last_extension() {
    assert_eq!(mime_for("a.tar.JPEG"), ("image", "image/jpeg"));
    assert_eq!(mime_for("notes.md"), ("file", "text/markdown"));
    assert_eq!(mime_for("x.pdf"), ("file", "application/pdf"));
    assert_eq!(mime_for("trailing."), ("file", "application/octet-stream"));
}

#[test]
fn login_is_active_until_its_job_ends() {
    let mut l = Login {
        harness: "alpha".into(),
        job: None,
        disclosure: None,
        error: None,
        code: String::new(),
        code_sent: false,
        polling: false,
        last_poll: None,
        auto_extended: false,
    };
    assert!(l.active());
    l.job = Some(SetupJob { state: "running".into(), ..Default::default() });
    assert!(l.active());
    l.job = Some(SetupJob { state: "timed_out".into(), ..Default::default() });
    assert!(!l.active());
}

#[test]
fn notices_only_for_fresh_transitions() {
    let n = notice_for("run.completed", true, Some("Fix bug".into())).unwrap();
    assert_eq!((n.title.as_str(), n.body.as_str()), ("Claudexor · Done", "Fix bug"));
    let n = notice_for("interaction.requested", true, None).unwrap();
    assert_eq!((n.title.as_str(), n.body.as_str()), ("Claudexor · Needs your answer", "A run changed state"));
    assert!(notice_for("run.completed", false, None).is_none());
    assert!(notice_for("harness.event", true, None).is_none());
    assert!(refreshes_details("gate.passed") && refreshes_details("plan.progress") && !refreshes_details("run.created"));
}

#[test]
fn finish_asks_again_only_after_a_refused_start_since_the_last_finish() {
    let mut f = Flight::default();
    assert!(!f.finish(), "nothing was refused");
    assert!(f.start());
    assert!(!f.finish());
    assert!(f.start());
    assert!(!f.start());
    assert!(f.finish());
    assert!(!f.finish(), "the refusal was answered by the last finish");
    assert!(f.start());
}
