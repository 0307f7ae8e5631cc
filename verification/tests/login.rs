use claudexor_linux::model::{DeviceCode, SetupJob, SetupOutcome};
use claudexor_linux::state::{spaced, Login, LoginStage};

fn login() -> Login {
    Login::new("alpha")
}

#[test]
fn sign_in_panel_stages() {
    let mut l = login();
    assert_eq!(l.stage(), LoginStage::Starting);
    assert_eq!(l.buttons(), (false, false));
    assert_eq!(l.status_line(), None);
    l.error = Some("refused".into());
    assert_eq!(l.stage(), LoginStage::Failed);
    assert_eq!(l.buttons(), (false, true));
    l.error = None;
    l.job = Some(SetupJob { state: "running".into(), phase: "awaiting_user".into(), deadline_at: Some("2026-01-01T00:00:00Z".into()), ..Default::default() });
    assert_eq!(l.stage(), LoginStage::WaitingLink);
    assert_eq!(l.status_line().as_deref(), Some("awaiting user · running"));
    assert_eq!(l.buttons(), (true, false));
    assert!(l.can_extend());
    l.disclosure = Some(DeviceCode { flow: "oauth_url_input".into(), verification_url: "https://example.com/x".into(), user_code: String::new() });
    assert_eq!(l.stage(), LoginStage::Link { code_input: true, verifying: false });
    l.code_sent = true;
    assert_eq!(l.stage(), LoginStage::Link { code_input: false, verifying: true });
    l.disclosure = Some(DeviceCode { flow: "chatgpt".into(), verification_url: String::new(), user_code: "AB-CD".into() });
    assert_eq!(l.stage(), LoginStage::WaitingLink, "no link yet");
    l.job = Some(SetupJob { state: "timed_out".into(), outcome: Some(SetupOutcome { reason: "deadline_passed".into() }), ..Default::default() });
    assert_eq!(l.stage(), LoginStage::Ended { ok: false, reason: "deadline passed".into() });
    assert_eq!(l.buttons(), (false, true));
    assert!(!l.can_extend());
    l.job = Some(SetupJob { state: "succeeded".into(), ..Default::default() });
    assert_eq!(l.stage(), LoginStage::Ended { ok: true, reason: "succeeded".into() });
    assert_eq!(l.buttons(), (false, false));
}

#[test]
fn underscores_read_as_spaces() {
    assert_eq!(spaced("waiting_for_input"), "waiting for input");
    assert_eq!(spaced(""), "");
    assert_eq!(spaced("é_x"), "é x");
}
