use claudexor_linux::api::ApiError;
use claudexor_linux::model::{CreateThread, PrimaryOutput, Resource, Scope, TrustState, TurnOpts, TurnRequest};
use claudexor_linux::state::{
    answer_path, attach_state, can_send, composer_hint, input_rows, draft_thread, effective_access, file_answer, head_active, inline_answer, options_problem, profile_for,
    rename_title, send_mode, should_watch, slug, trust_step, turn_needs_poll, AnswerStep, AttachState, Attachment,
    Composer, Live, TrustStep, MAX_ATTACHMENT,
};

fn att(local: u64, state: AttachState) -> Attachment {
    Attachment { local, name: format!("f{local}"), size: 10, state }
}

#[test]
fn access_follows_pick_then_repo_default() {
    assert_eq!(effective_access(Some("full"), Some("readonly")), "full");
    assert_eq!(effective_access(None, Some("readonly")), "readonly");
    assert_eq!(effective_access(None, Some("full")), "full");
    assert_eq!(effective_access(None, Some("inherit_native")), "workspace_write");
    assert_eq!(effective_access(None, None), "workspace_write");
}

#[test]
fn a_thread_without_project_is_ask_only() {
    assert_eq!(send_mode(false, 2), "ask");
    assert_eq!(send_mode(true, 0), "ask");
    assert_eq!(send_mode(true, 1), "plan");
    assert_eq!(send_mode(true, 2), "agent");
    assert_eq!(send_mode(true, 9), "agent");
}

#[test]
fn full_access_needs_a_grant() {
    let opts = TurnOpts { access: Some("full"), ..TurnOpts::default() };
    assert_eq!(
        options_problem(&opts, "agent", "full", true, false).as_deref(),
        Some("Full access needs a grant for this repo (Options)")
    );
    assert_eq!(options_problem(&opts, "agent", "full", true, true), None);
    assert_eq!(options_problem(&opts, "ask", "full", true, false), None);
    assert_eq!(options_problem(&TurnOpts::default(), "agent", "workspace_write", true, false), None);
}

#[test]
fn a_bad_budget_blocks_send() {
    let opts = TurnOpts { budget: "abc".into(), ..TurnOpts::default() };
    let p = options_problem(&opts, "agent", "workspace_write", false, true).unwrap();
    assert!(p.contains("abc"), "{p}");
}

#[test]
fn uploading_attachment_blocks_send() {
    let mut c = Composer { text: "fix it".into(), ..Composer::default() };
    assert!(c.ready_to_send());
    c.attachments.push(att(1, AttachState::Uploading));
    assert!(!c.ready_to_send());
    c.attachments[0].state = AttachState::Ready("res-1".into());
    assert!(c.ready_to_send());
    c.sending = true;
    assert!(!c.ready_to_send());
    let blank = Composer { text: "  \n ".into(), ..Composer::default() };
    assert!(!blank.ready_to_send());
}

#[test]
fn request_keeps_only_uploaded_attachments_and_harness_choices() {
    let c = Composer {
        text: "  do the thing \n".into(),
        model: Some("big".into()),
        attachments: vec![att(1, AttachState::Ready("res-1".into())), att(2, AttachState::Failed("x".into())), att(3, AttachState::Ready("res-3".into()))],
        ..Composer::default()
    };
    let r = c.request("plan");
    assert_eq!(r.prompt, "do the thing");
    assert_eq!(r.mode, "plan");
    assert_eq!(r.model, None, "model only travels with a harness");
    let ids: Vec<&str> = r.attachments.iter().map(|a| a.resource_id.as_str()).collect();
    assert_eq!(ids, vec!["res-1", "res-3"]);
    let c = Composer { harness: Some("alpha".into()), model: Some("big".into()), account: Some("acct".into()), ..c };
    let r = c.request("agent");
    assert_eq!(r.primary_harness.as_deref(), Some("alpha"));
    assert_eq!(r.model.as_deref(), Some("big"));
    assert_eq!(r.credential_profile_id.as_deref(), Some("acct"));
}

#[test]
fn upload_result_lands_on_first_matching_attachment() {
    let mut c = Composer::default();
    c.attachments = vec![att(1, AttachState::Uploading), att(2, AttachState::Uploading), att(2, AttachState::Uploading)];
    c.on_uploaded(2, Ok(Resource { resource_id: "res-9".into(), name: "f2".into(), size_bytes: 10 }));
    assert_eq!(c.attachments[0].state, AttachState::Uploading);
    assert_eq!(c.attachments[1].state, AttachState::Ready("res-9".into()));
    assert_eq!(c.attachments[2].state, AttachState::Uploading);
    c.on_uploaded(1, Err("disk".into()));
    assert_eq!(c.attachments[0].state, AttachState::Failed("disk".into()));
    c.on_uploaded(7, Err("nobody".into()));
    assert_eq!(c.attachments.len(), 3);
}

#[test]
fn removing_an_attachment_keeps_the_rest_in_order() {
    let mut c = Composer::default();
    c.attachments = vec![att(1, AttachState::Uploading), att(2, AttachState::Uploading), att(3, AttachState::Uploading), att(2, AttachState::Uploading)];
    c.remove_attachment(2);
    let left: Vec<u64> = c.attachments.iter().map(|a| a.local).collect();
    assert_eq!(left, vec![1, 3]);
}

#[test]
fn oversized_files_are_refused_up_front() {
    assert_eq!(attach_state(MAX_ATTACHMENT), AttachState::Uploading);
    assert_eq!(attach_state(MAX_ATTACHMENT + 1), AttachState::Failed("larger than 25 MB".into()));
}

#[test]
fn draft_thread_is_titled_by_first_line() {
    let req = TurnRequest::new("Fix the login flow\r\nand more", "agent");
    let t: CreateThread = draft_thread(&req, &Some("/repo".into()), &Some("alpha".into()), true);
    assert_eq!(t.title.as_deref(), Some("Fix the login flow"));
    assert_eq!(t.scope, Scope::Project { root: "/repo".into(), context: "auto" });
    assert_eq!(t.mode.as_deref(), Some("agent"));
    assert_eq!(t.primary_harness.as_deref(), Some("alpha"));
    assert_eq!(t.workspace.as_deref(), Some("isolated"));
    let long = "x".repeat(100);
    let t = draft_thread(&TurnRequest::new(&long, "ask"), &None, &None, false);
    assert_eq!(t.title.as_deref().map(str::len), Some(80));
    assert_eq!(t.scope, Scope::NoProject);
    assert_eq!(t.workspace, None);
}

#[test]
fn head_is_live_by_card_then_stream() {
    let mut l = Live::new();
    assert!(head_active(Some("running"), None));
    assert!(head_active(Some("queued"), Some(&l)));
    assert!(!head_active(Some("completed"), None));
    assert!(head_active(None, Some(&l)));
    assert!(!head_active(None, None));
    l.terminal = Some("run.completed".into());
    assert!(!head_active(Some("running"), Some(&l)), "a stream that saw the end wins");
}

#[test]
fn poll_waits_only_on_quiet_pending_turns() {
    let mut l = Live::new();
    assert!(turn_needs_poll(Some("queued"), false, None));
    assert!(turn_needs_poll(None, false, None));
    assert!(!turn_needs_poll(Some("completed"), false, None));
    assert!(!turn_needs_poll(Some("queued"), true, None));
    assert!(turn_needs_poll(Some("running"), false, Some(&l)));
    l.terminal = Some("run.failed".into());
    assert!(!turn_needs_poll(Some("running"), false, Some(&l)));
    assert!(should_watch("running", false));
    assert!(!should_watch("running", true));
    assert!(!should_watch("completed", false));
}

#[test]
fn inline_answer_steps() {
    let p = |kind: &str, text: Option<&str>, truncated: bool| {
        Some(PrimaryOutput { kind: kind.into(), path: "out/answer.md".into(), text: text.map(Into::into), truncated })
    };
    assert_eq!(inline_answer(None, &p("text", Some("hello"), false)), AnswerStep::Answer("hello".into()));
    assert_eq!(
        inline_answer(None, &p("text", Some("hi"), true)),
        AnswerStep::Answer("hi\n\n_Inline preview bounded; open `out/answer.md` for the full output._".into())
    );
    assert_eq!(inline_answer(None, &p("patch", Some("diff"), false)), AnswerStep::NoAnswer);
    assert_eq!(inline_answer(Some("diagnostic"), &None), AnswerStep::NoAnswer);
    assert_eq!(inline_answer(None, &p("text", Some("  "), false)), AnswerStep::TryFiles);
    assert_eq!(inline_answer(Some("ready"), &None), AnswerStep::TryFiles);
}

#[test]
fn file_answer_skips_missing_and_blank_files() {
    assert!(file_answer(Ok("  \n".into())).is_none());
    assert!(matches!(file_answer(Ok("answer".into())), Some(Ok(Some(t))) if t == "answer"));
    let missing = ApiError::Http { status: 404, problem: None, body: String::new() };
    assert!(file_answer(Err(missing)).is_none());
    let gone = ApiError::Http { status: 410, problem: None, body: String::new() };
    assert!(file_answer(Err(gone)).is_none());
    let bad = ApiError::Http { status: 500, problem: None, body: "boom".into() };
    assert!(matches!(file_answer(Err(bad)), Some(Err(ApiError::Http { status: 500, .. }))));
}

#[test]
fn rename_needs_words() {
    assert_eq!(rename_title("  New name "), Some("New name".into()));
    assert_eq!(rename_title(" \t "), None);
}

#[test]
fn account_slugs() {
    assert_eq!(slug("  Work Account!! "), "work-account");
    assert_eq!(slug("--a__b--"), "a-b");
    assert_eq!(slug("é"), "");
    assert_eq!(profile_for("alpha", "Work Account", 7), "alpha-work-account");
    assert_eq!(profile_for("alpha", "  ", 7), "alpha-7");
}

#[test]
fn a_failed_grant_keeps_the_state_we_had() {
    let t = TrustState { repo_root: Some("/r".into()), allow_full_access: true, access_default: "full".into() };
    assert_eq!(trust_step(true, Ok(Some(t.clone()))), TrustStep::Store(Ok(Some(t))));
    assert_eq!(trust_step(false, Ok(None)), TrustStep::Store(Ok(None)), "no trust file yet");
    let e = ApiError::Transport("refused".into());
    assert_eq!(trust_step(true, Err(e.clone())), TrustStep::Keep("Trust: engine unreachable: refused".into()));
    assert_eq!(trust_step(false, Err(e)), TrustStep::Store(Err("engine unreachable: refused".into())));
}

#[test]
fn answer_files_are_tried_in_order() {
    let all: Vec<&str> = (0..6).filter_map(answer_path).collect();
    assert_eq!(all, vec!["final/answer.md", "final/report.md", "final/plan.md", "final/explore.md"]);
}

#[test]
fn send_gate_and_composer_text() {
    let c = Composer { text: "go".into(), ..Composer::default() };
    assert!(can_send(true, true, false, true, &c));
    assert!(!can_send(false, true, false, true, &c), "offline");
    assert!(!can_send(true, false, false, true, &c), "open thread not loaded");
    assert!(!can_send(true, true, true, true, &c), "a turn is running");
    assert!(!can_send(true, true, false, false, &c), "options block it");
    assert_eq!(composer_hint(false, true), "Engine offline");
    assert_eq!(composer_hint(true, false), "Message… (the first message starts a thread)");
    assert_eq!(composer_hint(true, true), "Reply…");
    assert_eq!(input_rows(""), 1);
    assert_eq!(input_rows("a"), 1);
    assert_eq!(input_rows("a\nb"), 2);
    assert_eq!(input_rows("a\n"), 1);
    assert_eq!(input_rows("\n\n\n"), 3);
    assert_eq!(input_rows("1\n2\n3\n4\n5\n6\n7\n8"), 6);
    for t in ["", "a", "a\n", "\n", "a\n\nb", "x\r\ny"] {
        assert_eq!(input_rows(t), t.lines().count().clamp(1, 6), "{t:?}");
    }
}
