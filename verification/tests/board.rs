use claudexor_linux::api::ApiError;
use claudexor_linux::board::{RunBoard, TurnCard};
use claudexor_linux::model::TurnStarted;
use claudexor_linux::state::{AnswerState, StreamEnd};
use claudexor_linux::transcript::{HarnessEvent, RunEvent};

fn ev(kind: &str) -> RunEvent {
    RunEvent { kind: Some(kind.into()), payload: None }
}

fn msg(text: &str) -> RunEvent {
    RunEvent {
        kind: Some("harness.event".into()),
        payload: Some(HarnessEvent { kind: Some("message".into()), text: Some(text.into()), ..Default::default() }),
    }
}

fn card<'a>(b: &'a RunBoard, sid: &str) -> &'a claudexor_linux::state::Live {
    &b.runs.iter().find(|(k, _)| k == sid).unwrap().1
}

#[test]
fn a_stream_is_watched_once() {
    let mut b = RunBoard::new();
    assert!(b.watch("r1", false).is_none(), "nothing while offline");
    let w = b.watch("r1", true).expect("first watch opens");
    assert_eq!(w.stream, "r1");
    assert_eq!(w.resume, None);
    assert!(b.watch("r1", true).is_none(), "a running stream is not opened twice");
    assert_eq!(b.runs.len(), 1);
}

#[test]
fn events_fold_once_and_replays_are_ignored() {
    let mut b = RunBoard::new();
    b.watch("r1", true);
    let out = b.on_event("r1", 1, &msg("hi"), Some("r1"), false, None, false);
    assert!(out.folded);
    assert_eq!(card(&b, "r1").transcript.blocks.len(), 1);
    let again = b.on_event("r1", 1, &msg("hi"), Some("r1"), false, None, false);
    assert!(!again.folded);
    assert_eq!(card(&b, "r1").transcript.blocks.len(), 1);
    let unknown = b.on_event("r9", 5, &msg("x"), None, true, None, false);
    assert!(!unknown.folded && unknown.notice.is_none());
}

#[test]
fn run_end_fetches_the_answer_and_notifies() {
    let mut b = RunBoard::new();
    b.watch("r1", true);
    let out = b.on_event("r1", 3, &ev("run.completed"), Some("r1"), true, Some("My thread".into()), false);
    assert!(out.refresh_thread);
    assert_eq!(out.loads, vec![("r1".to_string(), true)]);
    let n = out.notice.unwrap();
    assert_eq!(n.title, "Claudexor · Done");
    assert_eq!(n.body, "My thread");
    assert_eq!(card(&b, "r1").phase, "completed");
    assert!(matches!(b.answers.iter().find(|(k, _)| k == "r1").unwrap().1, AnswerState::Loading));
    assert!(!b.load_run("r1", true), "single flight per run");
    b.on_run("r1");
    b.on_answer("r1", Ok(Some("the answer".into())));
    assert!(matches!(&b.answers.iter().find(|(k, _)| k == "r1").unwrap().1, AnswerState::Ready(t) if t == "the answer"));
    // a replayed end of an answered run does not refetch
    b.watch("r2", true);
    b.on_answer("r2", Ok(Some("done".into())));
    let out = b.on_event("r2", 1, &ev("run.failed"), Some("r2"), false, None, false);
    assert!(out.loads.is_empty() && !out.refresh_thread && out.notice.is_none());
}

#[test]
fn interaction_requests_reload_and_details_refresh_when_due() {
    let mut b = RunBoard::new();
    b.watch("r1", true);
    assert!(b.load_run("r1", false));
    let out = b.on_event("r1", 1, &ev("interaction.requested"), Some("r1"), false, None, false);
    assert_eq!(out.loads, vec![("r1".to_string(), false)], "the in-flight fetch is replaced");
    assert!(card(&b, "r1").waiting);
    let out = b.on_event("r1", 2, &ev("gate.passed"), Some("r1"), false, None, true);
    assert!(out.details_stamped);
    assert!(out.loads.is_empty(), "a fetch is already in flight");
    b.on_run("r1");
    let out = b.on_event("r1", 3, &ev("review.started"), Some("r1"), false, None, true);
    assert_eq!(out.loads, vec![("r1".to_string(), false)]);
    let out = b.on_event("r1", 4, &ev("review.done"), Some("r1"), false, None, false);
    assert!(!out.details_stamped);
}

#[test]
fn lost_streams_resume_from_their_cursor() {
    let mut b = RunBoard::new();
    b.watch("r1", true);
    b.on_event("r1", 7, &msg("a"), None, false, None, false);
    assert!(b.on_stream_end("r1", StreamEnd::Lost, true), "lost while online: reopen");
    assert!(card(&b, "r1").lost);
    let w = b.rewatch("r1", true).unwrap();
    assert_eq!(w.resume.as_deref(), Some("7"));
    assert!(b.rewatch("r1", true).is_none(), "already streaming again");
    assert!(!b.on_stream_end("r1", StreamEnd::Lost, false), "offline: wait for reconnect");
    let ws = b.on_online();
    assert_eq!(ws.iter().map(|w| w.stream.as_str()).collect::<Vec<_>>(), vec!["r1"]);
    assert!(b.run_flight.is_empty());
    assert!(!b.on_stream_end("r1", StreamEnd::Terminal, true));
    assert_eq!(card(&b, "r1").terminal.as_deref(), Some("run.ended"));
    assert!(b.on_online().is_empty());
    assert!(!b.on_stream_end("nope", StreamEnd::Lost, true));
}

#[test]
fn started_turns_alias_their_stream() {
    let mut b = RunBoard::new();
    let st = TurnStarted { job_id: Some("job-1".into()), turn_id: Some("t1".into()), ..Default::default() };
    let w = b.on_turn_started(&st, true).unwrap();
    assert_eq!(w.stream, "job-1");
    assert_eq!(b.stream_of("t1", None).as_deref(), Some("job-1"));
    assert_eq!(b.stream_of("t1", Some("run-9")).as_deref(), Some("run-9"));
    assert_eq!(b.stream_of("t2", None), None);
    assert!(b.on_turn_started(&TurnStarted::default(), true).is_none());
}

#[test]
fn replay_only_for_empty_idle_cards() {
    let mut b = RunBoard::new();
    assert!(b.ensure_replay("r1", true).is_some());
    assert!(b.ensure_replay("r1", true).is_none(), "its stream is running");
    b.on_stream_end("r1", StreamEnd::Terminal, true);
    assert!(b.ensure_replay("r1", true).is_some(), "still empty, no stream");
    assert!(b.ensure_replay("r2", false).is_none());
}

#[test]
fn answers_are_asked_for_once() {
    let mut b = RunBoard::new();
    assert!(b.ensure_answer("r1"));
    assert!(!b.ensure_answer("r1"));
    b.on_answer("r1", Err(ApiError::Transport("down".into())));
    assert!(matches!(&b.answers[0].1, AnswerState::Failed(m) if m == "engine unreachable: down"));
}

#[test]
fn adopting_a_detail_watches_live_turns_and_loads_questions() {
    let mut b = RunBoard::new();
    b.watch("done-run", true);
    b.on_event("done-run", 1, &ev("run.completed"), None, false, None, false);
    let turns = vec![
        TurnCard { id: "t1".into(), run_id: Some("run-1".into()), run_state: Some("running".into()), waiting_on_user: None, has_pending: false },
        TurnCard { id: "t2".into(), run_id: Some("done-run".into()), run_state: Some("running".into()), waiting_on_user: None, has_pending: false },
        TurnCard { id: "t3".into(), run_id: Some("run-3".into()), run_state: Some("running".into()), waiting_on_user: Some(true), has_pending: false },
        TurnCard { id: "t4".into(), run_id: Some("run-4".into()), run_state: Some("completed".into()), waiting_on_user: Some(true), has_pending: true },
        TurnCard { id: "t5".into(), run_id: None, run_state: None, waiting_on_user: Some(true), has_pending: false },
    ];
    let (watches, loads) = b.adopt(&turns, true);
    assert_eq!(watches.iter().map(|w| w.stream.as_str()).collect::<Vec<_>>(), vec!["run-1", "run-3"]);
    assert_eq!(loads, vec!["run-3".to_string()]);
    let (watches, loads) = b.adopt(&turns, true);
    assert!(watches.is_empty() && loads.is_empty(), "nothing twice");
}

#[test]
fn the_head_turn_is_live_until_its_card_sees_the_end() {
    let mut b = RunBoard::new();
    let st = TurnStarted { job_id: Some("job-1".into()), turn_id: Some("t1".into()), ..Default::default() };
    b.on_turn_started(&st, true);
    let queued = TurnCard { id: "t1".into(), run_id: None, run_state: Some("queued".into()), waiting_on_user: None, has_pending: false };
    assert!(b.live_of("t1", None).is_some(), "found through the recorded stream");
    assert_eq!(b.head_stream(&queued).as_deref(), Some("job-1"));
    b.on_event("job-1", 1, &ev("run.completed"), None, false, None, false);
    assert_eq!(b.head_stream(&queued), None, "the stream saw the end");
    let other = TurnCard { id: "t2".into(), run_id: Some("run-5".into()), run_state: Some("running".into()), waiting_on_user: None, has_pending: false };
    assert!(b.live_of("t2", Some("run-5")).is_none());
    assert_eq!(b.head_stream(&other).as_deref(), Some("run-5"), "by its card alone");
    let done = TurnCard { run_state: Some("succeeded".into()), ..other };
    assert_eq!(b.head_stream(&done), None);
}

#[test]
fn reconnect_resumes_each_cut_stream_from_its_cursor() {
    let mut b = RunBoard::new();
    b.watch("r1", true);
    b.watch("r2", true);
    b.on_event("r1", 12, &msg("a"), None, false, None, false);
    b.on_stream_end("r1", StreamEnd::Lost, false);
    b.on_stream_end("r2", StreamEnd::Lost, false);
    let ws = b.on_online();
    let got: Vec<(&str, Option<&str>)> = ws.iter().map(|w| (w.stream.as_str(), w.resume.as_deref())).collect();
    assert_eq!(got, vec![("r1", Some("12")), ("r2", None)]);
    assert!(card(&b, "r1").stop.is_some() && !card(&b, "r1").lost);
}

#[test]
fn a_replay_watch_opens_the_run_itself() {
    let mut b = RunBoard::new();
    let w = b.ensure_replay("r7", true).unwrap();
    assert_eq!(w.stream, "r7");
    assert_eq!(w.resume, None);
    assert!(card(&b, "r7").stop.is_some() && !card(&b, "r7").lost);
}
