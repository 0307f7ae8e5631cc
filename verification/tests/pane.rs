use claudexor_linux::pane::{empty_list_message, thread_subtitle};
use claudexor_linux::api::ApiError;
use claudexor_linux::model::{Thread, TurnStarted};
use claudexor_linux::pane::{visible_threads, ThreadPane};
use claudexor_linux::state::{AttachState, Attachment, Composer};

fn thread(id: &str, updated: &str) -> Thread {
    Thread { id: id.into(), updated_at: updated.into(), ..Thread::default() }
}

fn http(status: u16) -> ApiError {
    ApiError::Http { status, problem: None, body: "boom".into() }
}

#[test]
fn list_refresh_is_single_flight_with_one_trailing() {
    let mut p = ThreadPane::new();
    assert!(!p.refresh_threads(false), "offline: nothing");
    assert!(p.refresh_threads(true));
    assert!(!p.refresh_threads(true));
    assert!(!p.refresh_threads(true));
    let again = p.on_threads(Ok(vec![thread("a", "2026-01-01"), thread("b", "2026-02-01")]), true);
    assert!(again, "one trailing fetch after the storm");
    assert_eq!(p.threads.iter().map(|t| t.id.as_str()).collect::<Vec<_>>(), vec!["b", "a"]);
    assert!(p.threads_loaded);
    assert!(!p.on_threads(Err(ApiError::Transport("down".into())), true));
    assert_eq!(p.error, None, "transport failures are the status pill's");
    assert_eq!(p.threads.len(), 2);
}

#[test]
fn selecting_fetches_and_stale_results_are_dropped() {
    let mut p = ThreadPane::new();
    assert_eq!(p.select(Some("t1".into()), true).as_deref(), Some("t1"));
    assert!(p.detail_loading);
    assert_eq!(p.select(Some("t1".into()), true), None, "same thread: nothing");
    assert_eq!(p.select(Some("t2".into()), true).as_deref(), Some("t2"), "a new selection starts its own flight");
    let (adopt, again) = p.on_thread("t1", Ok(()), true);
    assert!(!adopt && again.is_none(), "a late answer for another thread is not adopted");
    let (adopt, _) = p.on_thread("t2", Ok(()), true);
    assert!(adopt && p.has_detail && !p.detail_loading);
    assert_eq!(p.refresh_detail(true).as_deref(), Some("t2"));
    let (adopt, _) = p.on_thread("t2", Err(http(500)), true);
    assert!(!adopt);
    assert_eq!(p.error.as_deref(), Some("HTTP 500: boom"));
}

#[test]
fn a_created_thread_opens_and_takes_the_turn() {
    let mut p = ThreadPane::new();
    let mut c = Composer { sending: true, ..Composer::default() };
    let to = p.on_created(Ok(thread("new", "2026-03-01")), &mut c);
    assert_eq!(to.as_deref(), Some("new"));
    assert_eq!(p.selected.as_deref(), Some("new"));
    assert_eq!(p.threads[0].id, "new");
    assert!(c.sending, "still sending the turn");
    let mut p = ThreadPane::new();
    assert_eq!(p.on_created(Err(http(400)), &mut c), None);
    assert!(!c.sending);
    assert_eq!(p.error.as_deref(), Some("HTTP 400: boom"));
}

#[test]
fn a_sent_turn_clears_the_draft_it_came_from() {
    let mut p = ThreadPane::new();
    p.select(Some("t1".into()), true);
    p.on_thread("t1", Ok(()), true);
    let att = Attachment { local: 1, name: "f".into(), size: 1, state: AttachState::Ready("r".into()) };
    let mut c = Composer { text: " hello ".into(), sending: true, attachments: vec![att], ..Composer::default() };
    let f = p.on_turn_sent("t1", &Ok(TurnStarted::default()), Some("hello"), &mut c, true);
    assert!(!c.sending && c.text.is_empty() && c.attachments.is_empty());
    assert!(f.threads);
    assert_eq!(f.thread.as_deref(), Some("t1"));
    let mut c = Composer { text: "edited meanwhile".into(), sending: true, ..Composer::default() };
    p.on_turn_sent("t9", &Ok(TurnStarted::default()), Some("hello"), &mut c, true);
    assert_eq!(c.text, "edited meanwhile");
    let f = p.on_turn_sent("t9", &Err(http(409)), None, &mut c, true);
    assert!(!f.threads && f.thread.is_none());
    assert_eq!(p.error.as_deref(), Some("HTTP 409: boom"));
}

#[test]
fn failed_actions_read_in_the_banner() {
    let mut p = ThreadPane::new();
    p.on_changed("Rename", Err(http(422)), true);
    assert_eq!(p.error.as_deref(), Some("Rename failed: HTTP 422: boom"));
    p.on_acked("Stop", Err(ApiError::Transport("gone".into())), true);
    assert_eq!(p.error.as_deref(), Some("Stop failed: engine unreachable: gone"));
    let f = p.on_online();
    assert!(f.threads && f.thread.is_none());
}

#[test]
fn the_sidebar_lists_by_trash_and_search() {
    let threads = vec![
        Thread { id: "a".into(), title: Some("Fix the Parser".into()), ..Default::default() },
        Thread { id: "b".into(), title: None, repo_root: Some("/home/user/Parser-Lab".into()), ..Default::default() },
        Thread { id: "c".into(), title: Some("parser notes".into()), trashed_at: Some("2025-01-01T00:00:00Z".into()), ..Default::default() },
        Thread { id: "d".into(), title: Some("Other".into()), ..Default::default() },
    ];
    assert_eq!(visible_threads(&threads, "", false), vec![0, 1, 3]);
    assert_eq!(visible_threads(&threads, "  PARSER ", false), vec![0, 1]);
    assert_eq!(visible_threads(&threads, "parser", true), vec![2]);
    assert_eq!(visible_threads(&threads, "untitled", false), vec![1]);
    assert!(visible_threads(&threads, "zzz", false).is_empty());
}

#[test]
fn sidebar_lines_and_empty_messages() {
    assert_eq!(thread_subtitle(Some("/home/user/proj/"), "3m ago", false), "proj · 3m ago");
    assert_eq!(thread_subtitle(None, "", false), "no project");
    assert_eq!(thread_subtitle(Some("/x/y"), "", true), "archived · y");
    assert_eq!(empty_list_message(true, false), "Trash is empty.");
    assert_eq!(empty_list_message(false, false), "No threads yet. Type below to start one.");
    assert_eq!(empty_list_message(true, true), "No thread matches.");
}
