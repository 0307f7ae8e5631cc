use claudexor_linux::ui::pill_pool;
use claudexor_linux::model::{AccountPool, NextUp};
use claudexor_linux::ui::accounts::{sign_in_buttons, SignIn};
use claudexor_linux::ui::thread::CardFold;
use claudexor_linux::ui::settings::{readiness, Readiness};
use claudexor_linux::model::QuotaSubject;
use claudexor_linux::state::Live;
use claudexor_linux::transcript::{Block, Tool, ToolStatus};
use claudexor_linux::ui::accounts::subject_label;
use claudexor_linux::ui::{basename, step_selection};
use claudexor_linux::ui::thread::{diff_label, fold_rows, model_note, short, tools_label, turn_state, ModelNote, Row};

fn tool(name: &str, status: ToolStatus) -> Block {
    Block::Tool {
        id: format!("tool-{name}"),
        tool: Tool { name: name.into(), kind: None, target: None, status, detail: None, exit_code: None, note: None, sub: None, background: false },
    }
}

#[test]
fn basenames() {
    assert_eq!(basename("/home/u/proj/"), "proj");
    assert_eq!(basename("proj"), "proj");
    assert_eq!(basename("/"), "");
    assert_eq!(basename("a/b//"), "b");
}

#[test]
fn long_same_name_runs_fold() {
    let mut bs = vec![Block::Message { id: "m".into(), text: "hi".into() }];
    for _ in 0..4 {
        bs.push(tool("Read", ToolStatus::Succeeded));
    }
    bs.push(tool("Read", ToolStatus::Error));
    for _ in 0..3 {
        bs.push(tool("Bash", ToolStatus::Succeeded));
    }
    let rows = fold_rows(&bs);
    assert_eq!(rows.len(), 1 + 1 + 1 + 3);
    assert!(matches!(rows[1], Row::Group("Read", 4)));
    assert!(matches!(rows[2], Row::Tool(t) if t.status == ToolStatus::Error));
    assert!(matches!(rows[3], Row::Tool(_)));
}

#[test]
fn short_ids_and_subject_labels() {
    assert_eq!(short("run-7ef7c842eb39"), "42eb39");
    assert_eq!(short("abc"), "abc");
    let s = QuotaSubject { harness: "beta".into(), credential_route: Some("api_key".into()), plan_label: Some("team".into()), subject_id: Some("me".into()) };
    assert_eq!(subject_label(&s), "me · team · api key");
    let bare = QuotaSubject { harness: "beta".into(), credential_route: None, plan_label: None, subject_id: None };
    assert_eq!(subject_label(&bare), "default");
}

#[test]
fn turn_state_words() {
    assert_eq!(turn_state(true, None, None), "refused");
    assert_eq!(turn_state(false, Some(("running", Some(true))), None), "needs_you");
    assert_eq!(turn_state(false, Some(("succeeded", None)), None), "succeeded");
    assert_eq!(turn_state(false, Some(("", None)), None), "");
    assert_eq!(turn_state(false, None, None), "queued");
}

#[test]
fn live_stream_wins_until_the_card_is_terminal() {
    let mut l = Live::new();
    assert_eq!(turn_state(false, Some(("queued", None)), Some(&l)), "queued");
    l.phase = "running".into();
    assert_eq!(turn_state(false, Some(("queued", None)), Some(&l)), "running");
    l.terminal = Some("run.blocked".into());
    assert_eq!(turn_state(false, Some(("running", Some(true))), Some(&l)), "blocked");
    assert_eq!(turn_state(false, Some(("failed", None)), Some(&l)), "failed");
    l.waiting = true;
    assert_eq!(turn_state(false, Some(("failed", None)), Some(&l)), "needs_you");
}

#[test]
fn keyboard_steps_hold_at_the_ends() {
    assert_eq!(step_selection(3, None, true), 0);
    assert_eq!(step_selection(3, None, false), 0);
    assert_eq!(step_selection(3, Some(0), true), 1);
    assert_eq!(step_selection(3, Some(2), true), 2);
    assert_eq!(step_selection(3, Some(2), false), 1);
    assert_eq!(step_selection(3, Some(0), false), 0);
}

#[test]
fn receipt_lines() {
    assert_eq!(model_note(Some("big-2"), Some("big-1"), true), Some(ModelNote::Substituted("big-2 (asked big-1)".into())));
    assert_eq!(model_note(Some("big-1"), Some("big-1"), false), Some(ModelNote::Observed { model: "big-1".into(), verified: false }));
    assert_eq!(model_note(Some("big-1"), None, true), Some(ModelNote::Observed { model: "big-1".into(), verified: true }));
    assert_eq!(model_note(None, Some("big-1"), true), Some(ModelNote::Requested("big-1 (requested)".into())));
    assert_eq!(model_note(None, None, true), None);
    assert_eq!(tools_label(0), None);
    assert_eq!(tools_label(1).as_deref(), Some("1 tool"));
    assert_eq!(tools_label(12).as_deref(), Some("12 tools"));
    assert_eq!(diff_label(0, 5, 5), None);
    assert_eq!(diff_label(3, 10, 2).as_deref(), Some("3 files +10 −2"));
}

#[test]
fn harness_readiness_reads_ok_degraded_or_unavailable() {
    assert_eq!(readiness("ok"), Readiness::Ready);
    assert_eq!(readiness("degraded"), Readiness::Degraded);
    assert_eq!(readiness("unavailable"), Readiness::Unavailable);
    assert_eq!(readiness("probing"), Readiness::Unavailable);
    assert_eq!(readiness("degraded").word(), "Degraded");
    assert_eq!(readiness("").word(), "Unavailable");
}

#[test]
fn cards_open_by_hand_and_live_ones_by_themselves() {
    let mut f = CardFold::new();
    assert!(f.is_open("t1", true) && !f.is_open("t2", false));
    f.toggle("t1", true);
    assert!(!f.is_open("t1", true));
    f.toggle("t2", false);
    assert!(f.is_open("t2", false) && !f.is_open("t3", false));
    f.toggle("t1", true);
    assert!(f.is_open("t1", true));
}

#[test]
fn account_rows_offer_the_right_sign_in() {
    assert_eq!(sign_in_buttons(true, true, false), SignIn::ContinueOrCancel);
    assert_eq!(sign_in_buttons(false, false, true), SignIn::LogIn);
    assert_eq!(sign_in_buttons(false, true, true), SignIn::NoButton);
    assert_eq!(sign_in_buttons(false, false, false), SignIn::NoButton);
}

#[test]
fn the_status_pill_describes_the_composer_pool_first() {
    let pool = |h: &str, k: &str| AccountPool { harness_id: h.into(), next_up: NextUp { kind: k.into(), ..Default::default() } };
    let pools = vec![pool("a", "none"), pool("b", "profile"), pool("c", "none")];
    assert_eq!(pill_pool(&pools, Some("c")), Some(2));
    assert_eq!(pill_pool(&pools, Some("zz")), Some(1));
    assert_eq!(pill_pool(&pools, None), Some(1));
    assert_eq!(pill_pool(&vec![pool("a", "none")], None), Some(0));
    assert_eq!(pill_pool(&vec![], Some("a")), None);
}

#[test]
fn the_wall_clock_is_after_the_epoch() {
    assert!(claudexor_linux::ui::theme::now_unix() > 1_600_000_000);
}
