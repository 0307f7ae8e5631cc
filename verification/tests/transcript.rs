use claudexor_linux::transcript::{delta_flag, Block, HarnessEvent, RunEvent, Tool, ToolFields, ToolStatus, Transcript};

fn h(p: HarnessEvent) -> RunEvent {
    RunEvent { kind: Some("harness.event".into()), payload: Some(p) }
}

fn ev(kind: &str) -> HarnessEvent {
    HarnessEvent { kind: Some(kind.into()), ..Default::default() }
}

fn text(kind: &str, t: &str) -> HarnessEvent {
    HarnessEvent { text: Some(t.into()), ..ev(kind) }
}

fn tool_ev(kind: &str, f: ToolFields) -> HarnessEvent {
    HarnessEvent { tool: f, ..ev(kind) }
}

fn named(name: &str) -> ToolFields {
    ToolFields { name: Some(name.into()), ..Default::default() }
}

#[test]
fn replay_is_idempotent_by_seq() {
    let mut t = Transcript::default();
    assert!(t.apply(1, &h(text("message", "hi"))));
    assert!(!t.apply(1, &h(text("message", "hi"))));
    assert!(!t.apply(0, &h(text("message", "old"))));
    assert_eq!(t.blocks.len(), 1);
    assert_eq!(t.last_seq, 1);
}

#[test]
fn non_harness_events_advance_cursor_only() {
    let mut t = Transcript::default();
    assert!(!t.apply(5, &RunEvent { kind: Some("run.created".into()), payload: Some(HarnessEvent::default()) }));
    assert_eq!(t.last_seq, 5);
    assert!(t.blocks.is_empty());
}

#[test]
fn thinking_merges_until_another_block() {
    let mut t = Transcript::default();
    t.apply(1, &h(text("thinking", "a")));
    t.apply(2, &h(text("thinking", "b")));
    t.apply(3, &h(tool_ev("tool_call", named("Read"))));
    t.apply(4, &h(text("thinking", "c")));
    assert_eq!(t.blocks.len(), 3);
    assert_eq!(t.blocks[0], Block::Thinking { id: "th-1".into(), text: "a\nb".into(), secs: None });
}

#[test]
fn nested_delta_flag_streams_one_block() {
    // the live adapter shape: the flag sits in the harness event's own payload
    let mut t = Transcript::default();
    for (i, chunk) in ["I", "'", "m comparing the Lin", "ux eg"].iter().enumerate() {
        t.apply(i as i64 + 1, &h(HarnessEvent { delta: true, ..text("message", chunk) }));
    }
    t.apply(9, &h(text("message", "I'm comparing the Linux eg")));
    let msgs: Vec<_> = t
        .blocks
        .iter()
        .filter_map(|b| match b {
            Block::Message { text, .. } => Some(text.as_str()),
            _ => None,
        })
        .collect();
    assert_eq!(msgs, vec!["I'm comparing the Linux eg"]);
}

#[test]
fn deltas_stream_then_complete_message_replaces_by_id() {
    let mut t = Transcript::default();
    t.apply(1, &h(HarnessEvent { delta: true, ..text("message", "Hel") }));
    t.apply(2, &h(HarnessEvent { delta: true, ..text("message", "lo") }));
    assert_eq!(t.blocks[0], Block::Message { id: "msg-1".into(), text: "Hello".into() });
    t.apply(3, &h(tool_ev("tool_call", ToolFields { use_id: Some("u1".into()), ..named("Bash") })));
    t.apply(4, &h(text("message", "Hello world")));
    assert_eq!(t.blocks.len(), 2, "complete flush reconciles, no duplicate paragraph");
    assert_eq!(t.blocks[0], Block::Message { id: "msg-1".into(), text: "Hello world".into() });
}

#[test]
fn final_seals_and_removes_only_its_exact_twin() {
    let mut t = Transcript::default();
    t.apply(1, &h(text("message", "Looking…")));
    t.apply(2, &h(text("message", "The answer")));
    t.apply(3, &h(HarnessEvent { is_final: true, ..text("message", "The answer") }));
    assert_eq!(t.blocks, vec![Block::Message { id: "msg-1".into(), text: "Looking…".into() }]);
    // sealed: late deltas are dropped
    assert!(!t.apply(4, &h(HarnessEvent { delta: true, ..text("message", "late") })));
    assert_eq!(t.final_text.as_deref(), Some("The answer"));
}

#[test]
fn tool_result_pairs_by_use_id_then_name_then_standalone() {
    let mut t = Transcript::default();
    t.apply(1, &h(tool_ev("tool_call", ToolFields { use_id: Some("a".into()), target: Some("ls".into()), ..named("Bash") })));
    t.apply(2, &h(tool_ev("tool_call", named("Read"))));
    t.apply(
        3,
        &h(tool_ev(
            "tool_result",
            ToolFields {
                use_id: Some("a".into()),
                status: Some("error".into()),
                error_summary: Some("boom".into()),
                exit_code: Some(2),
                ..named("Bash")
            },
        )),
    );
    t.apply(4, &h(tool_ev("tool_result", ToolFields { content_summary: Some("12 lines".into()), ..named("Read") })));
    t.apply(5, &h(tool_ev("tool_result", ToolFields { use_id: Some("zz".into()), ..named("Grep") })));
    assert_eq!(t.blocks.len(), 3);
    let Block::Tool { tool: bash, .. } = &t.blocks[0] else { panic!() };
    assert_eq!((bash.status, bash.detail.as_deref(), bash.exit_code), (ToolStatus::Error, Some("boom"), Some(2)));
    let Block::Tool { tool: read, .. } = &t.blocks[1] else { panic!() };
    assert_eq!(read.status, ToolStatus::Succeeded);
    let Block::Tool { tool: grep, .. } = &t.blocks[2] else { panic!() };
    assert_eq!(grep.name, "Grep", "orphan result stands alone");
}

#[test]
fn caps_evict_oldest_and_keep_indices_valid() {
    let mut t = Transcript::with_caps(3, 1000, 10_000, 50);
    t.apply(1, &h(tool_ev("tool_call", ToolFields { use_id: Some("keep".into()), ..named("Bash") })));
    for i in 2..=5 {
        t.apply(i, &h(tool_ev("tool_call", named(&format!("T{i}")))));
    }
    assert_eq!(t.blocks.len(), 3);
    assert_eq!(t.trimmed, 2);
    // the evicted call's result must not corrupt a surviving row
    t.apply(6, &h(tool_ev("tool_result", ToolFields { status: Some("ok".into()), ..named("T5") })));
    let Block::Tool { tool, .. } = &t.blocks[2] else { panic!() };
    assert_eq!((tool.name.as_str(), tool.status), ("T5", ToolStatus::Succeeded));
}

#[test]
fn overlong_fields_are_clipped_and_disclosed() {
    let mut t = Transcript::with_caps(10, 5, 1000, 4);
    t.apply(1, &h(text("message", "abcdefgh")));
    t.apply(2, &h(tool_ev("tool_call", named("LongName"))));
    assert_eq!(t.blocks[0], Block::Message { id: "msg-1".into(), text: "abcde".into() });
    let Block::Tool { tool, .. } = &t.blocks[1] else { panic!() };
    assert_eq!(tool.name, "Long");
    assert_eq!(t.truncated_chars, 3 + 4);
}

#[test]
fn thinking_keeps_its_tail_and_times_itself() {
    let mut t = Transcript::with_caps(10, 4, 1000, 10);
    t.apply(1, &h(HarnessEvent { ts: Some("2026-07-19T12:00:00Z".into()), ..text("thinking", "abc") }));
    t.apply(2, &h(HarnessEvent { ts: Some("2026-07-19T12:00:07Z".into()), ..text("thinking", "de") }));
    assert_eq!(t.blocks[0], Block::Thinking { id: "th-1".into(), text: "c\nde".into(), secs: Some(7) });
    assert_eq!(t.truncated_chars, 2);
    assert_eq!(t.last_activity().as_deref(), Some("Thinking"));
}

#[test]
fn agent_calls_carry_their_subagent_and_background_launches_count() {
    let mut t = Transcript::default();
    let call = HarnessEvent {
        input_description: Some("explore".into()),
        input_subagent_type: Some("general".into()),
        input_model: Some("big".into()),
        ..tool_ev("tool_call", ToolFields { use_id: Some("t1".into()), ..named("Task") })
    };
    t.apply(1, &h(call));
    let Block::Tool { tool, .. } = &t.blocks[0] else { panic!() };
    assert_eq!((tool.note.as_deref(), tool.sub.as_deref()), (Some("explore"), Some("general · big")));
    assert_eq!(t.last_activity().as_deref(), Some("explore"));
    t.apply(2, &h(tool_ev("tool_result", ToolFields { use_id: Some("t1".into()), content_summary: Some("Async agent launched: x".into()), ..named("Task") })));
    let Block::Tool { tool, .. } = &t.blocks[0] else { panic!() };
    assert!(tool.background);
    assert_eq!((t.agents, t.agents_done), (1, 0));
    assert!(t.apply(3, &h(ev("started"))));
    assert_eq!(t.agents_done, 1);
    assert!(!t.apply(4, &h(ev("started"))));
    assert_eq!(t.tool_count(), 1);
}

#[test]
fn budget_evicts_but_keeps_the_newest_block() {
    let mut t = Transcript::with_caps(10, 100, 5, 10);
    t.apply(1, &h(text("message", "abcd")));
    t.apply(2, &h(text("message", "efgh")));
    assert_eq!(t.blocks, vec![Block::Message { id: "msg-2".into(), text: "efgh".into() }]);
    assert_eq!(t.trimmed, 1);
    t.apply(3, &h(text("message", "a long one")));
    assert_eq!(t.blocks.len(), 1);
    assert_eq!(t.harness, None);
}

#[test]
fn first_harness_id_sticks() {
    let mut t = Transcript::default();
    t.apply(1, &h(HarnessEvent { harness_id: Some("alpha".into()), ..ev("started") }));
    t.apply(2, &h(HarnessEvent { harness_id: Some("beta".into()), ..ev("started") }));
    assert_eq!(t.harness.as_deref(), Some("alpha"));
    let _ = Tool {
        name: String::new(),
        kind: None,
        target: None,
        status: ToolStatus::Running,
        detail: None,
        exit_code: None,
        note: None,
        sub: None,
        background: false,
    };
}

#[test]
fn transcript_accepts_ordinary_events() {
    let t = Transcript::default();
    let ev = h(HarnessEvent { kind: Some("message".into()), text: Some("hi".into()), ts: Some("2026-07-19T14:00:00Z".into()), ..Default::default() });
    assert!(t.accepts(1, &ev));
    let bad = h(HarnessEvent { kind: Some("message".into()), ts: Some("2026-07-19T14:00:00+0é:00".into()), ..Default::default() });
    assert!(t.accepts(1, &bad), "a timestamp that cuts a character only fails to parse");
    assert!(t.accepts(0, &bad), "a replay is never folded");
    let mut t = t;
    t.apply(1, &h(HarnessEvent { kind: Some("thinking".into()), text: Some("x".into()), ts: Some("2026-07-19T14:00:00+0é:00".into()), ..Default::default() }));
    assert_eq!(t.blocks[0], Block::Thinking { id: "th-1".into(), text: "x".into(), secs: None });
}

#[test]
fn unlimited_caps_clip_and_evict_nothing() {
    let mut t = Transcript::with_caps(usize::MAX, usize::MAX, usize::MAX, usize::MAX);
    let e1 = h(text("thinking", "a long thought"));
    assert!(t.accepts(1, &e1));
    assert!(t.apply(1, &e1));
    let e2 = h(tool_ev("tool_call", named("Read")));
    assert!(t.accepts(2, &e2));
    t.apply(2, &e2);
    let e3 = h(text("message", "and the answer"));
    t.apply(3, &e3);
    assert_eq!(t.blocks.len(), 3);
    assert_eq!(t.trimmed, 0);
    assert_eq!(t.truncated_chars, 0);
}

#[test]
fn the_blocks_stay_within_the_total_budget_after_each_event() {
    let mut t = Transcript::with_caps(10, 100, 12, 10);
    for (i, s) in ["abcd", "efgh", "ijkl", "mnop", "qrstuvwx"].iter().enumerate() {
        t.apply(i as i64 + 1, &h(tool_ev("tool_call", named(s))));
        let total: usize = t.blocks.iter().map(|b| b.chars()).sum();
        assert!(t.blocks.len() <= 1 || total <= 12, "after event {}: {total}", i + 1);
    }
    assert_eq!(t.blocks.len(), 2);
    assert_eq!(t.trimmed, 3);
}

#[test]
fn the_payload_delta_key_decides_else_the_nested_one() {
    assert!(delta_flag(None, Some(true)), "nested flag of the live adapter");
    assert!(!delta_flag(None, None));
    assert!(!delta_flag(None, Some(false)));
    assert!(delta_flag(Some(Some(true)), None));
    assert!(!delta_flag(Some(Some(false)), Some(true)), "the payload's own key decides");
    assert!(!delta_flag(Some(None), Some(true)), "a non-boolean key is not true");
}

#[test]
fn the_getters_show_the_blocks_and_counters() {
    let mut t = Transcript::with_caps(1, 3, 100, 10);
    t.apply(1, &h(text("message", "hello")));
    t.apply(2, &h(text("thinking", "x")));
    assert_eq!(t.block_list().len(), 1);
    assert_eq!(t.trimmed_count(), 1);
    assert_eq!(t.truncated_count(), 2);
}
