use claudexor_linux::model::{
    account_rows, encode_plan_answers, parse_reviewer_panel, plan_answers_complete, Capabilities, Delegation, Harness, Identity,
    Manifest, ModelEffort, NextUp, PlanOption, PlanQuestion, Profile, ProfileRow, ProfileStatus, QuotaSubject, ReviewerEntry,
    SetupJob, Strategy, Thread, TurnOpts, TurnRequest, TurnStarted,
};

fn qs() -> Vec<PlanQuestion> {
    let opt = |id: &str, label: &str| PlanOption { id: id.into(), label: label.into() };
    vec![
        PlanQuestion { id: "q1".into(), kind: "single".into(), prompt: "Which DB?".into(), options: vec![opt("a", "Postgres"), opt("b", "SQLite")] },
        PlanQuestion { id: "q2".into(), kind: "multi".into(), prompt: "Targets?".into(), options: vec![opt("x", "Linux"), opt("y", "macOS")] },
        PlanQuestion { id: "q3".into(), kind: "text".into(), prompt: "Deadline?".into(), options: vec![] },
    ]
}

/// The per-question picks and words, as the answer drafts hold them.
fn drafts(q: &[PlanQuestion], picked: &dyn Fn(&str) -> Vec<String>, text: &dyn Fn(&str) -> String) -> (Vec<Vec<String>>, Vec<String>) {
    (q.iter().map(|x| picked(&x.id)).collect(), q.iter().map(|x| text(&x.id)).collect())
}

#[test]
fn encodes_like_the_mac_app() {
    let q = qs();
    let picked = |id: &str| match id {
        "q1" => vec!["b".to_string()],
        "q2" => vec!["x".to_string(), "y".to_string()],
        _ => vec![],
    };
    let text = |id: &str| if id == "q3" { " Friday ".to_string() } else { String::new() };
    let (p, t) = drafts(&q, &picked, &text);
    assert!(plan_answers_complete(&q, &p, &t));
    assert_eq!(
        encode_plan_answers(&q, &p, &t),
        "Answers to your plan questions:\n- Which DB? → SQLite\n- Targets? → Linux, macOS\n- Deadline? → Friday"
    );
    let own = |id: &str| if id == "q1" { "DuckDB".to_string() } else { text(id) };
    let (p, t) = drafts(&q, &picked, &own);
    assert!(encode_plan_answers(&q, &p, &t).contains("- Which DB? → DuckDB"), "own words replace chips");
}

#[test]
fn text_questions_need_words() {
    let q = qs();
    let picked = |id: &str| if id == "q3" { vec![] } else { vec!["a".to_string(), "x".to_string()] };
    let (p, t) = drafts(&q, &picked, &|_: &str| String::new());
    assert!(!plan_answers_complete(&q, &p, &t));
    assert!(!plan_answers_complete(&[], &[], &[]), "no questions is not an answer");
}

#[test]
fn unanswered_questions_say_so() {
    let q = qs();
    let (p, t) = drafts(&q, &|_: &str| vec![], &|_: &str| String::new());
    assert_eq!(
        encode_plan_answers(&q, &p, &t),
        "Answers to your plan questions:\n- Which DB? → (no answer)\n- Targets? → (no answer)\n- Deadline? → (no answer)"
    );
}

/// Apply options the way the composer does: the budget's number test is
/// the app's (it is a float).
fn wire(mode: &str, o: &TurnOpts, access: &str) -> Result<TurnRequest, String> {
    let mut r = TurnRequest::new("p", mode);
    let amount = o.budget.trim().trim_start_matches('$');
    let positive = amount.parse::<f64>().map(|x| x.is_finite() && x > 0.0).unwrap_or(false);
    o.apply(&mut r, access, positive).map(|()| r)
}

#[test]
fn options_map_to_the_wire() {
    // Defaults: Agent Single sends its repair cap and an explicit review opt-out, nothing else.
    let v = wire("agent", &TurnOpts::default(), "workspace_write").unwrap();
    assert_eq!(v.attempts, Some(3));
    assert_eq!(v.review, Some(false));
    assert!(v.access.is_none() && v.n.is_none() && v.paid_budget.is_none());
    // Read-only: no repair loop; a stale Until clean degrades to Single.
    let o = TurnOpts { strategy: Strategy::UntilClean, access: Some("readonly"), ..Default::default() };
    let v = wire("agent", &o, "readonly").unwrap();
    assert!(v.until_clean.is_none() && v.attempts.is_none());
    assert_eq!(v.access.as_deref(), Some("readonly"));
    // Best-of: one-harness pool single-routes, larger pools race one per harness.
    let o = TurnOpts { strategy: Strategy::BestOf, pool: vec!["alpha".into()], ..Default::default() };
    assert_eq!(wire("agent", &o, "workspace_write").unwrap().n, Some(1));
    let o = TurnOpts { strategy: Strategy::BestOf, pool: vec!["alpha".into(), "beta".into(), "gamma".into()], ..Default::default() };
    let v = wire("agent", &o, "workspace_write").unwrap();
    assert_eq!((v.n, v.review, v.attempts), (Some(3), Some(true), None));
    let o = TurnOpts { strategy: Strategy::BestOf, ..Default::default() };
    assert_eq!(wire("agent", &o, "workspace_write").unwrap().n, Some(2));
    // Until clean never sends attempts.
    let o = TurnOpts { strategy: Strategy::UntilClean, ..Default::default() };
    let v = wire("agent", &o, "workspace_write").unwrap();
    assert_eq!((v.until_clean, v.attempts), (Some(true), None));
    // A panel asks for a second look; a bad one blocks Send.
    let o = TurnOpts { panel: "beta=large-5:high".into(), ..Default::default() };
    let v = wire("agent", &o, "workspace_write").unwrap();
    assert_eq!((v.review, v.reviewer_panel[0].effort.as_deref()), (Some(true), Some("high")));
    assert!(wire("agent", &TurnOpts { panel: "bad harness".into(), ..Default::default() }, "workspace_write").is_err());
    // Plan Council clamps members; Ask carries deep scan; agent knobs never leak.
    let o = TurnOpts { council: true, members: 9, deep_scan: true, delegate: true, ..Default::default() };
    let v = wire("plan", &o, "workspace_write").unwrap();
    assert_eq!((v.council, v.n), (Some(true), Some(4)));
    assert!(v.deep_scan.is_none() && v.delegate.is_none() && v.review.is_none());
    assert_eq!(wire("ask", &o, "readonly").unwrap().deep_scan, Some(true));
    // Budget: "$2.5" is a finite cap, junk refuses.
    let o = TurnOpts { budget: "$2.5".into(), web: Some("live"), ..Default::default() };
    let v = wire("ask", &o, "readonly").unwrap();
    assert_eq!((v.paid_budget.as_deref(), v.web.as_deref()), (Some("2.5"), Some("live")));
    assert!(wire("ask", &TurnOpts { budget: "-1".into(), ..Default::default() }, "readonly").is_err());
}

#[test]
fn budget_error_names_the_text() {
    let e = wire("ask", &TurnOpts { budget: " junk ".into(), ..Default::default() }, "readonly").unwrap_err();
    assert_eq!(e, "Budget “junk” is not a positive dollar amount");
}

#[test]
fn models_keep_only_named_ones_trimmed() {
    let o = TurnOpts { models: vec![("alpha".into(), " big ".into()), ("beta".into(), "  ".into())], ..Default::default() };
    let v = wire("ask", &o, "readonly").unwrap();
    assert_eq!(v.models, vec![("alpha".to_string(), "big".to_string())]);
    assert_eq!(o.changed("ask"), 1);
}

#[test]
fn panel_parses_entries() {
    assert_eq!(
        parse_reviewer_panel(" beta=large-5:high, alpha ,, gamma= :max ").unwrap(),
        vec![
            ReviewerEntry { harness: "beta".into(), model: Some("large-5".into()), effort: Some("high".into()) },
            ReviewerEntry { harness: "alpha".into(), model: None, effort: None },
            ReviewerEntry { harness: "gamma".into(), model: None, effort: Some("max".into()) },
        ]
    );
    assert_eq!(parse_reviewer_panel("ok, bad harness").unwrap_err(), "“bad harness” is not harness=model:effort");
    assert_eq!(parse_reviewer_panel("").unwrap(), vec![]);
}

#[test]
fn options_badge_counts_changes() {
    let d = TurnOpts::default();
    assert_eq!(d.changed("agent"), 0);
    let o = TurnOpts { strategy: Strategy::Single, attempts: 5, review: true, web: Some("off"), ..Default::default() };
    assert_eq!(o.changed("agent"), 3);
    assert_eq!(o.changed("ask"), 1);
    assert_eq!(o.strategy_for("readonly"), Strategy::Single);
    let u = TurnOpts { strategy: Strategy::UntilClean, ..Default::default() };
    assert_eq!(u.strategy_for("readonly"), Strategy::Single);
    assert_eq!(u.strategy_for("full"), Strategy::UntilClean);
}

#[test]
fn small_model_rules() {
    let t = Thread { id: "t".into(), title: Some("  ".into()), ..Default::default() };
    assert_eq!(t.display_title(), "Untitled thread");
    let t = Thread { id: "t".into(), title: Some("Fix it".into()), ..Default::default() };
    assert_eq!(t.display_title(), "Fix it");
    let row = ProfileRow {
        profile: Profile { profile_id: "p1".into(), harness_id: "alpha".into(), display_name: Some("Work".into()), ..Default::default() },
        status: Some(ProfileStatus { availability: "available".into(), verification: "passed".into(), detail: None }),
        identity: Some(Identity { email: None, plan: None }),
    };
    assert!(row.ready());
    assert_eq!(row.label(), "Work");
    let s = TurnStarted { job_id: Some("j".into()), ..Default::default() };
    assert_eq!(s.stream_id(), Some("j"));
    assert!(SetupJob { state: "succeeded".into(), ..Default::default() }.terminal());
    assert!(!SetupJob { state: "waiting_for_input".into(), ..Default::default() }.terminal());
    assert_eq!(NextUp { kind: "api_key_route".into(), ..Default::default() }.describe(), "API key");
    assert_eq!(NextUp { kind: "none".into(), ..Default::default() }.describe(), "not signed in");
    assert_eq!(NextUp { kind: "profile".into(), profile_id: None, reason: None }.describe(), "account");
}

#[test]
fn harness_capabilities() {
    let caps = Capabilities {
        effort_levels: vec!["low".into(), "high".into()],
        model_effort_levels: vec![("big".into(), ModelEffort { levels: vec!["max".into()] }), ("small".into(), ModelEffort { levels: vec![] })],
        browser_tool: Some(true),
    };
    let h = Harness {
        id: "alpha".into(),
        manifest: Some(Manifest { display_name: Some("Alpha".into()), capabilities: Some(caps) }),
        delegation: Some(Delegation { available: true, ..Default::default() }),
        ..Default::default()
    };
    assert_eq!(h.label(), "Alpha");
    assert!(h.browser_tool() && h.can_delegate());
    assert_eq!(h.effort_levels(Some("big")), vec!["max".to_string()]);
    assert_eq!(h.effort_levels(Some("small")), vec!["low".to_string(), "high".to_string()]);
    assert_eq!(h.effort_levels(None), vec!["low".to_string(), "high".to_string()]);
    let bare = Harness { id: "beta".into(), ..Default::default() };
    assert_eq!(bare.label(), "beta");
    assert!(bare.effort_levels(Some("x")).is_empty() && !bare.can_delegate() && !bare.browser_tool());
}

#[test]
fn default_store_and_default_row_are_one_account() {
    let subj = |id: Option<&str>| QuotaSubject { harness: "alpha".into(), credential_route: Some("local_session".into()), plan_label: None, subject_id: id.map(Into::into) };
    let rows = vec![subj(None), subj(Some("alpha-default")), subj(Some("other"))];
    assert_eq!(rows[0].account_key(), rows[1].account_key());
    assert_eq!(account_rows(&rows), vec![1, 2], "keeps the named row");
    assert_eq!(rows[0].account_key().2, "alpha-default");
}
