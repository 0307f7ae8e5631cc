use claudexor_linux::api::{ApiError, ConnectError};
use claudexor_linux::model::Handshake;
use claudexor_linux::sse::End;
use claudexor_linux::state::{SupStep, Supervisor, BACKOFF_FIRST_MS, BACKOFF_MAX_MS};

fn hs(mode: Option<&str>) -> Handshake {
    Handshake { protocol_major: 3, compatible: true, engine: None, serving_mode: mode.map(Into::into) }
}

#[test]
fn backoff_doubles_to_the_cap_and_resets_online() {
    let mut s = Supervisor::new();
    let e = ConnectError::Unreachable("refused".into());
    let mut waits = vec![];
    for _ in 0..4 {
        match s.on_connect(Err(&e), false) {
            SupStep::Down { sleep_ms, incompatible, message } => {
                assert!(!incompatible);
                assert_eq!(message, "Engine unreachable: refused");
                waits.push(sleep_ms);
            }
            other => panic!("{other:?}"),
        }
    }
    assert_eq!(waits, vec![500, 1000, 2000, 3000]);
    assert_eq!(s.backoff_ms, BACKOFF_MAX_MS);
    assert_eq!(s.on_connect(Ok(&hs(Some("normal"))), false), SupStep::Online { resume: None });
    assert_eq!(s.backoff_ms, BACKOFF_FIRST_MS);
}

#[test]
fn engine_is_started_once_when_allowed() {
    let mut s = Supervisor::new();
    assert_eq!(s.on_connect(Err(&ConnectError::NotRunning), true), SupStep::StartEngine);
    assert!(matches!(s.on_connect(Err(&ConnectError::NotRunning), true), SupStep::Down { sleep_ms: 500, .. }));
    let mut t = Supervisor::new();
    assert!(matches!(t.on_connect(Err(&ConnectError::NotRunning), false), SupStep::Down { .. }));
}

#[test]
fn incompatible_and_recovery_are_told_apart() {
    let mut s = Supervisor::new();
    assert!(matches!(
        s.on_connect(Err(&ConnectError::Incompatible("v2".into())), true),
        SupStep::Down { incompatible: true, .. }
    ));
    assert_eq!(s.on_connect(Ok(&hs(Some("recovery_only"))), true), SupStep::Recovering { sleep_ms: 2000 });
    assert_eq!(s.backoff_ms, 1000, "recovery leaves the backoff alone");
}

#[test]
fn journal_cursor_survives_reconnects_unless_refused() {
    let mut s = Supervisor::new();
    assert_eq!(s.on_journal_end(Some("41".into()), &Ok(End::Lost)), 0);
    assert_eq!(s.on_connect(Ok(&hs(None)), false), SupStep::Online { resume: Some("41".into()) });
    assert_eq!(s.cursor, None);
    let stale = Err(ApiError::Http { status: 409, problem: None, body: String::new() });
    assert_eq!(s.on_journal_end(Some("50".into()), &stale), 0);
    assert_eq!(s.cursor, None);
    let missing = Err(ApiError::Http { status: 501, problem: None, body: String::new() });
    assert_eq!(s.on_journal_end(Some("52".into()), &missing), 5000);
    assert_eq!(s.cursor.as_deref(), Some("52"));
}
