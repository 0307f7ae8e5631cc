use claudexor_linux::model::{Harness, Thread};
use claudexor_linux::order::{newest_first, ready_first, text_less};

fn thread(id: &str, updated: &str) -> Thread {
    Thread { id: id.into(), updated_at: updated.into(), ..Thread::default() }
}

fn harness(id: &str, status: &str) -> Harness {
    Harness { id: id.into(), status: status.into(), ..Harness::default() }
}

#[test]
fn text_order_is_string_order() {
    for (a, b) in [("", "a"), ("a", "b"), ("ab", "b"), ("a", "ab"), ("Z", "a"), ("é", "z"), ("2026-01-02", "2026-01-10")] {
        assert_eq!(text_less(a, b), a < b, "{a} < {b}");
        assert_eq!(text_less(b, a), b < a, "{b} < {a}");
    }
    assert!(!text_less("same", "same"));
}

#[test]
fn threads_newest_first_ties_in_order() {
    let list = vec![
        thread("a", "2026-01-01T00:00:00Z"),
        thread("b", "2026-03-01T00:00:00Z"),
        thread("c", "2026-02-01T00:00:00Z"),
        thread("d", "2026-03-01T00:00:00Z"),
    ];
    let ids: Vec<String> = newest_first(list).into_iter().map(|t| t.id).collect();
    assert_eq!(ids, vec!["b", "d", "c", "a"]);
    assert!(newest_first(vec![]).is_empty());
}

#[test]
fn harnesses_ready_first_then_by_id() {
    let list = vec![harness("zeta", "ok"), harness("beta", "degraded"), harness("alpha", "ok"), harness("gamma", "unavailable")];
    let ids: Vec<String> = ready_first(list).into_iter().map(|h| h.id).collect();
    assert_eq!(ids, vec!["alpha", "zeta", "beta", "gamma"]);
}
