//! Stable orderings of the lists the client shows: threads newest first,
//! harnesses ready first. Text compares as `String` does, character by
//! character (UTF-8 byte order and code point order agree).
use crate::model::{Harness, Thread};
use crate::text::chars_vec;
use vstd::prelude::*;

verus! {

/// `a` sorts strictly before `b`: lexicographic order on code points.
pub open spec fn text_before(a: Seq<char>, b: Seq<char>) -> bool
    decreases a.len(),
{
    if a.len() == 0 {
        b.len() > 0
    } else if b.len() == 0 {
        false
    } else if a[0] != b[0] {
        (a[0] as u32) < (b[0] as u32)
    } else {
        text_before(a.drop_first(), b.drop_first())
    }
}

pub proof fn lemma_text_before_irreflexive(a: Seq<char>)
    ensures
        !text_before(a, a),
    decreases a.len(),
{
    if a.len() > 0 {
        lemma_text_before_irreflexive(a.drop_first());
    }
}

pub proof fn lemma_text_before_transitive(a: Seq<char>, b: Seq<char>, c: Seq<char>)
    requires
        text_before(a, b),
        text_before(b, c),
    ensures
        text_before(a, c),
    decreases a.len(),
{
    if a.len() > 0 && b.len() > 0 && c.len() > 0 && a[0] == b[0] && b[0] == c[0] {
        lemma_text_before_transitive(a.drop_first(), b.drop_first(), c.drop_first());
    }
}

/// Lexicographic comparison of two texts.
pub fn text_less(a: &str, b: &str) -> (r: bool)
    ensures
        r == text_before(a@, b@),
{
    let x = chars_vec(a);
    let y = chars_vec(b);
    let mut i: usize = 0;
    proof {
        assert(x@.skip(0) =~= x@);
        assert(y@.skip(0) =~= y@);
    }
    while i < x.len() && i < y.len()
        invariant
            i <= x@.len(),
            i <= y@.len(),
            x@ == a@,
            y@ == b@,
            text_before(a@, b@) == text_before(x@.skip(i as int), y@.skip(i as int)),
        decreases x@.len() - i,
    {
        let p = x[i];
        let q = y[i];
        proof {
            assert(x@.skip(i as int)[0] == p);
            assert(y@.skip(i as int)[0] == q);
        }
        if p != q {
            return (p as u32) < (q as u32);
        }
        proof {
            assert(x@.skip(i as int).drop_first() =~= x@.skip(i + 1));
            assert(y@.skip(i as int).drop_first() =~= y@.skip(i + 1));
        }
        i = i + 1;
    }
    proof {
        assert(x@.skip(i as int).len() == 0 || y@.skip(i as int).len() == 0);
    }
    i == x.len() && i < y.len()
}

/// `before` is a strict order: never `a` before `a`, and transitive.
pub open spec fn strict_order<T>(before: spec_fn(T, T) -> bool) -> bool {
    &&& forall|a: T| !#[trigger] before(a, a)
    &&& forall|a: T, b: T, c: T| #[trigger] before(a, b) && #[trigger] before(b, c) ==> before(a, c)
}

/// No later item sorts before an earlier one.
pub open spec fn sorted_by<T>(s: Seq<T>, before: spec_fn(T, T) -> bool) -> bool {
    forall|i: int, j: int| 0 <= i < j < s.len() ==> !before(#[trigger] s[j], #[trigger] s[i])
}

/// Where a stable insertion puts `x` into sorted `r`: before the first item
/// that `x` sorts before, after every item it ties with.
pub open spec fn slot<T>(r: Seq<T>, x: T, before: spec_fn(T, T) -> bool) -> int
    decreases r.len(),
{
    if r.len() == 0 {
        0
    } else if before(x, r[0]) {
        0
    } else {
        1 + slot(r.drop_first(), x, before)
    }
}

/// The stable sort of `s`: each item in turn inserted at its slot.
pub open spec fn stable_sort<T>(s: Seq<T>, before: spec_fn(T, T) -> bool) -> Seq<T>
    decreases s.len(),
{
    if s.len() == 0 {
        s
    } else {
        let r = stable_sort(s.drop_last(), before);
        r.insert(slot(r, s.last(), before), s.last())
    }
}

proof fn lemma_slot<T>(r: Seq<T>, x: T, before: spec_fn(T, T) -> bool)
    ensures
        0 <= slot(r, x, before) <= r.len(),
        forall|q: int| 0 <= q < slot(r, x, before) ==> !before(x, #[trigger] r[q]),
        slot(r, x, before) < r.len() ==> before(x, r[slot(r, x, before)]),
    decreases r.len(),
{
    if r.len() > 0 && !before(x, r[0]) {
        lemma_slot(r.drop_first(), x, before);
        assert forall|q: int| 0 <= q < slot(r, x, before) implies !before(x, #[trigger] r[q]) by {
            if q > 0 {
                assert(r[q] == r.drop_first()[q - 1]);
            }
        }
    }
}

/// The first index whose item `x` sorts before is its slot.
proof fn lemma_slot_is_first<T>(r: Seq<T>, x: T, before: spec_fn(T, T) -> bool, k: int)
    requires
        0 <= k <= r.len(),
        forall|q: int| 0 <= q < k ==> !before(x, #[trigger] r[q]),
        k < r.len() ==> before(x, r[k]),
    ensures
        slot(r, x, before) == k,
    decreases r.len(),
{
    if r.len() > 0 && k > 0 {
        assert(!before(x, r[0]));
        assert forall|q: int| 0 <= q < k - 1 implies !before(x, #[trigger] r.drop_first()[q]) by {
            assert(r.drop_first()[q] == r[q + 1]);
        }
        lemma_slot_is_first(r.drop_first(), x, before, k - 1);
    }
}

proof fn lemma_insert_sorted<T>(r: Seq<T>, x: T, before: spec_fn(T, T) -> bool)
    requires
        strict_order(before),
        sorted_by(r, before),
    ensures
        sorted_by(r.insert(slot(r, x, before), x), before),
{
    lemma_slot(r, x, before);
    let p = slot(r, x, before);
    let s = r.insert(p, x);
    assert forall|i: int, j: int| 0 <= i < j < s.len() implies !before(#[trigger] s[j], #[trigger] s[i]) by {
        if j < p {
            assert(s[i] == r[i] && s[j] == r[j]);
        } else if j == p {
            assert(s[i] == r[i]);
        } else if i == p {
            let q = j - 1;
            assert(s[j] == r[q]);
            if before(r[q], x) {
                assert(before(x, r[p]));
                if q > p {
                    assert(before(r[q], r[p]));
                    assert(!before(r[q], r[p]));
                } else {
                    assert(before(x, x));
                }
            }
        } else if i < p {
            assert(s[i] == r[i] && s[j] == r[j - 1]);
        } else {
            assert(s[i] == r[i - 1] && s[j] == r[j - 1]);
        }
    }
}

/// Law: the stable sort of any list is sorted.
pub proof fn law_stable_sort_sorted<T>(s: Seq<T>, before: spec_fn(T, T) -> bool)
    requires
        strict_order(before),
    ensures
        sorted_by(stable_sort(s, before), before),
    decreases s.len(),
{
    if s.len() > 0 {
        law_stable_sort_sorted(s.drop_last(), before);
        lemma_insert_sorted(stable_sort(s.drop_last(), before), s.last(), before);
    }
}

/// Law: the stable sort keeps every item, each as often: it only reorders.
pub proof fn law_stable_sort_permutes<T>(s: Seq<T>, before: spec_fn(T, T) -> bool)
    ensures
        stable_sort(s, before).to_multiset() == s.to_multiset(),
    decreases s.len(),
{
    broadcast use vstd::seq_lib::group_to_multiset_ensures;
    if s.len() > 0 {
        let r = stable_sort(s.drop_last(), before);
        law_stable_sort_permutes(s.drop_last(), before);
        lemma_slot(r, s.last(), before);
        vstd::seq_lib::to_multiset_insert(r, slot(r, s.last(), before), s.last());
        vstd::seq_lib::to_multiset_build(s.drop_last(), s.last());
        assert(s.drop_last().push(s.last()) =~= s);
    }
}

/// Thread `a` was updated strictly later than `b`.
pub open spec fn by_recency() -> spec_fn(Thread, Thread) -> bool {
    |a: Thread, b: Thread| text_before(b.updated_at@, a.updated_at@)
}

/// A harness reporting `ok` sorts first; ties go by id.
pub open spec fn harness_ok(h: Harness) -> bool {
    h.status@ == "ok"@
}

/// Harness order: ready ones first, then by id.
pub open spec fn by_readiness() -> spec_fn(Harness, Harness) -> bool {
    |a: Harness, b: Harness|
        (harness_ok(a) && !harness_ok(b)) || (harness_ok(a) == harness_ok(b) && text_before(a.id@, b.id@))
}

/// Law: newest-first is a strict order.
pub proof fn law_recency_is_strict()
    ensures
        strict_order(by_recency()),
{
    assert forall|a: Thread| !#[trigger] (by_recency())(a, a) by {
        lemma_text_before_irreflexive(a.updated_at@);
    }
    assert forall|a: Thread, b: Thread, c: Thread| #[trigger] (by_recency())(a, b) && #[trigger] (by_recency())(b, c) implies (by_recency())(a, c) by {
        lemma_text_before_transitive(c.updated_at@, b.updated_at@, a.updated_at@);
    }
}

/// Law: ready-first is a strict order.
pub proof fn law_readiness_is_strict()
    ensures
        strict_order(by_readiness()),
{
    assert forall|a: Harness| !#[trigger] (by_readiness())(a, a) by {
        lemma_text_before_irreflexive(a.id@);
    }
    assert forall|a: Harness, b: Harness, c: Harness| #[trigger] (by_readiness())(a, b) && #[trigger] (by_readiness())(b, c) implies (by_readiness())(a, c) by {
        if harness_ok(a) == harness_ok(b) && harness_ok(b) == harness_ok(c) {
            lemma_text_before_transitive(a.id@, b.id@, c.id@);
        }
    }
}

/// Law: the thread list comes out newest first and holds the same threads.
pub proof fn law_threads_newest_first(s: Seq<Thread>)
    ensures
        sorted_by(stable_sort(s, by_recency()), by_recency()),
        stable_sort(s, by_recency()).to_multiset() == s.to_multiset(),
{
    law_recency_is_strict();
    law_stable_sort_sorted(s, by_recency());
    law_stable_sort_permutes(s, by_recency());
}

/// Law: the harness list comes out ready first and holds the same harnesses.
pub proof fn law_harnesses_ready_first(s: Seq<Harness>)
    ensures
        sorted_by(stable_sort(s, by_readiness()), by_readiness()),
        stable_sort(s, by_readiness()).to_multiset() == s.to_multiset(),
{
    law_readiness_is_strict();
    law_stable_sort_sorted(s, by_readiness());
    law_stable_sort_permutes(s, by_readiness());
}

/// The thread list newest first (by `updated_at`, as text), ties kept in
/// the order they came.
pub fn newest_first(threads: Vec<Thread>) -> (r: Vec<Thread>)
    ensures
        r@ == stable_sort(threads@, by_recency()),
{
    let ghost all = threads@;
    let mut rest = threads;
    let mut out: Vec<Thread> = Vec::new();
    let mut i: usize = 0;
    let n = rest.len();
    proof {
        assert(all.subrange(0, 0) =~= Seq::<Thread>::empty());
        assert(all.subrange(0, all.len() as int) =~= all);
    }
    while rest.len() > 0
        invariant
            i + rest@.len() == all.len(),
            all.len() == n,
            rest@ == all.subrange(i as int, all.len() as int),
            out@ == stable_sort(all.subrange(0, i as int), by_recency()),
        decreases rest@.len(),
    {
        let x = rest.remove(0);
        proof {
            assert(x == all[i as int]);
            assert(rest@ =~= all.subrange(i + 1, all.len() as int));
        }
        let mut k: usize = 0;
        while k < out.len()
            invariant
                k <= out@.len(),
                forall|q: int| 0 <= q < k ==> !(by_recency())(x, #[trigger] out@[q]),
            ensures
                k <= out@.len(),
                forall|q: int| 0 <= q < k ==> !(by_recency())(x, #[trigger] out@[q]),
                k < out@.len() ==> (by_recency())(x, out@[k as int]),
            decreases out@.len() - k,
        {
            if text_less(out[k].updated_at.as_str(), x.updated_at.as_str()) {
                break;
            }
            k = k + 1;
        }
        proof {
            lemma_slot_is_first(out@, x, by_recency(), k as int);
            let s = all.subrange(0, i + 1);
            assert(s.drop_last() =~= all.subrange(0, i as int));
            assert(s.last() == x);
        }
        out.insert(k, x);
        i = i + 1;
    }
    out
}

/// The harness list with ready ones first, each group by id.
pub fn ready_first(harnesses: Vec<Harness>) -> (r: Vec<Harness>)
    ensures
        r@ == stable_sort(harnesses@, by_readiness()),
{
    let ghost all = harnesses@;
    let mut rest = harnesses;
    let mut out: Vec<Harness> = Vec::new();
    let mut i: usize = 0;
    let n = rest.len();
    proof {
        assert(all.subrange(0, 0) =~= Seq::<Harness>::empty());
        assert(all.subrange(0, all.len() as int) =~= all);
    }
    while rest.len() > 0
        invariant
            i + rest@.len() == all.len(),
            all.len() == n,
            rest@ == all.subrange(i as int, all.len() as int),
            out@ == stable_sort(all.subrange(0, i as int), by_readiness()),
        decreases rest@.len(),
    {
        let x = rest.remove(0);
        proof {
            assert(x == all[i as int]);
            assert(rest@ =~= all.subrange(i + 1, all.len() as int));
        }
        let x_ok = crate::text::same_text(x.status.as_str(), "ok");
        let mut k: usize = 0;
        while k < out.len()
            invariant
                k <= out@.len(),
                x_ok == harness_ok(x),
                forall|q: int| 0 <= q < k ==> !(by_readiness())(x, #[trigger] out@[q]),
            ensures
                k <= out@.len(),
                forall|q: int| 0 <= q < k ==> !(by_readiness())(x, #[trigger] out@[q]),
                k < out@.len() ==> (by_readiness())(x, out@[k as int]),
            decreases out@.len() - k,
        {
            let y_ok = crate::text::same_text(out[k].status.as_str(), "ok");
            let earlier = (x_ok && !y_ok) || (x_ok == y_ok && text_less(x.id.as_str(), out[k].id.as_str()));
            if earlier {
                break;
            }
            k = k + 1;
        }
        proof {
            lemma_slot_is_first(out@, x, by_readiness(), k as int);
            let s = all.subrange(0, i + 1);
            assert(s.drop_last() =~= all.subrange(0, i as int));
            assert(s.last() == x);
        }
        out.insert(k, x);
        i = i + 1;
    }
    out
}

} // verus!
