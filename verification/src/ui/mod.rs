//! View-side helpers that are pure functions of the model.
pub mod theme;
pub mod glass;
pub mod settings;
pub mod accounts;
pub mod thread;

use crate::text::chars_vec;
use vstd::prelude::*;
use vstd::string::StrSliceExecFns;

verus! {

/// `s` without its trailing `c`s.
pub open spec fn trim_end_char(s: Seq<char>, c: char) -> Seq<char>
    decreases s.len(),
{
    if s.len() > 0 && s.last() == c {
        trim_end_char(s.drop_last(), c)
    } else {
        s
    }
}

/// The text after the last `c` (all of `s` when there is none).
pub open spec fn after_last(s: Seq<char>, c: char) -> Seq<char>
    decreases s.len(),
{
    if s.len() == 0 {
        s
    } else if s.last() == c {
        Seq::empty()
    } else {
        after_last(s.drop_last(), c).push(s.last())
    }
}

/// The last path component, ignoring trailing slashes.
pub open spec fn basename_of(path: Seq<char>) -> Seq<char> {
    after_last(trim_end_char(path, '/'), '/')
}

pub fn basename(path: &str) -> (r: &str)
    ensures
        r@ == basename_of(path@),
{
    let v = chars_vec(path);
    let mut end = v.len();
    assert(v@.subrange(0, end as int) =~= v@);
    while end > 0 && v[end - 1] == '/'
        invariant
            end <= v@.len(),
            v@ == path@,
            trim_end_char(path@, '/') == trim_end_char(v@.subrange(0, end as int), '/'),
        decreases end,
    {
        assert(v@.subrange(0, end as int).drop_last() =~= v@.subrange(0, end - 1));
        end = end - 1;
    }
    let ghost t = v@.subrange(0, end as int);
    assert(trim_end_char(t, '/') == t);
    let mut start = end;
    assert(t.subrange(0, end as int) =~= t);
    assert(t.subrange(end as int, end as int) =~= Seq::<char>::empty());
    assert(after_last(t, '/') =~= after_last(t.subrange(0, end as int), '/') + t.subrange(end as int, end as int));
    while start > 0 && v[start - 1] != '/'
        invariant
            start <= end <= v@.len(),
            t == v@.subrange(0, end as int),
            after_last(t, '/') == after_last(t.subrange(0, start as int), '/') + t.subrange(start as int, end as int),
        decreases start,
    {
        proof {
            let p = t.subrange(0, start as int);
            assert(p.drop_last() =~= t.subrange(0, start - 1));
            assert(p.last() == v@[start - 1]);
            assert(after_last(t.subrange(0, start - 1), '/') + t.subrange(start - 1, end as int) =~= after_last(p.drop_last(), '/').push(p.last()) + t.subrange(start as int, end as int));
        }
        start = start - 1;
    }
    proof {
        let p = t.subrange(0, start as int);
        assert(after_last(p, '/') == Seq::<char>::empty());
        assert(Seq::<char>::empty() + t.subrange(start as int, end as int) =~= t.subrange(start as int, end as int));
    }
    path.substring_char(start, end)
}

/// The thread a keyboard step lands on among `len` listed threads: the
/// next (`down`) or previous one, held at the ends; the first when none is
/// selected.
pub fn step_selection(len: usize, cur: Option<usize>, down: bool) -> (r: usize)
    requires
        len > 0,
        cur matches Some(i) ==> i < len,
    ensures
        r < len,
        match cur {
            None => r == 0,
            Some(i) => r == if down {
                if i + 1 < len { i + 1 } else { i as int }
            } else {
                if i > 0 { i - 1 } else { 0 }
            },
        },
{
    match cur {
        None => 0,
        Some(i) => if down {
            if i + 1 < len { i + 1 } else { i }
        } else {
            if i > 0 { i - 1 } else { 0 }
        },
    }
}

/// The pool the status pill describes: the composer harness's pool, else
/// the first with an account next up, else the first.
pub open spec fn pill_pool_index(pools: Seq<crate::model::AccountPool>, harness: Option<Seq<char>>) -> Option<int> {
    if exists|i: int| 0 <= i < pools.len() && Some(#[trigger] pools[i].harness_id@) == harness {
        Some(choose|i: int| 0 <= i < pools.len() && Some(#[trigger] pools[i].harness_id@) == harness
            && forall|j: int| 0 <= j < i ==> Some(#[trigger] pools[j].harness_id@) != harness)
    } else if exists|i: int| 0 <= i < pools.len() && #[trigger] pools[i].next_up.kind@ != "none"@ {
        Some(choose|i: int| 0 <= i < pools.len() && #[trigger] pools[i].next_up.kind@ != "none"@
            && forall|j: int| 0 <= j < i ==> #[trigger] pools[j].next_up.kind@ == "none"@)
    } else if pools.len() > 0 {
        Some(0)
    } else {
        None
    }
}

/// The index of the pool the status pill describes (see `pill_pool_index`).
pub fn pill_pool(pools: &Vec<crate::model::AccountPool>, harness: Option<&str>) -> (r: Option<usize>)
    ensures
        match r {
            Some(i) => pill_pool_index(pools@, match harness {
                Some(h) => Some(h@),
                None => None,
            }) == Some(i as int),
            None => pill_pool_index(pools@, match harness {
                Some(h) => Some(h@),
                None => None,
            }) is None,
        },
{
    let ghost h = match harness {
        Some(x) => Some(x@),
        None => None::<Seq<char>>,
    };
    let mut i: usize = 0;
    while i < pools.len()
        invariant
            i <= pools@.len(),
            h == match harness {
                Some(x) => Some(x@),
                None => None::<Seq<char>>,
            },
            forall|j: int| 0 <= j < i ==> Some(#[trigger] pools@[j].harness_id@) != h,
        decreases pools@.len() - i,
    {
        let hit = match harness {
            Some(x) => crate::text::same_text(pools[i].harness_id.as_str(), x),
            None => false,
        };
        if hit {
            proof {
                let c = choose|k: int| 0 <= k < pools@.len() && Some(#[trigger] pools@[k].harness_id@) == h
                    && forall|j: int| 0 <= j < k ==> Some(#[trigger] pools@[j].harness_id@) != h;
                assert(0 <= i < pools@.len() && Some(pools@[i as int].harness_id@) == h
                    && forall|j: int| 0 <= j < i ==> Some(#[trigger] pools@[j].harness_id@) != h);
                if c < i {
                    assert(Some(pools@[c].harness_id@) != h);
                } else if c > i {
                    assert(Some(pools@[i as int].harness_id@) != h);
                }
            }
            return Some(i);
        }
        i = i + 1;
    }
    let mut k: usize = 0;
    while k < pools.len()
        invariant
            k <= pools@.len(),
            forall|j: int| 0 <= j < pools@.len() ==> Some(#[trigger] pools@[j].harness_id@) != h,
            h == match harness {
                Some(x) => Some(x@),
                None => None::<Seq<char>>,
            },
            forall|j: int| 0 <= j < k ==> #[trigger] pools@[j].next_up.kind@ == "none"@,
        decreases pools@.len() - k,
    {
        if !crate::text::same_text(pools[k].next_up.kind.as_str(), "none") {
            proof {
                let c = choose|m: int| 0 <= m < pools@.len() && #[trigger] pools@[m].next_up.kind@ != "none"@
                    && forall|j: int| 0 <= j < m ==> #[trigger] pools@[j].next_up.kind@ == "none"@;
                assert(0 <= k < pools@.len() && pools@[k as int].next_up.kind@ != "none"@
                    && forall|j: int| 0 <= j < k ==> #[trigger] pools@[j].next_up.kind@ == "none"@);
                if c < k {
                    assert(pools@[c].next_up.kind@ == "none"@);
                } else if c > k {
                    assert(pools@[k as int].next_up.kind@ != "none"@);
                }
            }
            return Some(k);
        }
        k = k + 1;
    }
    if pools.len() > 0 {
        Some(0)
    } else {
        None
    }
}

} // verus!
