//! A small map from text keys to block positions, kept as a list of pairs.
//! Its model is a `Map`; the list order is an implementation detail.
use vstd::prelude::*;
use vstd::string::StringExecFns;

verus! {

/// The value stored for `k`, by the latest pair with that key.
pub open spec fn lookup(e: Seq<(String, usize)>, k: Seq<char>) -> Option<nat>
    decreases e.len(),
{
    if e.len() == 0 {
        None
    } else if e.last().0@ == k {
        Some(e.last().1 as nat)
    } else {
        lookup(e.drop_last(), k)
    }
}

/// The map that a list of pairs stands for.
pub open spec fn pairs_map(e: Seq<(String, usize)>) -> Map<Seq<char>, nat> {
    Map::new(|k: Seq<char>| lookup(e, k) is Some, |k: Seq<char>| lookup(e, k).unwrap())
}

/// The keys of `m` whose value is at least `d`, each value lowered by `d`.
pub open spec fn shifted_down(m: Map<Seq<char>, nat>, d: nat) -> Map<Seq<char>, nat> {
    Map::new(|k: Seq<char>| m.contains_key(k) && m[k] >= d, |k: Seq<char>| (m[k] - d) as nat)
}

/// `m` with every value above `i` lowered by one.
pub open spec fn closed_gap(m: Map<Seq<char>, nat>, i: nat) -> Map<Seq<char>, nat> {
    Map::new(|k: Seq<char>| m.contains_key(k), |k: Seq<char>| if m[k] > i { (m[k] - 1) as nat } else { m[k] })
}

proof fn lemma_lookup_push(e: Seq<(String, usize)>, x: (String, usize), k: Seq<char>)
    ensures
        lookup(e.push(x), k) == if x.0@ == k { Some(x.1 as nat) } else { lookup(e, k) },
{
    assert(e.push(x).drop_last() =~= e);
}

proof fn lemma_lookup_prefix(e: Seq<(String, usize)>, i: int, k: Seq<char>)
    requires
        0 <= i < e.len(),
    ensures
        lookup(e.subrange(0, i + 1), k) == if e[i].0@ == k { Some(e[i].1 as nat) } else { lookup(e.subrange(0, i), k) },
{
    assert(e.subrange(0, i + 1).drop_last() =~= e.subrange(0, i));
}

pub struct KeyedIndex {
    entries: Vec<(String, usize)>,
}

impl View for KeyedIndex {
    type V = Map<Seq<char>, nat>;

    closed spec fn view(&self) -> Map<Seq<char>, nat> {
        pairs_map(self.entries@)
    }
}

impl KeyedIndex {
    pub fn new() -> (r: Self)
        ensures
            r@ == Map::<Seq<char>, nat>::empty(),
    {
        let r = KeyedIndex { entries: Vec::new() };
        assert(r@ =~= Map::<Seq<char>, nat>::empty());
        r
    }

    /// The position stored for `k`.
    pub fn get(&self, k: &String) -> (r: Option<usize>)
        ensures
            match r {
                Some(v) => self@.contains_key(k@) && self@[k@] == v,
                None => !self@.contains_key(k@),
            },
    {
        let mut i = self.entries.len();
        assert(self.entries@.subrange(0, i as int) =~= self.entries@);
        while i > 0
            invariant
                i <= self.entries@.len(),
                lookup(self.entries@, k@) == lookup(self.entries@.subrange(0, i as int), k@),
            decreases i,
        {
            proof {
                lemma_lookup_prefix(self.entries@, i - 1, k@);
            }
            if self.entries[i - 1].0 == *k {
                return Some(self.entries[i - 1].1);
            }
            i = i - 1;
        }
        None
    }

    /// The pairs whose key is not `k`, in order.
    fn without(&self, k: &String) -> (r: Vec<(String, usize)>)
        ensures
            forall|key: Seq<char>| #[trigger] lookup(r@, key) == if key == k@ { None } else { lookup(self.entries@, key) },
    {
        let mut out: Vec<(String, usize)> = Vec::new();
        let mut i: usize = 0;
        while i < self.entries.len()
            invariant
                i <= self.entries@.len(),
                forall|key: Seq<char>| #[trigger] lookup(out@, key) == if key == k@ { None } else { lookup(self.entries@.subrange(0, i as int), key) },
            decreases self.entries@.len() - i,
        {
            let ghost before = out@;
            if !(self.entries[i].0 == *k) {
                let key = self.entries[i].0.clone();
                out.push((key, self.entries[i].1));
            }
            proof {
                assert forall|key: Seq<char>| #[trigger] lookup(out@, key) == if key == k@ { None } else { lookup(self.entries@.subrange(0, i + 1), key) } by {
                    lemma_lookup_prefix(self.entries@, i as int, key);
                    if !(self.entries@[i as int].0@ == k@) {
                        lemma_lookup_push(before, out@.last(), key);
                        assert(out@ =~= before.push(out@.last()));
                    }
                }
            }
            i = i + 1;
        }
        proof {
            assert(self.entries@.subrange(0, self.entries@.len() as int) =~= self.entries@);
        }
        out
    }

    /// Store `v` for `k`, replacing what was there.
    pub fn insert(&mut self, k: String, v: usize)
        ensures
            final(self)@ == old(self)@.insert(k@, v as nat),
    {
        let mut out = self.without(&k);
        let ghost before = out@;
        let ghost kv = k@;
        out.push((k, v));
        proof {
            assert forall|key: Seq<char>| #[trigger] lookup(out@, key) == if key == kv { Some(v as nat) } else { lookup(self.entries@, key) } by {
                lemma_lookup_push(before, out@.last(), key);
                assert(out@ =~= before.push(out@.last()));
            }
        }
        let ghost old_map = self@;
        self.entries = out;
        assert(self@ =~= old_map.insert(kv, v as nat));
    }

    /// Forget `k`.
    pub fn remove(&mut self, k: &String)
        ensures
            final(self)@ == old(self)@.remove(k@),
    {
        let out = self.without(k);
        let ghost old_map = self@;
        self.entries = out;
        assert(self@ =~= old_map.remove(k@));
    }

    /// Forget the positions below `d` and lower the rest by `d`.
    pub fn shift_down(&mut self, d: usize)
        ensures
            final(self)@ == shifted_down(old(self)@, d as nat),
    {
        let mut out: Vec<(String, usize)> = Vec::new();
        let mut i: usize = 0;
        while i < self.entries.len()
            invariant
                i <= self.entries@.len(),
                forall|key: Seq<char>| #[trigger] lookup(out@, key) == match lookup(self.entries@.subrange(0, i as int), key) {
                    Some(x) => if x >= d { Some((x - d) as nat) } else { None },
                    None => None,
                },
            decreases self.entries@.len() - i,
        {
            let ghost before = out@;
            let key = self.entries[i].0.clone();
            let x = self.entries[i].1;
            if x >= d {
                out.push((key, x - d));
            } else {
                // the key must still hide older pairs with the same key
                out = KeyedIndex { entries: out }.without(&key);
            }
            proof {
                assert forall|kk: Seq<char>| #[trigger] lookup(out@, kk) == match lookup(self.entries@.subrange(0, i + 1), kk) {
                    Some(x) => if x >= d { Some((x - d) as nat) } else { None },
                    None => None,
                } by {
                    lemma_lookup_prefix(self.entries@, i as int, kk);
                    if x >= d {
                        lemma_lookup_push(before, out@.last(), kk);
                        assert(out@ =~= before.push(out@.last()));
                    }
                }
            }
            i = i + 1;
        }
        proof {
            assert(self.entries@.subrange(0, self.entries@.len() as int) =~= self.entries@);
        }
        let ghost old_map = self@;
        self.entries = out;
        assert(self@ =~= shifted_down(old_map, d as nat));
    }

    /// Lower by one every position above `i`.
    pub fn close_gap(&mut self, i: usize)
        ensures
            final(self)@ == closed_gap(old(self)@, i as nat),
    {
        let mut out: Vec<(String, usize)> = Vec::new();
        let mut j: usize = 0;
        while j < self.entries.len()
            invariant
                j <= self.entries@.len(),
                forall|key: Seq<char>| #[trigger] lookup(out@, key) == match lookup(self.entries@.subrange(0, j as int), key) {
                    Some(x) => Some(if x > i { (x - 1) as nat } else { x }),
                    None => None,
                },
            decreases self.entries@.len() - j,
        {
            let ghost before = out@;
            let key = self.entries[j].0.clone();
            let x = self.entries[j].1;
            let y = if x > i { x - 1 } else { x };
            out.push((key, y));
            proof {
                assert forall|kk: Seq<char>| #[trigger] lookup(out@, kk) == match lookup(self.entries@.subrange(0, j + 1), kk) {
                    Some(x) => Some(if x > i { (x - 1) as nat } else { x }),
                    None => None,
                } by {
                    lemma_lookup_prefix(self.entries@, j as int, kk);
                    lemma_lookup_push(before, out@.last(), kk);
                    assert(out@ =~= before.push(out@.last()));
                }
            }
            j = j + 1;
        }
        proof {
            assert(self.entries@.subrange(0, self.entries@.len() as int) =~= self.entries@);
        }
        let ghost old_map = self@;
        self.entries = out;
        assert(self@ =~= closed_gap(old_map, i as nat));
    }
}

} // verus!
