//! The run board: one live card per run stream, the turn-to-stream
//! aliases, the run fetches in flight, and each run's answer. Its methods
//! are the client's decisions on stream events and fetch results; what
//! they ask the app to do (open a stream, fetch a run) comes back as values.
use crate::api::ApiError;
use crate::state::{answer_state, ends_run, event_kind, head_active, head_is_live, live_after, notice_for, refreshes_details, stream_ended, AnswerState, Live, Notice, StreamEnd};
use crate::text::same_text;
use crate::transcript::{apply_ok, opt_view, step, wf, RunEvent};
use std::sync::atomic::AtomicBool;
use std::sync::Arc;
use vstd::prelude::*;
use vstd::string::StringExecFns;

verus! {

/// Some entry of `v` has key `k`.
pub open spec fn has_key<T>(v: Seq<(String, T)>, k: Seq<char>) -> bool {
    exists|i: int| 0 <= i < v.len() && #[trigger] v[i].0@ == k
}

/// No two entries of `v` share a key.
pub open spec fn unique_keys<T>(v: Seq<(String, T)>) -> bool {
    forall|i: int, j: int| 0 <= i < j < v.len() ==> #[trigger] v[i].0@ != #[trigger] v[j].0@
}

/// No text occurs twice.
pub open spec fn unique_texts(v: Seq<String>) -> bool {
    forall|i: int, j: int| 0 <= i < j < v.len() ==> #[trigger] v[i]@ != #[trigger] v[j]@
}

pub open spec fn has_text(v: Seq<String>, k: Seq<char>) -> bool {
    exists|i: int| 0 <= i < v.len() && #[trigger] v[i]@ == k
}

/// The index of the entry with key `k`.
fn find_key<T>(v: &Vec<(String, T)>, k: &str) -> (r: Option<usize>)
    ensures
        match r {
            Some(i) => i < v@.len() && v@[i as int].0@ == k@,
            None => !has_key(v@, k@),
        },
{
    let mut i: usize = 0;
    while i < v.len()
        invariant
            i <= v@.len(),
            forall|j: int| 0 <= j < i ==> #[trigger] v@[j].0@ != k@,
        decreases v@.len() - i,
    {
        if same_text(v[i].0.as_str(), k) {
            return Some(i);
        }
        i = i + 1;
    }
    None
}

/// The index of `k` in a list of texts.
pub(crate) fn find_text(v: &Vec<String>, k: &str) -> (r: Option<usize>)
    ensures
        match r {
            Some(i) => i < v@.len() && v@[i as int]@ == k@,
            None => !has_text(v@, k@),
        },
{
    let mut i: usize = 0;
    while i < v.len()
        invariant
            i <= v@.len(),
            forall|j: int| 0 <= j < i ==> #[trigger] v@[j]@ != k@,
        decreases v@.len() - i,
    {
        if same_text(v[i].as_str(), k) {
            return Some(i);
        }
        i = i + 1;
    }
    None
}

/// The index of the entry with key `k` (meaningful when there is one).
pub open spec fn key_index<T>(v: Seq<(String, T)>, k: Seq<char>) -> int {
    choose|j: int| 0 <= j < v.len() && v[j].0@ == k
}

/// `v` without its entry for `k`.
pub open spec fn without<T>(v: Seq<(String, T)>, k: Seq<char>) -> Seq<(String, T)> {
    if has_key(v, k) {
        v.remove(key_index(v, k))
    } else {
        v
    }
}

proof fn lemma_key_index<T>(v: Seq<(String, T)>, k: Seq<char>, j: int)
    requires
        unique_keys(v),
        0 <= j < v.len(),
        v[j].0@ == k,
    ensures
        key_index(v, k) == j,
{
    let c = key_index(v, k);
    assert(0 <= c < v.len() && v[c].0@ == k);
    if c != j {
        if c < j {
            assert(v[c].0@ != v[j].0@);
        } else {
            assert(v[j].0@ != v[c].0@);
        }
    }
}

proof fn lemma_without<T>(v: Seq<(String, T)>, k: Seq<char>)
    requires
        unique_keys(v),
    ensures
        unique_keys(without(v, k)),
        !has_key(without(v, k), k),
        forall|x: Seq<char>| x != k ==> (has_key(without(v, k), x) == has_key(v, x)),
{
    if has_key(v, k) {
        let j = key_index(v, k);
        let w = v.remove(j);
        assert forall|a: int, b: int| 0 <= a < b < w.len() implies #[trigger] w[a].0@ != #[trigger] w[b].0@ by {
            let a2 = if a < j { a } else { a + 1 };
            let b2 = if b < j { b } else { b + 1 };
            assert(w[a] == v[a2] && w[b] == v[b2]);
            assert(v[a2].0@ != v[b2].0@);
        }
        assert forall|i: int| 0 <= i < w.len() implies #[trigger] w[i].0@ != k by {
            let i2 = if i < j { i } else { i + 1 };
            assert(w[i] == v[i2]);
            if i2 < j {
                assert(v[i2].0@ != v[j].0@);
            } else {
                assert(v[j].0@ != v[i2].0@);
            }
        }
        assert forall|x: Seq<char>| x != k implies (has_key(w, x) == has_key(v, x)) by {
            if has_key(v, x) {
                let i = choose|i: int| 0 <= i < v.len() && #[trigger] v[i].0@ == x;
                assert(i != j);
                let i2 = if i < j { i } else { i - 1 };
                assert(w[i2] == v[i]);
            }
            if has_key(w, x) {
                let i = choose|i: int| 0 <= i < w.len() && #[trigger] w[i].0@ == x;
                let i2 = if i < j { i } else { i + 1 };
                assert(w[i] == v[i2]);
            }
        }
    }
}

/// Drop the entry for `k`, if there is one.
fn drop_entry<T>(v: &mut Vec<(String, T)>, k: &str)
    requires
        unique_keys(old(v)@),
    ensures
        final(v)@ == without(old(v)@, k@),
        unique_keys(final(v)@),
        !has_key(final(v)@, k@),
{
    proof {
        lemma_without(v@, k@);
    }
    match find_key(v, k) {
        Some(j) => {
            proof {
                lemma_key_index(v@, k@, j as int);
            }
            v.remove(j);
        },
        None => {},
    }
}

/// Set the entry for `k`: any old one goes, the new one comes last.
fn set_entry<T>(v: &mut Vec<(String, T)>, k: &str, val: T)
    requires
        unique_keys(old(v)@),
    ensures
        final(v)@.len() >= 1,
        final(v)@.drop_last() == without(old(v)@, k@),
        final(v)@.last().0@ == k@,
        final(v)@.last().1 == val,
        unique_keys(final(v)@),
{
    drop_entry(v, k);
    let ghost before = v@;
    v.push((String::from_str(k), val));
    proof {
        assert(v@.drop_last() =~= before);
        assert forall|a: int, b: int| 0 <= a < b < v@.len() implies #[trigger] v@[a].0@ != #[trigger] v@[b].0@ by {
            assert(v@[a] == before[a]);
            if b < before.len() {
                assert(v@[b] == before[b]);
            } else {
                assert(before[a].0@ != k@);
            }
        }
    }
}

/// Drop `k` from a set of texts.
pub(crate) fn drop_text(v: &mut Vec<String>, k: &str)
    requires
        unique_texts(old(v)@),
    ensures
        unique_texts(final(v)@),
        forall|x: Seq<char>| has_text(final(v)@, x) == (has_text(old(v)@, x) && x != k@),
{
    let ghost before = v@;
    match find_text(v, k) {
        Some(j) => {
            v.remove(j);
            proof {
                let w = v@;
                assert forall|a: int, b: int| 0 <= a < b < w.len() implies #[trigger] w[a]@ != #[trigger] w[b]@ by {
                    let a2 = if a < j { a } else { a + 1 };
                    let b2 = if b < j { b } else { b + 1 };
                    assert(w[a] == before[a2] && w[b] == before[b2]);
                    assert(before[a2]@ != before[b2]@);
                }
                assert forall|x: Seq<char>| has_text(w, x) == (has_text(before, x) && x != k@) by {
                    if has_text(before, x) && x != k@ {
                        let i = choose|i: int| 0 <= i < before.len() && #[trigger] before[i]@ == x;
                        assert(i != j);
                        let i2 = if i < j { i } else { i - 1 };
                        assert(w[i2] == before[i]);
                    }
                    if has_text(w, x) {
                        let i = choose|i: int| 0 <= i < w.len() && #[trigger] w[i]@ == x;
                        let i2 = if i < j { i } else { i + 1 };
                        assert(w[i] == before[i2]);
                        if x == k@ {
                            if i2 < j {
                                assert(before[i2]@ != before[j as int]@);
                            } else {
                                assert(before[j as int]@ != before[i2]@);
                            }
                        }
                    }
                }
            }
        },
        None => {},
    }
}

/// The answer fetches an event starts, as their want-the-answer flags:
/// an interaction request reloads the run; a details refresh loads it
/// unless a fetch is in flight; a run's end reloads it with its answer.
pub open spec fn event_loads(req: bool, deep: bool, term: bool, in_flight: bool) -> Seq<bool> {
    (if req { seq![false] } else { Seq::empty() }) + (if deep && !(req || in_flight) { seq![false] } else { Seq::empty() }) + (
    if term { seq![true] } else { Seq::empty() })
}

/// The run's answer is already in.
pub open spec fn answer_ready(v: Seq<(String, AnswerState)>, rid: Seq<char>) -> bool {
    exists|i: int| 0 <= i < v.len() && #[trigger] v[i].0@ == rid && v[i].1 is Ready
}

/// The streams to resume on reconnect, in board order: cards lost with
/// their run not over and no stream running.
pub open spec fn resumable(v: Seq<(String, Live)>) -> Seq<Seq<char>>
    decreases v.len(),
{
    if v.len() == 0 {
        Seq::empty()
    } else {
        let r = resumable(v.drop_last());
        let l = v.last().1;
        if l.lost && l.terminal is None && l.stop is None {
            r.push(v.last().0@)
        } else {
            r
        }
    }
}

/// The stream ids of a list of watches.
pub open spec fn streams(w: Seq<Watch>) -> Seq<Seq<char>> {
    w.map_values(|x: Watch| x.stream@)
}

/// The stream a turn's run box lives under: its run id, else the stream
/// its start recorded.
pub open spec fn stream_for(aliases: Seq<(String, String)>, turn_id: Seq<char>, run_id: Option<Seq<char>>) -> Option<Seq<char>> {
    match run_id {
        Some(r) => Some(r),
        None => if has_key(aliases, turn_id) {
            Some(aliases[key_index(aliases, turn_id)].1@)
        } else {
            None
        },
    }
}

/// Stream `s` has a card that is streaming or whose run is over.
pub open spec fn watched(v: Seq<(String, Live)>, s: Seq<char>) -> bool {
    exists|i: int| 0 <= i < v.len() && #[trigger] v[i].0@ == s && (v[i].1.stop is Some || v[i].1.terminal is Some)
}

/// The stream of a turn card.
pub open spec fn card_stream(aliases: Seq<(String, String)>, t: TurnCard) -> Option<Seq<char>> {
    stream_for(aliases, t.id@, opt_view(t.run_id))
}

/// A turn whose run card says it is queued or running.
pub open spec fn active_card(t: TurnCard) -> bool {
    t.run_state matches Some(st) && crate::state::card_active(st@)
}

/// A turn whose run waits on the user and whose questions are not loaded.
pub open spec fn needs_questions(t: TurnCard) -> bool {
    t.run_state is Some && t.waiting_on_user == Some(true) && t.run_id is Some && !t.has_pending
}

/// `s` is the stream of an active turn among `turns`.
pub open spec fn stream_of_active(turns: Seq<TurnCard>, aliases: Seq<(String, String)>, s: Seq<char>) -> bool {
    exists|j: int| 0 <= j < turns.len() && active_card(#[trigger] turns[j]) && card_stream(aliases, turns[j]) == Some(s)
}

/// `rid` is the run of a turn among `turns` that waits on the user with its
/// questions not loaded.
pub open spec fn run_of_waiting(turns: Seq<TurnCard>, rid: Seq<char>) -> bool {
    exists|j: int| 0 <= j < turns.len() && needs_questions(#[trigger] turns[j]) && turns[j].run_id.unwrap()@ == rid
}

/// The card of a turn: under its run id, else under its recorded stream.
pub open spec fn card_for(runs: Seq<(String, Live)>, aliases: Seq<(String, String)>, turn_id: Seq<char>, run_id: Option<Seq<char>>) -> Option<Live> {
    match run_id {
        Some(x) if has_key(runs, x) => Some(runs[key_index(runs, x)].1),
        _ => match stream_for(aliases, turn_id, None) {
            Some(s) => if has_key(runs, s) {
                Some(runs[key_index(runs, s)].1)
            } else {
                None
            },
            None => None,
        },
    }
}

/// A stream runs for key `k`: its card holds a stop flag.
pub open spec fn streaming_in(v: Seq<(String, Live)>, k: Seq<char>) -> bool {
    exists|i: int| 0 <= i < v.len() && #[trigger] v[i].0@ == k && v[i].1.stop is Some
}

/// The cursor a stream for key `k` resumes after: its card's last folded
/// seq, when it has a card that folded any.
pub open spec fn resume_for(v: Seq<(String, Live)>, k: Seq<char>) -> Option<Seq<char>> {
    if has_key(v, k) && v[key_index(v, k)].1.transcript@.last_seq > 0 {
        Some(crate::text::decimal(v[key_index(v, k)].1.transcript@.last_seq as nat))
    } else {
        None
    }
}

/// The stream a started turn is followed on: its run id, else its job id.
pub open spec fn started_stream(st: crate::model::TurnStarted) -> Option<Seq<char>> {
    if st.run_id is Some {
        opt_view(st.run_id)
    } else {
        opt_view(st.job_id)
    }
}

/// Cards with the same keys and transcripts, entry by entry, resume from
/// the same cursors.
proof fn lemma_resume_same(a: Seq<(String, Live)>, b: Seq<(String, Live)>, k: Seq<char>)
    requires
        unique_keys(a),
        unique_keys(b),
        a.len() == b.len(),
        forall|j: int| 0 <= j < a.len() ==> #[trigger] a[j].0@ == b[j].0@ && a[j].1.transcript@ == b[j].1.transcript@,
    ensures
        resume_for(a, k) == resume_for(b, k),
{
    if has_key(a, k) {
        let j = choose|j: int| 0 <= j < a.len() && #[trigger] a[j].0@ == k;
        lemma_key_index(a, k, j);
        assert(b[j].0@ == k);
        lemma_key_index(b, k, j);
    }
    if has_key(b, k) {
        let j = choose|j: int| 0 <= j < b.len() && #[trigger] b[j].0@ == k;
        assert(a[j].0@ == k);
    }
}

/// The card of stream `sid` in `n`, once a watch opened it from `o`: it
/// streams and is not lost; its transcript is what it had (empty for a new
/// card).
pub open spec fn card_opened(o: Seq<(String, Live)>, n: Seq<(String, Live)>, sid: Seq<char>) -> bool {
    &&& has_key(n, sid)
    &&& n[key_index(n, sid)].1.stop is Some
    &&& !n[key_index(n, sid)].1.lost
    &&& if has_key(o, sid) {
        n[key_index(n, sid)].1.transcript@ == o[key_index(o, sid)].1.transcript@
    } else {
        n[key_index(n, sid)].1.transcript@.last_seq == 0
    }
}

/// Some watch in `w` is for stream `s`.
pub open spec fn opened(w: Seq<Watch>, s: Seq<char>) -> bool {
    exists|k: int| 0 <= k < w.len() && #[trigger] w[k].stream@ == s
}

proof fn lemma_opened_push(w: Seq<Watch>, x: Watch)
    ensures
        forall|s: Seq<char>| opened(w.push(x), s) == (opened(w, s) || s == x.stream@),
{
    assert forall|s: Seq<char>| opened(w.push(x), s) == (opened(w, s) || s == x.stream@) by {
        if opened(w, s) {
            let k = choose|k: int| 0 <= k < w.len() && #[trigger] w[k].stream@ == s;
            assert(w.push(x)[k] == w[k]);
        }
        if s == x.stream@ {
            assert(w.push(x)[w.len() as int] == x);
        }
        if opened(w.push(x), s) {
            let k = choose|k: int| 0 <= k < w.push(x).len() && #[trigger] w.push(x)[k].stream@ == s;
            if k < w.len() {
                assert(w.push(x)[k] == w[k]);
            }
        }
    }
}

/// How the prefix predicates grow by one turn.
proof fn lemma_prefix_step(pre: Seq<TurnCard>, post: Seq<TurnCard>, t: TurnCard, aliases: Seq<(String, String)>)
    requires
        post == pre.push(t),
    ensures
        forall|x: Seq<char>| #[trigger] stream_of_active(post, aliases, x) == (stream_of_active(pre, aliases, x) || (active_card(t)
            && card_stream(aliases, t) == Some(x))),
        forall|x: Seq<char>| #[trigger] run_of_waiting(post, x) == (run_of_waiting(pre, x) || (needs_questions(t) && t.run_id.unwrap()@ == x)),
{
    assert forall|x: Seq<char>| stream_of_active(post, aliases, x) == (stream_of_active(pre, aliases, x) || (active_card(t)
        && card_stream(aliases, t) == Some(x))) by {
        if stream_of_active(pre, aliases, x) {
            let j = choose|j: int| 0 <= j < pre.len() && active_card(#[trigger] pre[j]) && card_stream(aliases, pre[j]) == Some(x);
            assert(post[j] == pre[j]);
        }
        if active_card(t) && card_stream(aliases, t) == Some(x) {
            assert(post[pre.len() as int] == t);
        }
        if stream_of_active(post, aliases, x) {
            let j = choose|j: int| 0 <= j < post.len() && active_card(#[trigger] post[j]) && card_stream(aliases, post[j]) == Some(x);
            if j < pre.len() {
                assert(post[j] == pre[j]);
            }
        }
    }
    assert forall|x: Seq<char>| run_of_waiting(post, x) == (run_of_waiting(pre, x) || (needs_questions(t) && t.run_id.unwrap()@ == x)) by {
        if run_of_waiting(pre, x) {
            let j = choose|j: int| 0 <= j < pre.len() && needs_questions(#[trigger] pre[j]) && pre[j].run_id.unwrap()@ == x;
            assert(post[j] == pre[j]);
        }
        if needs_questions(t) && t.run_id.unwrap()@ == x {
            assert(post[pre.len() as int] == t);
        }
        if run_of_waiting(post, x) {
            let j = choose|j: int| 0 <= j < post.len() && needs_questions(#[trigger] post[j]) && post[j].run_id.unwrap()@ == x;
            if j < pre.len() {
                assert(post[j] == pre[j]);
            }
        }
    }
}

/// A stream this call has not opened has the card it had.
proof fn lemma_card_as_before(runs0: Seq<(String, Live)>, cur: Seq<(String, Live)>, w: Seq<Watch>, s: Seq<char>)
    requires
        unique_keys(runs0),
        unique_keys(cur),
        cur.len() >= runs0.len(),
        forall|j: int| 0 <= j < runs0.len() && !opened(w, runs0[j].0@) ==> #[trigger] cur[j] == runs0[j],
        forall|j: int| 0 <= j < runs0.len() ==> #[trigger] cur[j].0@ == runs0[j].0@,
        forall|j: int| runs0.len() <= j < cur.len() ==> opened(w, #[trigger] cur[j].0@),
        !opened(w, s),
    ensures
        has_key(cur, s) == has_key(runs0, s),
        watched(cur, s) == watched(runs0, s),
        streaming_in(cur, s) == streaming_in(runs0, s),
        resume_for(cur, s) == resume_for(runs0, s),
{
    if has_key(runs0, s) {
        let j = choose|j: int| 0 <= j < runs0.len() && #[trigger] runs0[j].0@ == s;
        assert(cur[j] == runs0[j]);
        lemma_key_index(runs0, s, j);
        lemma_key_index(cur, s, j);
    }
    if has_key(cur, s) {
        let j = choose|j: int| 0 <= j < cur.len() && #[trigger] cur[j].0@ == s;
        if j >= runs0.len() {
            assert(opened(w, cur[j].0@));
        }
        assert(cur[j].0@ == runs0[j].0@);
        assert(cur[j] == runs0[j]);
    }
    if watched(cur, s) {
        let j = choose|j: int| 0 <= j < cur.len() && #[trigger] cur[j].0@ == s && (cur[j].1.stop is Some || cur[j].1.terminal is Some);
        if j >= runs0.len() {
            assert(opened(w, cur[j].0@));
        }
        assert(cur[j].0@ == runs0[j].0@);
        assert(cur[j] == runs0[j]);
    }
    if watched(runs0, s) {
        let j = choose|j: int| 0 <= j < runs0.len() && #[trigger] runs0[j].0@ == s && (runs0[j].1.stop is Some || runs0[j].1.terminal is Some);
        assert(cur[j] == runs0[j]);
    }
    if streaming_in(cur, s) {
        let j = choose|j: int| 0 <= j < cur.len() && #[trigger] cur[j].0@ == s && cur[j].1.stop is Some;
        if j >= runs0.len() {
            assert(opened(w, cur[j].0@));
        }
        assert(cur[j].0@ == runs0[j].0@);
        assert(cur[j] == runs0[j]);
    }
    if streaming_in(runs0, s) {
        let j = choose|j: int| 0 <= j < runs0.len() && #[trigger] runs0[j].0@ == s && runs0[j].1.stop is Some;
        assert(cur[j] == runs0[j]);
    }
}

/// An entry past the old length is the one `watch` added, for its key.
proof fn lemma_new_entry_key(cur: Seq<(String, Live)>, next: Seq<(String, Live)>, sid: Seq<char>, j: int)
    requires
        cur.len() <= j < next.len(),
        next.len() <= cur.len() + 1,
        has_key(next, sid),
        !has_key(cur, sid) || next.len() == cur.len(),
        forall|i: int| 0 <= i < cur.len() && cur[i].0@ != sid ==> #[trigger] next[i] == cur[i],
        unique_keys(next),
    ensures
        next[j].0@ == sid,
{
    let q = choose|q: int| 0 <= q < next.len() && #[trigger] next[q].0@ == sid;
    if q != j {
        assert(q < cur.len());
        assert(cur[q].0@ != sid ==> next[q] == cur[q]);
        if cur[q].0@ == sid {
            assert(has_key(cur, sid));
        } else {
            assert(next[q].0@ == cur[q].0@);
        }
    }
}

/// A stream the app is to open: its id, the cursor to resume after, and
/// the flag that stops it.
pub struct Watch {
    pub stream: String,
    pub resume: Option<String>,
    pub stop: Arc<AtomicBool>,
}

/// What a stream event asks of the app besides the card update.
pub struct EventOutcome {
    /// The event was folded (not a replay, and its stream is known).
    pub folded: bool,
    /// The desktop notice to show, if any.
    pub notice: Option<Notice>,
    /// Runs to fetch, each with whether its answer is wanted.
    pub loads: Vec<(String, bool)>,
    /// The open details section of this run was refreshed now.
    pub details_stamped: bool,
    /// The open thread is to be refreshed.
    pub refresh_thread: bool,
}

/// One turn of a fresh thread detail, as the board reads it.
pub struct TurnCard {
    pub id: String,
    pub run_id: Option<String>,
    /// The embedded run card's state, when the turn has a run card.
    pub run_state: Option<String>,
    pub waiting_on_user: Option<bool>,
    /// The run's loaded details already list pending interactions.
    pub has_pending: bool,
}

pub struct RunBoard {
    pub runs: Vec<(String, Live)>,
    /// Turn id to the stream id its run box lives under (queued turns
    /// stream by job id).
    pub turn_stream: Vec<(String, String)>,
    /// Run ids with a fetch in flight.
    pub run_flight: Vec<String>,
    pub answers: Vec<(String, AnswerState)>,
}

impl RunBoard {
    /// Keys are unique and every card's transcript is well formed.
    pub open spec fn wf(&self) -> bool {
        &&& unique_keys(self.runs@)
        &&& unique_keys(self.turn_stream@)
        &&& unique_keys(self.answers@)
        &&& unique_texts(self.run_flight@)
        &&& forall|i: int| 0 <= i < self.runs@.len() ==> wf(#[trigger] self.runs@[i].1.transcript@)
    }

    pub fn new() -> (b: RunBoard)
        ensures
            b.wf(),
            b.runs@.len() == 0,
            b.turn_stream@.len() == 0,
            b.run_flight@.len() == 0,
            b.answers@.len() == 0,
    {
        RunBoard { runs: Vec::new(), turn_stream: Vec::new(), run_flight: Vec::new(), answers: Vec::new() }
    }

    /// Open (or resume) the stream `sid` unless one is running: the card is
    /// created on first sight, marked streaming and no longer lost, and the
    /// stream resumes after the card's cursor. Nothing while offline.
    pub fn watch(&mut self, sid: &str, online: bool) -> (r: Option<Watch>)
        requires
            old(self).wf(),
        ensures
            final(self).wf(),
            final(self).turn_stream == old(self).turn_stream,
            final(self).run_flight == old(self).run_flight,
            final(self).answers == old(self).answers,
            !online ==> r is None && final(self).runs == old(self).runs,
            r is None ==> final(self).runs == old(self).runs,
            r is Some <==> online && !streaming_in(old(self).runs@, sid@),
            r matches Some(w) ==> w.stream@ == sid@ && opt_view(w.resume) == resume_for(old(self).runs@, sid@),
            r is Some ==> card_opened(old(self).runs@, final(self).runs@, sid@),
            online ==> has_key(final(self).runs@, sid@),
            online && has_key(old(self).runs@, sid@) ==> final(self).runs@.len() == old(self).runs@.len(),
            online && !has_key(old(self).runs@, sid@) ==> final(self).runs@.len() == old(self).runs@.len() + 1,
            forall|i: int| 0 <= i < old(self).runs@.len() && old(self).runs@[i].0@ != sid@ ==> #[trigger] final(self).runs@[i] == old(self).runs@[i],
            forall|i: int| 0 <= i < old(self).runs@.len() ==> #[trigger] final(self).runs@[i].0@ == old(self).runs@[i].0@,
            online ==> forall|i: int| 0 <= i < final(self).runs@.len() && #[trigger] final(self).runs@[i].0@ == sid@ ==> {
                let l = final(self).runs@[i].1;
                &&& l.stop is Some
                &&& (r is Some ==> !l.lost)
                &&& (i < old(self).runs@.len() ==> l.transcript@ == old(self).runs@[i].1.transcript@)
                &&& (i < old(self).runs@.len() && old(self).runs@[i].1.stop is Some ==> r is None && l == old(self).runs@[i].1)
                &&& (i < old(self).runs@.len() && old(self).runs@[i].1.stop is None ==> r is Some)
                &&& (i >= old(self).runs@.len() ==> r is Some && l.transcript@.last_seq == 0)
                &&& (r matches Some(w) ==> w.stream@ == sid@ && match w.resume {
                    Some(c) => l.transcript@.last_seq > 0 && c@ == crate::text::decimal(l.transcript@.last_seq as nat),
                    None => l.transcript@.last_seq == 0,
                })
            },
    {
        if !online {
            return None;
        }
        let i = match find_key(&self.runs, sid) {
            Some(i) => i,
            None => {
                let ghost before = self.runs@;
                self.runs.push((String::from_str(sid), Live::new()));
                proof {
                    assert forall|a: int, b: int| 0 <= a < b < self.runs@.len() implies #[trigger] self.runs@[a].0@ != #[trigger] self.runs@[b].0@ by {
                        if b == before.len() {
                            assert(self.runs@[a] == before[a]);
                        }
                    }
                }
                (self.runs.len() - 1)
            },
        };
        let ghost new_card = !has_key(old(self).runs@, sid@);
        assert(new_card ==> self.runs@[i as int].1.stop is None && i == old(self).runs@.len());
        assert(!new_card ==> self.runs@ == old(self).runs@);
        proof {
            if !new_card {
                lemma_key_index(old(self).runs@, sid@, i as int);
            }
            if streaming_in(old(self).runs@, sid@) {
                let j = choose|j: int| 0 <= j < old(self).runs@.len() && #[trigger] old(self).runs@[j].0@ == sid@ && old(self).runs@[j].1.stop is Some;
                lemma_key_index(old(self).runs@, sid@, j);
            }
        }
        if self.runs[i].1.streaming() {
            proof {
                assert forall|j: int| 0 <= j < self.runs@.len() && #[trigger] self.runs@[j].0@ == sid@ implies j == i by {
                    if j != i {
                        assert(self.runs@[j].0@ != self.runs@[i as int].0@);
                    }
                }
            }
            return None;
        }
        let ghost before = self.runs@;
        let (key, mut live) = self.runs.remove(i);
        let stop = Arc::new(AtomicBool::new(false));
        live.stop = Some(stop.clone());
        live.lost = false;
        let resume = live.resume_cursor();
        self.runs.insert(i, (key, live));
        proof {
            assert forall|j: int| 0 <= j < self.runs@.len() && j != i implies #[trigger] self.runs@[j] == before[j] by {}
            assert forall|a: int, b: int| 0 <= a < b < self.runs@.len() implies #[trigger] self.runs@[a].0@ != #[trigger] self.runs@[b].0@ by {
                assert(self.runs@[a].0@ == before[a].0@);
                assert(self.runs@[b].0@ == before[b].0@);
            }
            assert forall|j: int| 0 <= j < self.runs@.len() && #[trigger] self.runs@[j].0@ == sid@ implies j == i by {
                if j != i {
                    assert(before[j].0@ != before[i as int].0@);
                }
            }
        }
        assert(self.runs@[i as int].0@ == sid@);
        proof {
            lemma_key_index(self.runs@, sid@, i as int);
        }
        Some(Watch { stream: String::from_str(sid), resume, stop })
    }

    /// Start a fetch of run `rid`, single-flight per run: true when the
    /// fetch is to be made, false when one is already in flight. Wanting
    /// the answer marks it loading unless the run already has one.
    pub fn load_run(&mut self, rid: &str, with_answer: bool) -> (r: bool)
        requires
            old(self).wf(),
        ensures
            final(self).wf(),
            final(self).runs == old(self).runs,
            final(self).turn_stream == old(self).turn_stream,
            r == !has_text(old(self).run_flight@, rid@),
            forall|x: Seq<char>| has_text(final(self).run_flight@, x) == (has_text(old(self).run_flight@, x) || x == rid@),
            if r && with_answer && !has_key(old(self).answers@, rid@) {
                &&& final(self).answers@.len() == old(self).answers@.len() + 1
                &&& final(self).answers@.drop_last() == old(self).answers@
                &&& final(self).answers@.last().0@ == rid@
                &&& final(self).answers@.last().1 is Loading
            } else {
                final(self).answers == old(self).answers
            },
    {
        if find_text(&self.run_flight, rid).is_some() {
            return false;
        }
        let ghost before = self.run_flight@;
        self.run_flight.push(String::from_str(rid));
        proof {
            assert forall|a: int, b: int| 0 <= a < b < self.run_flight@.len() implies #[trigger] self.run_flight@[a]@ != #[trigger] self.run_flight@[b]@ by {
                assert(self.run_flight@[a] == before[a]);
                if b < before.len() {
                    assert(self.run_flight@[b] == before[b]);
                }
            }
            assert forall|x: Seq<char>| has_text(self.run_flight@, x) == (has_text(before, x) || x == rid@) by {
                if has_text(before, x) {
                    let i = choose|i: int| 0 <= i < before.len() && #[trigger] before[i]@ == x;
                    assert(self.run_flight@[i] == before[i]);
                }
                if x == rid@ {
                    assert(self.run_flight@[before.len() as int]@ == rid@);
                }
                if has_text(self.run_flight@, x) {
                    let i = choose|i: int| 0 <= i < self.run_flight@.len() && #[trigger] self.run_flight@[i]@ == x;
                    if i < before.len() {
                        assert(self.run_flight@[i] == before[i]);
                    }
                }
            }
        }
        if with_answer && find_key(&self.answers, rid).is_none() {
            let ghost old_answers = self.answers@;
            self.answers.push((String::from_str(rid), AnswerState::Loading));
            proof {
                assert(self.answers@.drop_last() =~= old_answers);
                assert forall|a: int, b: int| 0 <= a < b < self.answers@.len() implies #[trigger] self.answers@[a].0@ != #[trigger] self.answers@[b].0@ by {
                    assert(self.answers@[a] == old_answers[a]);
                    if b < old_answers.len() {
                        assert(self.answers@[b] == old_answers[b]);
                    }
                }
            }
        }
        true
    }

    /// Fold one stream event into the card of stream `sid`, then act on it:
    /// the desktop notice; for an event naming run `run_id`, reload the run
    /// on an interaction request, refresh its open details when
    /// `details_due` (they are open and not refreshed in the last two
    /// seconds), and on its end refetch it with the answer (unless the answer
    /// is already in) and refresh the thread. A replayed event, or one for
    /// an unknown stream, does nothing.
    pub fn on_event(
        &mut self,
        sid: &str,
        seq: i64,
        ev: &RunEvent,
        run_id: Option<&str>,
        fresh: bool,
        title: Option<String>,
        details_due: bool,
    ) -> (out: EventOutcome)
        requires
            old(self).wf(),
            forall|i: int| 0 <= i < old(self).runs@.len() && #[trigger] old(self).runs@[i].0@ == sid@ ==> apply_ok(
                old(self).runs@[i].1.transcript@,
                seq as int,
                *ev,
            ),
        ensures
            final(self).wf(),
            final(self).turn_stream == old(self).turn_stream,
            final(self).runs@.len() == old(self).runs@.len(),
            forall|i: int| 0 <= i < old(self).runs@.len() && old(self).runs@[i].0@ != sid@ ==> #[trigger] final(self).runs@[i] == old(self).runs@[i],
            out.folded == exists|i: int| 0 <= i < old(self).runs@.len() && #[trigger] old(self).runs@[i].0@ == sid@ && seq > old(self).runs@[i].1.transcript@.last_seq,
            !out.folded ==> final(self).runs == old(self).runs && final(self).run_flight == old(self).run_flight
                && final(self).answers == old(self).answers && out.notice is None && out.loads@.len() == 0
                && !out.details_stamped && !out.refresh_thread,
            forall|i: int| 0 <= i < old(self).runs@.len() && #[trigger] old(self).runs@[i].0@ == sid@ && out.folded ==> {
                let o = old(self).runs@[i].1;
                let l = final(self).runs@[i].1;
                let k = event_kind(*ev);
                let req = run_id is Some && k == "interaction.requested"@ && l.waiting;
                let deep = run_id is Some && crate::state::deep_kind(k) && details_due;
                let term = run_id is Some && crate::state::terminal_kind(k) && !answer_ready(old(self).answers@, run_id.unwrap()@);
                &&& final(self).runs@[i].0 == old(self).runs@[i].0
                &&& l.transcript@ == step(o.transcript@, seq as int, *ev).0
                &&& (l.phase@, opt_view(l.terminal), l.waiting) == live_after(o.phase@, opt_view(o.terminal), o.waiting, k)
                &&& l.stop == o.stop && l.lost == o.lost
                &&& match (fresh, crate::state::notice_word_of(k)) {
                    (true, Some(w)) => out.notice matches Some(n) && n.title@ == "Claudexor · "@ + w && n.body@ == match title {
                        Some(t) => t@,
                        None => "A run changed state"@,
                    },
                    _ => out.notice is None,
                }
                &&& out.details_stamped == deep
                &&& out.refresh_thread == term
                &&& (forall|j: int| 0 <= j < out.loads@.len() ==> #[trigger] out.loads@[j].0@ == run_id.unwrap()@)
                &&& out.loads@.map_values(|x: (String, bool)| x.1) == (if run_id is Some {
                    event_loads(req, deep, term, has_text(old(self).run_flight@, run_id.unwrap()@))
                } else {
                    Seq::empty()
                })
                &&& forall|x: Seq<char>| has_text(final(self).run_flight@, x) == (has_text(old(self).run_flight@, x) || ((req || deep || term)
                    && x == run_id.unwrap()@))
                &&& if term {
                    &&& final(self).answers@.drop_last() == without(old(self).answers@, run_id.unwrap()@)
                    &&& final(self).answers@.last().0@ == run_id.unwrap()@
                    &&& final(self).answers@.last().1 is Loading
                } else {
                    final(self).answers == old(self).answers
                }
            },
    {
        let none = EventOutcome { folded: false, notice: None, loads: Vec::new(), details_stamped: false, refresh_thread: false };
        let i = match find_key(&self.runs, sid) {
            Some(i) => i,
            None => {
                return none;
            },
        };
        proof {
            assert forall|j: int| 0 <= j < self.runs@.len() && #[trigger] self.runs@[j].0@ == sid@ implies j == i by {
                if j < i {
                    assert(self.runs@[j].0@ != self.runs@[i as int].0@);
                } else if j > i {
                    assert(self.runs@[i as int].0@ != self.runs@[j].0@);
                }
            }
        }
        if seq <= self.runs[i].1.transcript.cursor() {
            return none;
        }
        let ghost before = self.runs@;
        let (key, mut live) = self.runs.remove(i);
        live.on_event(seq, ev);
        let waiting = live.waiting;
        self.runs.insert(i, (key, live));
        proof {
            assert forall|j: int| 0 <= j < self.runs@.len() && j != i implies #[trigger] self.runs@[j] == before[j] by {}
            assert forall|a: int, b: int| 0 <= a < b < self.runs@.len() implies #[trigger] self.runs@[a].0@ != #[trigger] self.runs@[b].0@ by {
                assert(self.runs@[a].0@ == before[a].0@);
                assert(self.runs@[b].0@ == before[b].0@);
            }
            assert(self.runs@[i as int].0@ == sid@);
            assert(wf(self.runs@[i as int].1.transcript@));
            assert forall|j: int| 0 <= j < self.runs@.len() implies wf(#[trigger] self.runs@[j].1.transcript@) by {
                if j != i {
                    assert(self.runs@[j] == before[j]);
                }
            }
        }
        let empty = String::new();
        let k: &str = match &ev.kind {
            Some(k) => k.as_str(),
            None => empty.as_str(),
        };
        let notice = notice_for(k, fresh, title);
        let mut loads: Vec<(String, bool)> = Vec::new();
        let mut stamped = false;
        let mut refresh = false;
        match run_id {
            Some(rid) => {
                let ghost answers0 = self.answers@;
                let req = same_text(k, "interaction.requested") && waiting;
                if req {
                    drop_text(&mut self.run_flight, rid);
                    let go = self.load_run(rid, false);
                    assert(go);
                    loads.push((String::from_str(rid), false));
                }
                let deep = refreshes_details(k) && details_due;
                if deep {
                    stamped = true;
                    if self.load_run(rid, false) {
                        loads.push((String::from_str(rid), false));
                    }
                }
                let ready = match find_key(&self.answers, rid) {
                    Some(j) => match &self.answers[j].1 {
                        AnswerState::Ready(_) => true,
                        _ => false,
                    },
                    None => false,
                };
                proof {
                    if answer_ready(answers0, rid@) {
                        let j = choose|j: int| 0 <= j < answers0.len() && #[trigger] answers0[j].0@ == rid@ && answers0[j].1 is Ready;
                        assert(j == key_index(answers0, rid@)) by {
                            lemma_key_index(answers0, rid@, j);
                        }
                    }
                }
                if ends_run(k) && !ready {
                    drop_text(&mut self.run_flight, rid);
                    drop_entry(&mut self.answers, rid);
                    let go = self.load_run(rid, true);
                    assert(go);
                    loads.push((String::from_str(rid), true));
                    refresh = true;
                }
            },
            None => {},
        }
        let out = EventOutcome { folded: true, notice, loads, details_stamped: stamped, refresh_thread: refresh };
        proof {
            let l = self.runs@[i as int].1;
            if run_id is Some {
                let kk = event_kind(*ev);
                let req = kk == "interaction.requested"@ && l.waiting;
                let deep = crate::state::deep_kind(kk) && details_due;
                let term = crate::state::terminal_kind(kk) && !answer_ready(old(self).answers@, run_id.unwrap()@);
                assert(out.loads@.map_values(|x: (String, bool)| x.1) =~= event_loads(req, deep, term, has_text(old(self).run_flight@, run_id.unwrap()@)));
            }
        }
        out
    }

    /// A stream ended: its card takes the end (see `Live::on_stream_end`).
    /// True when the stream is to be reopened in a second.
    pub fn on_stream_end(&mut self, sid: &str, end: StreamEnd, online: bool) -> (rewatch: bool)
        requires
            old(self).wf(),
        ensures
            final(self).wf(),
            final(self).turn_stream == old(self).turn_stream,
            final(self).run_flight == old(self).run_flight,
            final(self).answers == old(self).answers,
            final(self).runs@.len() == old(self).runs@.len(),
            !has_key(old(self).runs@, sid@) ==> !rewatch && final(self).runs == old(self).runs,
            forall|i: int| 0 <= i < old(self).runs@.len() ==> {
                let o = #[trigger] old(self).runs@[i];
                let l = final(self).runs@[i];
                &&& l.0 == o.0
                &&& o.0@ != sid@ ==> l == o
                &&& o.0@ == sid@ ==> stream_ended(o.1, l.1, end, online, rewatch)
            },
    {
        let i = match find_key(&self.runs, sid) {
            Some(i) => i,
            None => return false,
        };
        let ghost before = self.runs@;
        proof {
            assert forall|j: int| 0 <= j < before.len() && #[trigger] before[j].0@ == sid@ implies j == i by {
                if j < i {
                    assert(before[j].0@ != before[i as int].0@);
                } else if j > i {
                    assert(before[i as int].0@ != before[j].0@);
                }
            }
        }
        let (key, mut live) = self.runs.remove(i);
        let r = live.on_stream_end(end, online);
        self.runs.insert(i, (key, live));
        proof {
            assert forall|j: int| 0 <= j < self.runs@.len() && j != i implies #[trigger] self.runs@[j] == before[j] by {}
            assert forall|j: int| 0 <= j < self.runs@.len() implies wf(#[trigger] self.runs@[j].1.transcript@) by {
                if j != i {
                    assert(self.runs@[j] == before[j]);
                } else {
                    assert(wf(before[j].1.transcript@));
                }
            }
            assert forall|a: int, b: int| 0 <= a < b < self.runs@.len() implies #[trigger] self.runs@[a].0@ != #[trigger] self.runs@[b].0@ by {
                assert(self.runs@[a].0@ == before[a].0@);
                assert(self.runs@[b].0@ == before[b].0@);
            }
        }
        r
    }

    /// Reopen a lost stream a second after it dropped: only while online,
    /// and only when its card is still lost and not streaming.
    pub fn rewatch(&mut self, sid: &str, online: bool) -> (r: Option<Watch>)
        requires
            old(self).wf(),
        ensures
            final(self).wf(),
            final(self).turn_stream == old(self).turn_stream,
            final(self).run_flight == old(self).run_flight,
            final(self).answers == old(self).answers,
            r is Some <==> online && exists|i: int| 0 <= i < old(self).runs@.len() && #[trigger] old(self).runs@[i].0@ == sid@
                && old(self).runs@[i].1.lost && old(self).runs@[i].1.stop is None,
            r is None ==> final(self).runs == old(self).runs,
            r matches Some(w) ==> w.stream@ == sid@ && opt_view(w.resume) == resume_for(old(self).runs@, sid@),
            r is Some ==> card_opened(old(self).runs@, final(self).runs@, sid@),
            forall|i: int| 0 <= i < old(self).runs@.len() && old(self).runs@[i].0@ != sid@ ==> #[trigger] final(self).runs@[i] == old(self).runs@[i],
    {
        if !online {
            return None;
        }
        let due = match find_key(&self.runs, sid) {
            Some(i) => self.runs[i].1.needs_rewatch(),
            None => false,
        };
        proof {
            if exists|i: int| 0 <= i < self.runs@.len() && #[trigger] self.runs@[i].0@ == sid@ && self.runs@[i].1.lost && self.runs@[i].1.stop is None {
                let i = choose|i: int| 0 <= i < self.runs@.len() && #[trigger] self.runs@[i].0@ == sid@ && self.runs@[i].1.lost && self.runs@[i].1.stop is None;
                lemma_key_index(self.runs@, sid@, i);
            }
        }
        if !due {
            return None;
        }
        proof {
            let i = choose|i: int| 0 <= i < self.runs@.len() && #[trigger] self.runs@[i].0@ == sid@;
            lemma_key_index(self.runs@, sid@, i);
        }
        let r = self.watch(sid, online);
        r
    }

    /// Back online: no run fetch is in flight any more, and every stream the
    /// outage cut is resumed from its cursor.
    pub fn on_online(&mut self) -> (w: Vec<Watch>)
        requires
            old(self).wf(),
        ensures
            final(self).wf(),
            final(self).run_flight@.len() == 0,
            final(self).turn_stream == old(self).turn_stream,
            final(self).answers == old(self).answers,
            final(self).runs@.len() == old(self).runs@.len(),
            streams(w@) == resumable(old(self).runs@),
            forall|k: int| 0 <= k < w@.len() ==> opt_view(#[trigger] w@[k].resume) == resume_for(old(self).runs@, w@[k].stream@),
            forall|i: int| 0 <= i < old(self).runs@.len() ==> {
                let o = #[trigger] old(self).runs@[i];
                let l = final(self).runs@[i];
                &&& l.0@ == o.0@
                &&& l.1.transcript@ == o.1.transcript@
                &&& (o.1.lost && o.1.terminal is None && o.1.stop is None) ==> l.1.stop is Some && !l.1.lost
                &&& !(o.1.lost && o.1.terminal is None && o.1.stop is None) ==> l == o
            },
    {
        self.run_flight.clear();
        let ghost start = self.runs@;
        let n = self.runs.len();
        let mut out: Vec<Watch> = Vec::new();
        let mut i: usize = 0;
        proof {
            assert(start.subrange(0, 0) =~= Seq::<(String, Live)>::empty());
        }
        while i < n
            invariant
                self.wf(),
                self.run_flight@.len() == 0,
                self.turn_stream == old(self).turn_stream,
                self.answers == old(self).answers,
                start == old(self).runs@,
                n == start.len(),
                self.runs@.len() == n,
                i <= n,
                streams(out@) == resumable(start.subrange(0, i as int)),
                forall|k: int| 0 <= k < out@.len() ==> opt_view(#[trigger] out@[k].resume) == resume_for(start, out@[k].stream@),
                unique_keys(start),
                forall|j: int| i <= j < n ==> #[trigger] self.runs@[j] == start[j],
                forall|j: int| 0 <= j < i ==> {
                    let o = #[trigger] start[j];
                    let l = self.runs@[j];
                    &&& l.0@ == o.0@
                    &&& l.1.transcript@ == o.1.transcript@
                    &&& (o.1.lost && o.1.terminal is None && o.1.stop is None) ==> l.1.stop is Some && !l.1.lost
                    &&& !(o.1.lost && o.1.terminal is None && o.1.stop is None) ==> l == o
                },
            decreases n - i,
        {
            let resume = self.runs[i].1.lost && self.runs[i].1.terminal.is_none() && !self.runs[i].1.streaming();
            proof {
                assert(start.subrange(0, i + 1).drop_last() =~= start.subrange(0, i as int));
            }
            if resume {
                let key = self.runs[i].0.clone();
                let ghost mid = self.runs@;
                proof {
                    assert(mid[i as int].0@ == key@);
                    assert(has_key(mid, key@));
                }
                let w = self.watch(key.as_str(), true);
                proof {
                    assert forall|j: int| 0 <= j < n && j != i implies #[trigger] self.runs@[j] == mid[j] by {
                        assert(mid[j].0@ != mid[i as int].0@ || j == i) by {
                            if j < i {
                                assert(mid[j].0@ != mid[i as int].0@);
                            } else if j > i {
                                assert(mid[i as int].0@ != mid[j].0@);
                            }
                        }
                    }
                    assert(self.runs@[i as int].0@ == key@);
                }
                match w {
                    Some(w) => {
                        let ghost before = out@;
                        proof {
                            assert forall|j: int| 0 <= j < mid.len() implies #[trigger] mid[j].0@ == start[j].0@ && mid[j].1.transcript@ == start[j].1.transcript@ by {
                                if j >= i {
                                    assert(mid[j] == start[j]);
                                }
                            }
                            lemma_resume_same(mid, start, key@);
                        }
                        out.push(w);
                        proof {
                            assert(streams(out@) =~= streams(before).push(key@));
                            assert forall|k: int| 0 <= k < out@.len() implies opt_view(#[trigger] out@[k].resume) == resume_for(start, out@[k].stream@) by {
                                if k < before.len() {
                                    assert(out@[k] == before[k]);
                                }
                            }
                        }
                    },
                    None => {
                        // a resumable card is online and idle, so `watch` opens it
                        proof {
                            assert(false);
                        }
                    },
                }
            }
            i = i + 1;
        }
        proof {
            assert(start.subrange(0, n as int) =~= start);
        }
        out
    }

    /// The stream a turn's run box lives under.
    pub fn stream_of(&self, turn_id: &str, run_id: Option<&str>) -> (r: Option<String>)
        requires
            self.wf(),
        ensures
            opt_view(r) == stream_for(self.turn_stream@, turn_id@, match run_id {
                Some(x) => Some(x@),
                None => None,
            }),
    {
        match run_id {
            Some(x) => Some(String::from_str(x)),
            None => match find_key(&self.turn_stream, turn_id) {
                Some(j) => {
                    proof {
                        lemma_key_index(self.turn_stream@, turn_id@, j as int);
                    }
                    Some(self.turn_stream[j].1.clone())
                },
                None => None,
            },
        }
    }

    /// The live card of a turn: under its run id, else under the stream
    /// recorded for the turn.
    pub fn live_of(&self, turn_id: &str, run_id: Option<&str>) -> (r: Option<&Live>)
        requires
            self.wf(),
        ensures
            match r {
                Some(l) => card_for(self.runs@, self.turn_stream@, turn_id@, match run_id {
                    Some(x) => Some(x@),
                    None => None,
                }) == Some(*l),
                None => card_for(self.runs@, self.turn_stream@, turn_id@, match run_id {
                    Some(x) => Some(x@),
                    None => None,
                }) is None,
            },
    {
        match run_id {
            Some(x) => match find_key(&self.runs, x) {
                Some(i) => {
                    proof {
                        lemma_key_index(self.runs@, x@, i as int);
                    }
                    return Some(&self.runs[i].1);
                },
                None => {},
            },
            None => {},
        }
        match find_key(&self.turn_stream, turn_id) {
            Some(j) => {
                proof {
                    lemma_key_index(self.turn_stream@, turn_id@, j as int);
                }
                match find_key(&self.runs, self.turn_stream[j].1.as_str()) {
                    Some(i) => {
                        proof {
                            lemma_key_index(self.runs@, self.turn_stream@[j as int].1@, i as int);
                        }
                        Some(&self.runs[i].1)
                    },
                    None => None,
                }
            },
            None => None,
        }
    }

    /// The stream of a thread's head turn while it is live (see
    /// `head_is_live`): what a stop request names.
    pub fn head_stream(&self, turn: &TurnCard) -> (r: Option<String>)
        requires
            self.wf(),
        ensures
            opt_view(r) == (if head_is_live(opt_view(turn.run_state), match card_for(self.runs@, self.turn_stream@, turn.id@, opt_view(turn.run_id)) {
                Some(l) => Some(l.terminal is Some),
                None => None,
            }) {
                card_stream(self.turn_stream@, *turn)
            } else {
                None
            }),
    {
        let rid: Option<&str> = match &turn.run_id {
            Some(x) => Some(x.as_str()),
            None => None,
        };
        let st: Option<&str> = match &turn.run_state {
            Some(x) => Some(x.as_str()),
            None => None,
        };
        let live = self.live_of(turn.id.as_str(), rid);
        proof {
            assert(opt_view(turn.run_id) == match rid {
                Some(x) => Some(x@),
                None => None,
            });
        }
        if head_active(st, live) {
            self.stream_of(turn.id.as_str(), rid)
        } else {
            None
        }
    }

    /// A turn was started: its stream (the run id, or the job id while
    /// queued) is recorded for the turn and watched.
    pub fn on_turn_started(&mut self, started: &crate::model::TurnStarted, online: bool) -> (w: Option<Watch>)
        requires
            old(self).wf(),
        ensures
            final(self).wf(),
            final(self).run_flight == old(self).run_flight,
            final(self).answers == old(self).answers,
            (started.run_id is None && started.job_id is None) ==> w is None && final(self).runs == old(self).runs
                && final(self).turn_stream == old(self).turn_stream,
            w is Some <==> online && started_stream(*started) is Some && !streaming_in(old(self).runs@, started_stream(*started).unwrap()),
            w matches Some(x) ==> Some(x.stream@) == started_stream(*started) && opt_view(x.resume) == resume_for(
                old(self).runs@,
                started_stream(*started).unwrap(),
            ),
            w is Some ==> card_opened(old(self).runs@, final(self).runs@, started_stream(*started).unwrap()),
            forall|i: int| 0 <= i < old(self).runs@.len() && Some(old(self).runs@[i].0@) != started_stream(*started) ==> #[trigger] final(self).runs@[i] == old(self).runs@[i],
            started.turn_id matches Some(t) ==> (started.run_id is Some || started.job_id is Some) ==> {
                &&& final(self).turn_stream@.drop_last() == without(old(self).turn_stream@, t@)
                &&& final(self).turn_stream@.last().0@ == t@
                &&& opt_view(Some(final(self).turn_stream@.last().1)) == (if started.run_id is Some { opt_view(started.run_id) } else { opt_view(started.job_id) })
            },
            (started.turn_id is None) ==> final(self).turn_stream == old(self).turn_stream,
    {
        let sid = match started.stream_id() {
            Some(s) => s,
            None => return None,
        };
        match &started.turn_id {
            Some(t) => set_entry(&mut self.turn_stream, t.as_str(), String::from_str(sid)),
            None => {},
        }
        self.watch(sid, online)
    }

    /// Replay a finished run's full log into its card: when it has no card,
    /// or an empty one with no stream running.
    pub fn ensure_replay(&mut self, rid: &str, online: bool) -> (w: Option<Watch>)
        requires
            old(self).wf(),
        ensures
            final(self).wf(),
            final(self).turn_stream == old(self).turn_stream,
            final(self).run_flight == old(self).run_flight,
            final(self).answers == old(self).answers,
            w is Some <==> online && (!has_key(old(self).runs@, rid@) || exists|i: int| 0 <= i < old(self).runs@.len()
                && #[trigger] old(self).runs@[i].0@ == rid@ && old(self).runs@[i].1.transcript@.last_seq == 0
                && old(self).runs@[i].1.stop is None),
            w is None ==> final(self).runs == old(self).runs,
            w matches Some(x) ==> x.stream@ == rid@ && opt_view(x.resume) == resume_for(old(self).runs@, rid@),
            w is Some ==> card_opened(old(self).runs@, final(self).runs@, rid@),
            forall|i: int| 0 <= i < old(self).runs@.len() && old(self).runs@[i].0@ != rid@ ==> #[trigger] final(self).runs@[i] == old(self).runs@[i],
    {
        let needs = match find_key(&self.runs, rid) {
            Some(i) => self.runs[i].1.transcript.cursor() == 0 && !self.runs[i].1.streaming(),
            None => true,
        };
        proof {
            if exists|i: int| 0 <= i < self.runs@.len() && #[trigger] self.runs@[i].0@ == rid@ && self.runs@[i].1.transcript@.last_seq == 0
                && self.runs@[i].1.stop is None {
                let i = choose|i: int| 0 <= i < self.runs@.len() && #[trigger] self.runs@[i].0@ == rid@ && self.runs@[i].1.transcript@.last_seq == 0
                    && self.runs@[i].1.stop is None;
                lemma_key_index(self.runs@, rid@, i);
            }
            if has_key(self.runs@, rid@) {
                let i = choose|i: int| 0 <= i < self.runs@.len() && #[trigger] self.runs@[i].0@ == rid@;
                lemma_key_index(self.runs@, rid@, i);
            }
        }
        if !needs {
            return None;
        }
        self.watch(rid, online)
    }

    /// Take a fresh thread detail: open a stream for each queued or running
    /// turn whose card is neither streaming nor knows its run ended, and
    /// fetch each run that waits on the user when its questions are not
    /// loaded yet and no fetch of it is in flight. Returns exactly the
    /// streams this call opened (each once) and the runs whose fetch it
    /// started (each once).
    pub fn adopt(&mut self, turns: &[TurnCard], online: bool) -> (r: (Vec<Watch>, Vec<String>))
        requires
            old(self).wf(),
        ensures
            final(self).wf(),
            final(self).turn_stream == old(self).turn_stream,
            final(self).answers == old(self).answers,
            forall|x: Seq<char>| opened(r.0@, x) == (online && stream_of_active(turns@, old(self).turn_stream@, x) && !watched(old(self).runs@, x)),
            forall|a: int, b: int| 0 <= a < b < r.0@.len() ==> #[trigger] r.0@[a].stream@ != #[trigger] r.0@[b].stream@,
            forall|k: int| 0 <= k < r.0@.len() ==> opt_view(#[trigger] r.0@[k].resume) == resume_for(old(self).runs@, r.0@[k].stream@),
            forall|x: Seq<char>| has_text(r.1@, x) == (run_of_waiting(turns@, x) && !has_text(old(self).run_flight@, x)),
            unique_texts(r.1@),
            forall|x: Seq<char>| has_text(final(self).run_flight@, x) == (has_text(old(self).run_flight@, x) || run_of_waiting(turns@, x)),
            forall|j: int| 0 <= j < turns@.len() && online && active_card(#[trigger] turns@[j]) && card_stream(old(self).turn_stream@, turns@[j]) is Some
                ==> watched(final(self).runs@, card_stream(old(self).turn_stream@, turns@[j]).unwrap()),
    {
        let ghost runs0 = self.runs@;
        let ghost flight0 = self.run_flight@;
        let ghost aliases = self.turn_stream@;
        let mut watches: Vec<Watch> = Vec::new();
        let mut loads: Vec<String> = Vec::new();
        let mut i: usize = 0;
        proof {
            assert(turns@.subrange(0, 0) =~= Seq::<TurnCard>::empty());
        }
        while i < turns.len()
            invariant
                self.wf(),
                runs0 == old(self).runs@,
                unique_keys(runs0),
                flight0 == old(self).run_flight@,
                forall|j: int| 0 <= j < runs0.len() ==> #[trigger] self.runs@[j].0@ == runs0[j].0@,
                aliases == old(self).turn_stream@,
                self.turn_stream == old(self).turn_stream,
                self.answers == old(self).answers,
                i <= turns@.len(),
                // the cards this call did not open are as they were
                self.runs@.len() >= runs0.len(),
                forall|j: int| 0 <= j < runs0.len() && !opened(watches@, runs0[j].0@) ==> #[trigger] self.runs@[j] == runs0[j],
                forall|j: int| runs0.len() <= j < self.runs@.len() ==> opened(watches@, #[trigger] self.runs@[j].0@),
                forall|x: Seq<char>| opened(watches@, x) ==> watched(self.runs@, x),
                forall|x: Seq<char>| #[trigger] opened(watches@, x) == (online && stream_of_active(turns@.subrange(0, i as int), aliases, x) && !watched(runs0, x)),
                forall|a: int, b: int| 0 <= a < b < watches@.len() ==> #[trigger] watches@[a].stream@ != #[trigger] watches@[b].stream@,
                forall|k: int| 0 <= k < watches@.len() ==> opt_view(#[trigger] watches@[k].resume) == resume_for(runs0, watches@[k].stream@),
                forall|x: Seq<char>| online && #[trigger] stream_of_active(turns@.subrange(0, i as int), aliases, x) ==> watched(self.runs@, x),
                forall|x: Seq<char>| #[trigger] has_text(loads@, x) == (run_of_waiting(turns@.subrange(0, i as int), x) && !has_text(flight0, x)),
                unique_texts(loads@),
                forall|x: Seq<char>| #[trigger] has_text(self.run_flight@, x) == (has_text(flight0, x) || run_of_waiting(turns@.subrange(0, i as int), x)),
            decreases turns@.len() - i,
        {
            let t = &turns[i];
            let ghost pre = turns@.subrange(0, i as int);
            let ghost post = turns@.subrange(0, i + 1);
            proof {
                assert(post =~= pre.push(turns@[i as int]));
                lemma_prefix_step(pre, post, turns@[i as int], aliases);
            }
            let rid: Option<&str> = match &t.run_id {
                Some(x) => Some(x.as_str()),
                None => None,
            };
            let active = match &t.run_state {
                Some(st) => same_text(st.as_str(), "queued") || same_text(st.as_str(), "running"),
                None => false,
            };
            let sid = if active {
                self.stream_of(t.id.as_str(), rid)
            } else {
                None
            };
            proof {
                assert(opt_view(t.run_id) == match rid {
                    Some(x) => Some(x@),
                    None => None,
                });
                assert(active == active_card(turns@[i as int]));
                assert(opt_view(sid) == (if active { card_stream(aliases, turns@[i as int]) } else { None }));
            }
            match sid {
                Some(sid) => {
                    let ghost cur = self.runs@;
                    let ghost ws = watches@;
                    proof {
                        if !opened(ws, sid@) {
                            lemma_card_as_before(runs0, cur, ws, sid@);
                        }
                    }
                    let known = match find_key(&self.runs, sid.as_str()) {
                        Some(j) => {
                            proof {
                                if watched(cur, sid@) {
                                    let q = choose|q: int| 0 <= q < cur.len() && #[trigger] cur[q].0@ == sid@ && (cur[q].1.stop is Some || cur[q].1.terminal is Some);
                                    if q != j {
                                        if q < j {
                                            assert(cur[q].0@ != cur[j as int].0@);
                                        } else {
                                            assert(cur[j as int].0@ != cur[q].0@);
                                        }
                                    }
                                }
                            }
                            self.runs[j].1.terminal.is_some()
                        },
                        None => false,
                    };
                    proof {
                        assert(known ==> watched(cur, sid@));
                        assert(watched(cur, sid@) ==> known || streaming_in(cur, sid@));
                        assert(streaming_in(cur, sid@) ==> watched(cur, sid@));
                        if opened(ws, sid@) {
                            assert(watched(cur, sid@));
                        }
                    }
                    if !known {
                        let w = self.watch(sid.as_str(), online);
                        proof {
                            assert forall|j: int| 0 <= j < cur.len() && cur[j].0@ != sid@ implies #[trigger] self.runs@[j] == cur[j] by {}
                            assert forall|x: Seq<char>| x != sid@ && watched(cur, x) implies watched(self.runs@, x) by {
                                let q = choose|q: int| 0 <= q < cur.len() && #[trigger] cur[q].0@ == x && (cur[q].1.stop is Some || cur[q].1.terminal is Some);
                                assert(self.runs@[q] == cur[q]);
                            }
                            if online {
                                let q = choose|q: int| 0 <= q < self.runs@.len() && #[trigger] self.runs@[q].0@ == sid@;
                                assert(self.runs@[q].1.stop is Some);
                                assert(watched(self.runs@, sid@));
                            }

                        }
                        match w {
                            Some(w) => {
                                watches.push(w);
                                proof {
                                    assert(watches@ =~= ws.push(watches@[ws.len() as int]));
                                    lemma_opened_push(ws, watches@[ws.len() as int]);
                                    assert(!opened(ws, sid@));
                                    assert(online && !watched(runs0, sid@));
                                    assert forall|x: Seq<char>| #[trigger] opened(watches@, x) == (online && stream_of_active(post, aliases, x) && !watched(runs0, x)) by {
                                        assert(opened(watches@, x) == (opened(ws, x) || x == sid@));
                                        assert(opened(ws, x) == (online && stream_of_active(pre, aliases, x) && !watched(runs0, x)));
                                        assert(stream_of_active(post, aliases, x) == (stream_of_active(pre, aliases, x) || x == sid@));
                                    }
                                    assert forall|j: int| 0 <= j < runs0.len() && !opened(watches@, runs0[j].0@) implies #[trigger] self.runs@[j] == runs0[j] by {
                                        assert(!opened(ws, runs0[j].0@));
                                        assert(cur[j] == runs0[j]);
                                    }
                                    assert forall|j: int| runs0.len() <= j < self.runs@.len() implies opened(watches@, #[trigger] self.runs@[j].0@) by {
                                        if j < cur.len() {
                                            assert(self.runs@[j].0@ == cur[j].0@ || self.runs@[j].0@ == sid@);
                                            if cur[j].0@ != sid@ {
                                                assert(self.runs@[j] == cur[j]);
                                                assert(opened(ws, cur[j].0@));
                                            }
                                        } else {
                                            assert(self.runs@[j].0@ == sid@) by {
                                                lemma_new_entry_key(cur, self.runs@, sid@, j);
                                            }
                                        }
                                    }
                                    assert forall|x: Seq<char>| opened(watches@, x) implies watched(self.runs@, x) by {
                                        if x != sid@ {
                                            assert(opened(ws, x));
                                        }
                                    }
                                    assert forall|a: int, b: int| 0 <= a < b < watches@.len() implies #[trigger] watches@[a].stream@ != #[trigger] watches@[b].stream@ by {
                                        if b == ws.len() {
                                            assert(watches@[a] == ws[a]);
                                            if ws[a].stream@ == sid@ {
                                                assert(opened(ws, sid@));
                                            }
                                        } else {
                                            assert(watches@[a] == ws[a] && watches@[b] == ws[b]);
                                        }
                                    }
                                    assert forall|k: int| 0 <= k < watches@.len() implies opt_view(#[trigger] watches@[k].resume) == resume_for(runs0, watches@[k].stream@) by {
                                        if k < ws.len() {
                                            assert(watches@[k] == ws[k]);
                                        }
                                    }
                                }
                            },
                            None => {
                                proof {
                                    assert forall|j: int| runs0.len() <= j < self.runs@.len() implies opened(watches@, #[trigger] self.runs@[j].0@) by {
                                        assert(self.runs@[j] == cur[j]);
                                    }
                                    assert(!online || streaming_in(cur, sid@));
                                    assert(watches@ == ws);
                                    assert forall|x: Seq<char>| #[trigger] opened(watches@, x) == (online && stream_of_active(post, aliases, x) && !watched(runs0, x)) by {
                                        assert(opened(ws, x) == (online && stream_of_active(pre, aliases, x) && !watched(runs0, x)));
                                        assert(stream_of_active(post, aliases, x) == (stream_of_active(pre, aliases, x) || x == sid@));
                                        if x == sid@ && !opened(ws, x) {
                                            assert(!online || watched(cur, sid@));
                                            assert(watched(cur, sid@) == watched(runs0, sid@));
                                        }
                                    }
                                }
                            },
                        }
                    } else {
                        proof {
                            assert forall|x: Seq<char>| #[trigger] opened(watches@, x) == (online && stream_of_active(post, aliases, x) && !watched(runs0, x)) by {
                                if x == sid@ && !opened(ws, x) {
                                    assert(watched(cur, sid@));
                                }
                            }
                        }
                    }
                },
                None => {
                    proof {
                        assert forall|x: Seq<char>| #[trigger] opened(watches@, x) == (online && stream_of_active(post, aliases, x) && !watched(runs0, x)) by {}
                    }
                },
            }
            let ghost loads0 = loads@;
            let ghost fl0 = self.run_flight@;
            let waiting = match t.waiting_on_user {
                Some(b) => b,
                None => false,
            };
            if active || t.run_state.is_some() {
                if waiting && !t.has_pending {
                    match &t.run_id {
                        Some(x) => {
                            let ghost before = loads@;
                            let ghost fl = self.run_flight@;
                            let go = self.load_run(x.as_str(), false);
                            if go {
                                loads.push(x.clone());
                                proof {
                                    assert forall|a: int, b: int| 0 <= a < b < loads@.len() implies #[trigger] loads@[a]@ != #[trigger] loads@[b]@ by {
                                        if b == before.len() {
                                            assert(loads@[a] == before[a]);
                                            if before[a]@ == x@ {
                                                assert(has_text(before, x@));
                                                assert(has_text(fl, x@));
                                            }
                                        } else {
                                            assert(loads@[a] == before[a] && loads@[b] == before[b]);
                                        }
                                    }
                                    assert forall|y: Seq<char>| #[trigger] has_text(loads@, y) == (has_text(before, y) || y == x@) by {
                                        if has_text(before, y) {
                                            let q = choose|q: int| 0 <= q < before.len() && #[trigger] before[q]@ == y;
                                            assert(loads@[q] == before[q]);
                                        }
                                        if y == x@ {
                                            assert(loads@[before.len() as int]@ == x@);
                                        }
                                        if has_text(loads@, y) {
                                            let q = choose|q: int| 0 <= q < loads@.len() && #[trigger] loads@[q]@ == y;
                                            if q < before.len() {
                                                assert(loads@[q] == before[q]);
                                            }
                                        }
                                    }
                                }
                            }
                        },
                        None => {},
                    }
                }
            }
            proof {
                let tt = turns@[i as int];
                if needs_questions(tt) {
                    assert(forall|y: Seq<char>| #[trigger] has_text(self.run_flight@, y) == (has_text(fl0, y) || y == tt.run_id.unwrap()@));
                    if has_text(fl0, tt.run_id.unwrap()@) {
                        assert(loads@ == loads0);
                    }
                    assert(forall|y: Seq<char>| #[trigger] has_text(loads@, y) == (has_text(loads0, y) || (y == tt.run_id.unwrap()@ && !has_text(fl0, y))));
                } else {
                    assert(loads@ == loads0 && self.run_flight@ == fl0);
                }
                assert(forall|x: Seq<char>| #[trigger] opened(watches@, x) == (online && stream_of_active(post, aliases, x) && !watched(runs0, x)));
                assert forall|y: Seq<char>| #[trigger] has_text(loads@, y) == (run_of_waiting(post, y) && !has_text(flight0, y)) by {
                    assert(has_text(loads0, y) == (run_of_waiting(pre, y) && !has_text(flight0, y)));
                    assert(has_text(fl0, y) == (has_text(flight0, y) || run_of_waiting(pre, y)));
                }
                assert forall|y: Seq<char>| #[trigger] has_text(self.run_flight@, y) == (has_text(flight0, y) || run_of_waiting(post, y)) by {
                    assert(has_text(fl0, y) == (has_text(flight0, y) || run_of_waiting(pre, y)));
                }
            }
            i = i + 1;
        }
        proof {
            assert(turns@.subrange(0, turns@.len() as int) =~= turns@);
            assert forall|j: int| 0 <= j < turns@.len() && online && active_card(#[trigger] turns@[j]) && card_stream(aliases, turns@[j]) is Some
                implies watched(self.runs@, card_stream(aliases, turns@[j]).unwrap()) by {
                assert(stream_of_active(turns@, aliases, card_stream(aliases, turns@[j]).unwrap()));
            }
        }
        (watches, loads)
    }

    /// A run fetch finished: the run leaves the in-flight set.
    pub fn on_run(&mut self, rid: &str)
        requires
            old(self).wf(),
        ensures
            final(self).wf(),
            final(self).runs == old(self).runs,
            final(self).turn_stream == old(self).turn_stream,
            final(self).answers == old(self).answers,
            forall|x: Seq<char>| has_text(final(self).run_flight@, x) == (has_text(old(self).run_flight@, x) && x != rid@),
    {
        drop_text(&mut self.run_flight, rid);
    }

    /// An answer fetch finished: the run's answer state is what it found.
    pub fn on_answer(&mut self, rid: &str, r: Result<Option<String>, ApiError>)
        requires
            old(self).wf(),
        ensures
            final(self).wf(),
            final(self).runs == old(self).runs,
            final(self).turn_stream == old(self).turn_stream,
            final(self).run_flight == old(self).run_flight,
            final(self).answers@.drop_last() == without(old(self).answers@, rid@),
            final(self).answers@.last().0@ == rid@,
            match r {
                Ok(Some(t)) => final(self).answers@.last().1 matches AnswerState::Ready(x) && x@ == t@,
                Ok(None) => final(self).answers@.last().1 is Absent,
                Err(e) => final(self).answers@.last().1 matches AnswerState::Failed(x) && x@ == crate::api::api_error_text(e),
            },
    {
        let a = answer_state(r);
        set_entry(&mut self.answers, rid, a);
    }

    /// Ask for a run's answer once: a fetch with the answer, unless the run
    /// already has an answer state. True when the fetch is to be made.
    pub fn ensure_answer(&mut self, rid: &str) -> (r: bool)
        requires
            old(self).wf(),
        ensures
            final(self).wf(),
            final(self).runs == old(self).runs,
            has_key(old(self).answers@, rid@) ==> !r && final(self).run_flight == old(self).run_flight
                && final(self).answers == old(self).answers,
            !has_key(old(self).answers@, rid@) ==> r == !has_text(old(self).run_flight@, rid@)
                && (r ==> has_key(final(self).answers@, rid@)),
    {
        if find_key(&self.answers, rid).is_some() {
            return false;
        }
        let r = self.load_run(rid, true);
        proof {
            if r {
                assert(self.answers@[self.answers@.len() - 1].0@ == rid@);
            }
        }
        r
    }
}

} // verus!
