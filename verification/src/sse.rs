//! Byte-level Server-Sent Events parser (WHATWG EventSource field rules).
//!
//! Works on raw bytes so blank delimiter lines are never lost, trims a trailing
//! `\r` (CRLF servers), joins multi-line `data:`, ignores `:` comments and
//! heartbeats, and remembers the last `id:` for `Last-Event-ID` resume.
use crate::text::{first_index, lemma_first_index, lemma_first_index_at, lemma_first_index_none, lemma_first_index_append, text_of, lossy_string};
use vstd::prelude::*;
use vstd::string::StrSliceExecFns;

verus! {

#[derive(Debug, Clone, PartialEq, Eq)]
pub struct Frame {
    pub id: Option<String>,
    pub event: String,
    pub data: String,
}

/// A frame as characters.
pub struct FrameView {
    pub id: Option<Seq<char>>,
    pub event: Seq<char>,
    pub data: Seq<char>,
}

pub open spec fn opt_chars(o: Option<String>) -> Option<Seq<char>> {
    match o {
        Some(s) => Some(s@),
        None => None,
    }
}

impl View for Frame {
    type V = FrameView;

    open spec fn view(&self) -> FrameView {
        FrameView { id: opt_chars(self.id), event: self.event@, data: self.data@ }
    }
}

pub open spec fn frames_view(v: Seq<Frame>) -> Seq<FrameView> {
    v.map_values(|f: Frame| f@)
}

/// The parser between two calls: the unterminated tail of the input, the
/// `data` lines of the frame being built, its `event` and `id`, and the
/// resume cursor.
pub struct ParserState {
    pub pending: Seq<u8>,
    pub data: Seq<Seq<char>>,
    pub event: Option<Seq<char>>,
    pub frame_id: Option<Seq<char>>,
    pub last_id: Option<Seq<char>>,
}

pub struct Parser {
    buf: Vec<u8>,
    data_lines: Vec<String>,
    event: Option<String>,
    frame_id: Option<String>,
    last_id: Option<String>,
}

impl View for Parser {
    type V = ParserState;

    closed spec fn view(&self) -> ParserState {
        ParserState {
            pending: self.buf@,
            data: self.data_lines@.map_values(|s: String| s@),
            event: opt_chars(self.event),
            frame_id: opt_chars(self.frame_id),
            last_id: opt_chars(self.last_id),
        }
    }
}

/// The name "message", the event of a frame without `event:`.
pub open spec fn message_event() -> Seq<char> {
    seq!['m', 'e', 's', 's', 'a', 'g', 'e']
}

/// Lines joined with `\n` between them.
pub open spec fn join_lines(lines: Seq<Seq<char>>) -> Seq<char>
    decreases lines.len(),
{
    if lines.len() == 0 {
        seq![]
    } else if lines.len() == 1 {
        lines[0]
    } else {
        join_lines(lines.drop_last()) + seq!['\n'] + lines.last()
    }
}

/// A line without its trailing `\r`, if it had one.
pub open spec fn strip_cr(line: Seq<u8>) -> Seq<u8> {
    if line.len() > 0 && line.last() == 13u8 {
        line.drop_last()
    } else {
        line
    }
}

/// A field line split at its first `:`; one leading space of the value is
/// dropped. A line without `:` is a field name with an empty value.
pub open spec fn split_field(line: Seq<u8>) -> (Seq<u8>, Seq<u8>) {
    let i = first_index(line, 58u8);
    if i < 0 {
        (line, seq![])
    } else {
        let v = line.subrange(i + 1, line.len() as int);
        (line.subrange(0, i), if v.len() > 0 && v[0] == 32u8 {
            v.drop_first()
        } else {
            v
        })
    }
}

pub open spec fn field_id() -> Seq<u8> {
    seq![105u8, 100u8]
}

pub open spec fn field_event() -> Seq<u8> {
    seq![101u8, 118u8, 101u8, 110u8, 116u8]
}

pub open spec fn field_data() -> Seq<u8> {
    seq![100u8, 97u8, 116u8, 97u8]
}

/// One complete line: a blank line dispatches the frame being built (none
/// when it has no data; named "message" when no `event:` gave it a
/// non-empty name), a `:` line is a comment, and `id`, `event` and `data`
/// fields fill the frame; other fields (and `retry`) are ignored. An `id`
/// holding NUL is ignored too. Field values are read as text: ASCII byte for
/// character, anything else as `from_utf8_lossy` reads it.
pub open spec fn step_line(st: ParserState, line: Seq<u8>) -> (ParserState, Option<FrameView>) {
    if line.len() == 0 {
        let event = match st.event {
            Some(e) => if e.len() > 0 {
                e
            } else {
                message_event()
            },
            None => message_event(),
        };
        let id = match st.frame_id {
            Some(i) => Some(i),
            None => st.last_id,
        };
        if st.data.len() == 0 {
            (ParserState { event: None, frame_id: None, ..st }, None)
        } else {
            (
                ParserState { data: seq![], event: None, frame_id: None, ..st },
                Some(FrameView { id, event, data: join_lines(st.data) }),
            )
        }
    } else if line[0] == 58u8 {
        (st, None)
    } else {
        let (field, value) = split_field(line);
        if field == field_id() && !value.contains(0u8) {
            (
                ParserState {
                    frame_id: Some(text_of(value)),
                    last_id: Some(text_of(value)),
                    ..st
                },
                None,
            )
        } else if field == field_event() {
            (ParserState { event: Some(text_of(value)), ..st }, None)
        } else if field == field_data() {
            (ParserState { data: st.data.push(text_of(value)), ..st }, None)
        } else {
            (st, None)
        }
    }
}

pub open spec fn opt_seq<A>(o: Option<A>) -> Seq<A> {
    match o {
        Some(a) => seq![a],
        None => seq![],
    }
}

/// Run every complete line of `bytes` through `step_line`; what follows the
/// last `\n` becomes the pending tail.
pub open spec fn run(st: ParserState, bytes: Seq<u8>) -> (ParserState, Seq<FrameView>)
    decreases bytes.len(),
{
    let p = first_index(bytes, 10u8);
    if p < 0 || p >= bytes.len() {
        (ParserState { pending: bytes, ..st }, seq![])
    } else {
        let (st1, f) = step_line(st, strip_cr(bytes.subrange(0, p)));
        let (st2, fs) = run(st1, bytes.subrange(p + 1, bytes.len() as int));
        (st2, opt_seq(f) + fs)
    }
}

/// Feeding a chunk continues the pending tail with it.
pub open spec fn feed_spec(st: ParserState, chunk: Seq<u8>) -> (ParserState, Seq<FrameView>) {
    run(st, st.pending + chunk)
}

pub open spec fn fresh_state(last_id: Option<Seq<char>>) -> ParserState {
    ParserState { pending: seq![], data: seq![], event: None, frame_id: None, last_id }
}

impl Parser {
    /// A parser that has seen nothing yet.
    pub fn new() -> (p: Parser)
        ensures
            p@ == fresh_state(None),
    {
        let p = Parser { buf: Vec::new(), data_lines: Vec::new(), event: None, frame_id: None, last_id: None };
        proof {
            assert(p@.data =~= Seq::<Seq<char>>::empty());
        }
        p
    }

    /// A parser that resumes after `id` (sent as `Last-Event-ID` on open).
    pub fn resume(id: Option<String>) -> (p: Parser)
        ensures
            p@ == fresh_state(opt_chars(id)),
    {
        let p = Parser { buf: Vec::new(), data_lines: Vec::new(), event: None, frame_id: None, last_id: id };
        proof {
            assert(p@.data =~= Seq::<Seq<char>>::empty());
        }
        p
    }

    /// Last `id:` seen on the stream, for `Last-Event-ID` on reconnect.
    pub fn last_id(&self) -> (r: Option<&str>)
        ensures
            match r {
                Some(s) => self@.last_id == Some(s@),
                None => self@.last_id.is_none(),
            },
    {
        match &self.last_id {
            Some(s) => Some(s.as_str()),
            None => None,
        }
    }
}

/// The data lines joined with `\n`.
fn join_data(lines: &Vec<String>) -> (s: String)
    ensures
        s@ == join_lines(lines@.map_values(|l: String| l@)),
{
    let ghost views = lines@.map_values(|l: String| l@);
    let mut s = String::new();
    let mut i: usize = 0;
    while i < lines.len()
        invariant
            i <= lines.len(),
            views == lines@.map_values(|l: String| l@),
            s@ == join_lines(views.subrange(0, i as int)),
        decreases lines.len() - i,
    {
        if i > 0 {
            s.append("\n");
            proof {
                reveal_strlit("\n");
            }
        }
        s.append(lines[i].as_str());
        proof {
            let pre = views.subrange(0, i as int);
            let post = views.subrange(0, i as int + 1);
            assert(post.drop_last() =~= pre);
            assert(post.last() == lines@[i as int]@);
            if i == 0 {
                assert(pre.len() == 0);
            }
        }
        i = i + 1;
    }
    proof {
        assert(views.subrange(0, lines.len() as int) =~= views);
    }
    s
}

/// The index of the first `b` in `s`, or `s.len()` when there is none.
fn find_byte(s: &[u8], from: usize, b: u8) -> (i: usize)
    requires
        from <= s@.len(),
    ensures
        from <= i <= s@.len(),
        i < s@.len() ==> s@[i as int] == b,
        forall|k: int| from <= k < i ==> s@[k] != b,
{
    let mut i = from;
    while i < s.len()
        invariant
            from <= i <= s@.len(),
            forall|k: int| from <= k < i ==> s@[k] != b,
        decreases s@.len() - i,
    {
        if s[i] == b {
            return i;
        }
        i = i + 1;
    }
    i
}

fn is_id(f: &[u8]) -> (r: bool)
    ensures
        r == (f@ == field_id()),
{
    let r = f.len() == 2 && f[0] == 105u8 && f[1] == 100u8;
    proof {
        if r {
            assert(f@ =~= field_id());
        }
    }
    r
}

fn is_event(f: &[u8]) -> (r: bool)
    ensures
        r == (f@ == field_event()),
{
    let r = f.len() == 5 && f[0] == 101u8 && f[1] == 118u8 && f[2] == 101u8 && f[3] == 110u8 && f[4] == 116u8;
    proof {
        if r {
            assert(f@ =~= field_event());
        }
    }
    r
}

fn is_data(f: &[u8]) -> (r: bool)
    ensures
        r == (f@ == field_data()),
{
    let r = f.len() == 4 && f[0] == 100u8 && f[1] == 97u8 && f[2] == 116u8 && f[3] == 97u8;
    proof {
        if r {
            assert(f@ =~= field_data());
        }
    }
    r
}

/// `run` reads the parser state but not its pending tail.
pub proof fn lemma_run_ignores_pending(st: ParserState, x: Seq<u8>, bytes: Seq<u8>)
    ensures
        run(st, bytes) == run(ParserState { pending: x, ..st }, bytes),
    decreases bytes.len(),
{
    let st2 = ParserState { pending: x, ..st };
    let p = first_index(bytes, 10u8);
    lemma_first_index(bytes, 10u8);
    if p >= 0 && p < bytes.len() {
        let line = strip_cr(bytes.subrange(0, p));
        let (a, fa) = step_line(st, line);
        let (b, fb) = step_line(st2, line);
        assert(b == ParserState { pending: x, ..a });
        assert(fa == fb);
        lemma_run_ignores_pending(a, x, bytes.subrange(p + 1, bytes.len() as int));
    }
}

impl Parser {
    /// Feed a chunk; returns every frame the chunk completed.
    pub fn feed(&mut self, chunk: &[u8]) -> (out: Vec<Frame>)
        ensures
            (final(self)@, frames_view(out@)) == feed_spec(old(self)@, chunk@),
            settled(final(self)@),
    {
        proof {
            lemma_run_settles(old(self)@, old(self)@.pending + chunk@);
        }
        let mut all: Vec<u8> = Vec::new();
        std::mem::swap(&mut all, &mut self.buf);
        let mut k: usize = 0;
        while k < chunk.len()
            invariant
                k <= chunk@.len(),
                all@ == old(self)@.pending + chunk@.subrange(0, k as int),
            decreases chunk@.len() - k,
        {
            all.push(chunk[k]);
            proof {
                assert(chunk@.subrange(0, k as int + 1) =~= chunk@.subrange(0, k as int).push(chunk@[k as int]));
            }
            k = k + 1;
        }
        proof {
            assert(chunk@.subrange(0, chunk@.len() as int) =~= chunk@);
            lemma_run_ignores_pending(old(self)@, seq![], all@);
            assert(self@ == ParserState { pending: seq![], ..old(self)@ });
            assert(all@.subrange(0, all@.len() as int) =~= all@);
        }
        let ghost target = feed_spec(old(self)@, chunk@);
        let mut out: Vec<Frame> = Vec::new();
        let mut start: usize = 0;
        loop
            invariant
                start <= all@.len(),
                target == feed_spec(old(self)@, chunk@),
                self@.pending == Seq::<u8>::empty(),
                target == (
                    run(self@, all@.subrange(start as int, all@.len() as int)).0,
                    frames_view(out@) + run(self@, all@.subrange(start as int, all@.len() as int)).1,
                ),
            decreases all@.len() - start,
        {
            let ghost rest = all@.subrange(start as int, all@.len() as int);
            let ghost st = self@;
            let ghost out0 = frames_view(out@);
            let pos = find_byte(&all, start, 10u8);
            if pos == all.len() {
                proof {
                    assert forall|k: int| 0 <= k < rest.len() implies rest[k] != 10u8 by {
                        assert(rest[k] == all@[start + k]);
                    }
                    lemma_first_index_none(rest, 10u8);
                }
                let tail = all.split_off(start);
                self.buf = tail;
                proof {
                    assert(self@ == ParserState { pending: rest, ..st });
                    assert(run(st, rest) == (ParserState { pending: rest, ..st }, Seq::<FrameView>::empty()));
                    assert(out0 + Seq::<FrameView>::empty() =~= out0);
                    assert(frames_view(out@) == out0);
                    assert(target.0 == self@);
                    assert(target.1 =~= frames_view(out@));
                }
                return out;
            }
            proof {
                assert forall|k: int| 0 <= k < pos - start implies rest[k] != 10u8 by {
                    assert(rest[k] == all@[start + k]);
                }
                assert(rest[pos - start] == all@[pos as int]);
                lemma_first_index_at(rest, 10u8, pos - start);
            }
            let mut end = pos;
            if end > start && all[end - 1] == 13u8 {
                end = end - 1;
            }
            proof {
                let raw = rest.subrange(0, pos - start);
                assert(strip_cr(raw) =~= all@.subrange(start as int, end as int));
                assert(rest.subrange(pos - start + 1, rest.len() as int) =~= all@.subrange(pos + 1, all@.len() as int));
            }
            let f = self.line(&all[start..end]);
            match f {
                Some(fr) => {
                    out.push(fr);
                },
                None => {},
            }
            proof {
                let (st1, fo) = step_line(st, all@.subrange(start as int, end as int));
                assert(self@ == st1);
                assert(frames_view(out@) =~= out0 + opt_seq(fo));
                let (st2, fs) = run(st1, all@.subrange(pos + 1, all@.len() as int));
                assert(run(st, rest) == (st2, opt_seq(fo) + fs));
                assert(out0 + (opt_seq(fo) + fs) =~= (out0 + opt_seq(fo)) + fs);
            }
            start = pos + 1;
        }
    }

    /// Fold one complete (CR-stripped) line.
    fn line(&mut self, line: &[u8]) -> (f: Option<Frame>)
        ensures
            (final(self)@, match f { Some(x) => Some(x@), None => None::<FrameView> })
                == step_line(old(self)@, line@),
            final(self)@.pending == old(self)@.pending,
    {
        if line.len() == 0 {
            let named = match self.event.take() {
                Some(e) => if e.as_str().unicode_len() > 0 {
                    Some(e)
                } else {
                    None
                },
                None => None,
            };
            let event = match named {
                Some(e) => e,
                None => {
                    proof {
                        reveal_strlit("message");
                        assert("message"@ =~= message_event());
                    }
                    String::from_str("message")
                },
            };
            let id = match self.frame_id.take() {
                Some(i) => Some(i),
                None => match &self.last_id {
                    Some(l) => Some(l.clone()),
                    None => None,
                },
            };
            if self.data_lines.len() == 0 {
                return None;
            }
            let mut lines = Vec::new();
            std::mem::swap(&mut lines, &mut self.data_lines);
            let data = join_data(&lines);
            let f = Frame { id, event, data };
            proof {
                assert(self@.data =~= Seq::<Seq<char>>::empty());
                assert(lines@.map_values(|l: String| l@) == old(self)@.data);
                let want = step_line(old(self)@, line@);
                assert(f@.event == want.1.unwrap().event);
                assert(f@.id == want.1.unwrap().id);
                assert(f@.data == want.1.unwrap().data);
                assert(want.1 == Some(f@));
                assert(want.0 == self@);
            }
            return Some(f);
        }
        if line[0] == 58u8 {
            return None;
        }
        let colon = find_byte(line, 0, 58u8);
        proof {
            if colon < line@.len() {
                lemma_first_index_at(line@, 58u8, colon as int);
            } else {
                lemma_first_index_none(line@, 58u8);
            }
        }
        let (field, value): (&[u8], &[u8]) = if colon < line.len() {
            let vstart = if colon + 1 < line.len() && line[colon + 1] == 32u8 {
                colon + 2
            } else {
                colon + 1
            };
            let f = &line[0..colon];
            let v = &line[vstart..line.len()];
            proof {
                let full = line@.subrange(colon + 1, line@.len() as int);
                if vstart == colon + 2 {
                    assert(v@ =~= full.drop_first());
                } else {
                    assert(v@ =~= full);
                }
            }
            (f, v)
        } else {
            (line, &line[line.len()..line.len()])
        };
        proof {
            assert(field@ =~= split_field(line@).0);
            assert(value@ =~= split_field(line@).1);
        }
        if is_id(field) {
            let nul = find_byte(value, 0, 0u8);
            if nul == value.len() {
                let v = lossy_string(value);
                self.frame_id = Some(v.clone());
                self.last_id = Some(v);
            } else {
                proof {
                    assert(value@[nul as int] == 0u8);
                    assert(value@.contains(0u8));
                }
            }
        } else if is_event(field) {
            self.event = Some(lossy_string(value));
        } else if is_data(field) {
            let v = lossy_string(value);
            self.data_lines.push(v);
            proof {
                assert(self@.data =~= old(self)@.data.push(text_of(value@)));
            }
        }
        None
    }
}

/// How a stream read ended.
#[derive(Debug, Clone, Copy, PartialEq, Eq, Structural)]
pub enum End {
    /// The server sent the terminal `end` event.
    Terminal,
    /// The consumer asked to stop.
    Stopped,
    /// EOF without a terminal event (daemon restart, network loss): reconnect.
    Lost,
}

/// The event name `end` that closes a stream.
pub open spec fn end_event() -> Seq<char> {
    seq!['e', 'n', 'd']
}

/// Frames `fs[0..k]` are all ordinary (none is `end`).
pub open spec fn none_end(fs: Seq<FrameView>, k: int) -> bool {
    forall|j: int| 0 <= j < k ==> #[trigger] fs[j].event != end_event()
}

/// Feeding a then b is feeding a ++ b: the same state, the same frames in
/// the same order, however the stream is cut into chunks.
pub proof fn law_feed_split(st: ParserState, a: Seq<u8>, b: Seq<u8>)
    ensures
        feed_spec(st, a + b) == (
            feed_spec(feed_spec(st, a).0, b).0,
            feed_spec(st, a).1 + feed_spec(feed_spec(st, a).0, b).1,
        ),
{
    assert(st.pending + (a + b) =~= (st.pending + a) + b);
    lemma_run_append(st, st.pending + a, b);
}

/// A state resumed after `id`: its cursor is `id` while it has none.
pub open spec fn resumed_state(st: ParserState, id: Option<Seq<char>>) -> ParserState {
    ParserState { last_id: if st.last_id is None { id } else { st.last_id }, ..st }
}

/// A frame as a parser resumed after `id` hands it on: `id` when no `id:`
/// line named it.
pub open spec fn resumed_frame(f: FrameView, id: Option<Seq<char>>) -> FrameView {
    FrameView { id: if f.id is None { id } else { f.id }, ..f }
}

pub open spec fn resumed_frames(fs: Seq<FrameView>, id: Option<Seq<char>>) -> Seq<FrameView> {
    fs.map_values(|f: FrameView| resumed_frame(f, id))
}

proof fn lemma_resume_run(st: ParserState, id: Option<Seq<char>>, bytes: Seq<u8>)
    ensures
        run(resumed_state(st, id), bytes) == (resumed_state(run(st, bytes).0, id), resumed_frames(run(st, bytes).1, id)),
    decreases bytes.len(),
{
    let p = first_index(bytes, 10u8);
    lemma_first_index(bytes, 10u8);
    if p < 0 || p >= bytes.len() {
        assert(resumed_frames(Seq::<FrameView>::empty(), id) =~= Seq::<FrameView>::empty());
    } else {
        let line = strip_cr(bytes.subrange(0, p));
        let rest = bytes.subrange(p + 1, bytes.len() as int);
        let (a, fa) = step_line(st, line);
        let (b, fb) = step_line(resumed_state(st, id), line);
        assert(b == resumed_state(a, id));
        assert(fb == match fa {
            Some(f) => Some(resumed_frame(f, id)),
            None => None,
        });
        lemma_resume_run(a, id, rest);
        let fs = run(a, rest).1;
        assert(resumed_frames(opt_seq(fa) + fs, id) =~= opt_seq(fb) + resumed_frames(fs, id));
    }
}

/// Law: a parser resumed after `id` reads any input as the parser it was
/// resumed from would, except that each frame no `id:` line named carries
/// `id`, and its cursor stays `id` until an `id:` line replaces it. A new
/// parser resumed after `id` is a new parser so resumed.
pub proof fn law_resume(st: ParserState, id: Option<Seq<char>>, chunk: Seq<u8>)
    ensures
        fresh_state(id) == resumed_state(fresh_state(None), id),
        feed_spec(resumed_state(st, id), chunk) == (resumed_state(feed_spec(st, chunk).0, id), resumed_frames(feed_spec(st, chunk).1, id)),
{
    lemma_resume_run(st, id, st.pending + chunk);
}

/// The cursor after the complete lines of `bytes`, from `init`: the value
/// of the last `id` line whose value holds no NUL, else `init`.
pub open spec fn last_id_after(init: Option<Seq<char>>, bytes: Seq<u8>) -> Option<Seq<char>>
    decreases bytes.len(),
{
    let p = first_index(bytes, 10u8);
    if p < 0 || p >= bytes.len() {
        init
    } else {
        let (field, value) = split_field(strip_cr(bytes.subrange(0, p)));
        let next = if field == field_id() && !value.contains(0u8) {
            Some(text_of(value))
        } else {
            init
        };
        last_id_after(next, bytes.subrange(p + 1, bytes.len() as int))
    }
}

proof fn lemma_last_id_run(st: ParserState, bytes: Seq<u8>)
    ensures
        run(st, bytes).0.last_id == last_id_after(st.last_id, bytes),
    decreases bytes.len(),
{
    let p = first_index(bytes, 10u8);
    lemma_first_index(bytes, 10u8);
    if p >= 0 && p < bytes.len() {
        let line = strip_cr(bytes.subrange(0, p));
        if line.len() > 0 && line[0] == 58u8 {
            lemma_first_index_at(line, 58u8, 0);
            assert(split_field(line).0 =~= Seq::<u8>::empty());
        }
        if line.len() == 0 {
            lemma_first_index_none(line, 58u8);
        }
        lemma_last_id_run(step_line(st, line).0, bytes.subrange(p + 1, bytes.len() as int));
    }
}

/// Law: after any chunk, the cursor is the value of the last complete `id`
/// line (one leading space dropped, a trailing `\r` trimmed) whose value
/// holds no NUL, or the cursor from before when there is none.
pub proof fn law_last_id(st: ParserState, chunk: Seq<u8>)
    ensures
        feed_spec(st, chunk).0.last_id == last_id_after(st.last_id, st.pending + chunk),
{
    lemma_last_id_run(st, st.pending + chunk);
}

/// The frames of `fs` before its first `end` frame, and whether it has
/// one.
pub open spec fn until_end(fs: Seq<FrameView>) -> (Seq<FrameView>, bool)
    decreases fs.len(),
{
    if fs.len() == 0 {
        (seq![], false)
    } else if fs[0].event == end_event() {
        (seq![], true)
    } else {
        (seq![fs[0]] + until_end(fs.drop_first()).0, until_end(fs.drop_first()).1)
    }
}

proof fn lemma_read_outcome(fs: Seq<FrameView>, out: Seq<FrameView>, end: Option<End>)
    requires
        read_outcome(fs, out, end),
    ensures
        (out, end is Some) == until_end(fs),
    decreases fs.len(),
{
    if fs.len() > 0 {
        if out.len() == 0 {
            if end is None {
                assert(fs.len() == 0);
            }
        } else {
            assert(fs[0] == out[0]);
            assert(fs[0].event != end_event());
            let rest = out.drop_first();
            assert(rest =~= fs.drop_first().take(rest.len() as int));
            assert forall|j: int| 0 <= j < rest.len() implies #[trigger] fs.drop_first()[j].event != end_event() by {
                assert(fs.drop_first()[j] == fs[j + 1]);
            }
            if end == Some(End::Terminal) {
                assert(fs.drop_first()[rest.len() as int] == fs[out.len() as int]);
            }
            lemma_read_outcome(fs.drop_first(), rest, end);
            assert(seq![fs[0]] + rest =~= out);
        }
    }
}

proof fn lemma_until_end_append(a: Seq<FrameView>, b: Seq<FrameView>)
    ensures
        until_end(a).1 ==> until_end(a + b) == until_end(a),
        !until_end(a).1 ==> until_end(a).0 == a && until_end(a + b) == (a + until_end(b).0, until_end(b).1),
    decreases a.len(),
{
    if a.len() == 0 {
        assert(a + b =~= b);
        assert(a + until_end(b).0 =~= until_end(b).0);
    } else {
        assert((a + b)[0] == a[0]);
        assert((a + b).drop_first() =~= a.drop_first() + b);
        lemma_until_end_append(a.drop_first(), b);
        if !until_end(a).1 {
            assert(seq![a[0]] + a.drop_first() =~= a);
            assert(seq![a[0]] + (a.drop_first() + until_end(b).0) =~= a + until_end(b).0);
        }
    }
}

/// The chunks one after another.
pub open spec fn joined(chunks: Seq<Seq<u8>>) -> Seq<u8>
    decreases chunks.len(),
{
    if chunks.len() == 0 {
        seq![]
    } else {
        joined(chunks.drop_last()) + chunks.last()
    }
}

/// Feeding `chunks` one after another: the state, and the frames in order.
pub open spec fn feed_all(st: ParserState, chunks: Seq<Seq<u8>>) -> (ParserState, Seq<FrameView>)
    decreases chunks.len(),
{
    if chunks.len() == 0 {
        (st, seq![])
    } else {
        let (s1, f1) = feed_all(st, chunks.drop_last());
        let (s2, f2) = feed_spec(s1, chunks.last());
        (s2, f1 + f2)
    }
}

/// Law: feeding any chunks one after another is feeding them joined: the
/// same state and the same frames in order, whatever the cuts; so after
/// them the cursor is the value of the last complete `id` line (without
/// NUL) of all the text fed, or the cursor from before.
pub proof fn law_feed_chunks(st: ParserState, chunks: Seq<Seq<u8>>)
    requires
        settled(st),
    ensures
        feed_all(st, chunks) == feed_spec(st, joined(chunks)),
        feed_all(st, chunks).0.last_id == last_id_after(st.last_id, st.pending + joined(chunks)),
    decreases chunks.len(),
{
    if chunks.len() == 0 {
        assert(st.pending + Seq::<u8>::empty() =~= st.pending);
        assert(ParserState { pending: st.pending, ..st } == st);
    } else {
        law_feed_chunks(st, chunks.drop_last());
        law_feed_split(st, joined(chunks.drop_last()), chunks.last());
    }
    law_last_id(st, joined(chunks));
}

/// A parser's state between calls: its pending tail holds no line end.
pub open spec fn settled(st: ParserState) -> bool {
    first_index(st.pending, 10u8) < 0
}

proof fn lemma_run_settles(st: ParserState, bytes: Seq<u8>)
    ensures
        settled(run(st, bytes).0),
    decreases bytes.len(),
{
    let p = first_index(bytes, 10u8);
    lemma_first_index(bytes, 10u8);
    if p >= 0 && p < bytes.len() {
        lemma_run_settles(step_line(st, strip_cr(bytes.subrange(0, p))).0, bytes.subrange(p + 1, bytes.len() as int));
    }
}

/// Reading `chunks` one after another as `pump` hands them on: the parser
/// state, the frames handed on in order, and whether the stream ended with
/// its `end` frame (no chunk after that is read).
pub open spec fn pumped(st: ParserState, chunks: Seq<Seq<u8>>) -> (ParserState, Seq<FrameView>, bool)
    decreases chunks.len(),
{
    if chunks.len() == 0 {
        (st, seq![], false)
    } else {
        let (s1, out, done) = pumped(st, chunks.drop_last());
        if done {
            (s1, out, true)
        } else {
            let (s2, fs) = feed_spec(s1, chunks.last());
            (s2, out + until_end(fs).0, until_end(fs).1)
        }
    }
}

/// Law: over a whole stream, read by read, exactly the frames of all the
/// text read are handed on, in order, up to the first `end` frame, which
/// ends the stream (`Terminal`); with no `end` frame every frame is handed
/// on and the stream reads on (at EOF it is `Lost`). How the stream is cut
/// into reads changes nothing.
pub proof fn law_pump_stream(st: ParserState, chunks: Seq<Seq<u8>>)
    requires
        settled(st),
    ensures
        (pumped(st, chunks).1, pumped(st, chunks).2) == until_end(feed_spec(st, joined(chunks)).1),
        !pumped(st, chunks).2 ==> pumped(st, chunks).0 == feed_spec(st, joined(chunks)).0,
    decreases chunks.len(),
{
    law_feed_chunks(st, chunks);
    if chunks.len() == 0 {
        assert(feed_all(st, chunks).1 =~= Seq::<FrameView>::empty());
    } else {
        let dl = chunks.drop_last();
        law_pump_stream(st, dl);
        law_feed_chunks(st, dl);
        let a = feed_spec(st, joined(dl));
        law_feed_split(st, joined(dl), chunks.last());
        lemma_until_end_append(a.1, feed_spec(a.0, chunks.last()).1);
    }
}

/// Running `s + t` is running `s`, then running its pending tail with `t`.
pub proof fn lemma_run_append(st: ParserState, s: Seq<u8>, t: Seq<u8>)
    ensures
        run(st, s + t) == (
            run(run(st, s).0, run(st, s).0.pending + t).0,
            run(st, s).1 + run(run(st, s).0, run(st, s).0.pending + t).1,
        ),
    decreases s.len(),
{
    let p = first_index(s, 10u8);
    lemma_first_index(s, 10u8);
    if p < 0 {
        let s1 = run(st, s).0;
        assert(s1 == ParserState { pending: s, ..st });
        lemma_run_ignores_pending(st, s, s + t);
        assert(run(st, s).1 =~= Seq::<FrameView>::empty());
        assert(Seq::<FrameView>::empty() + run(s1, s1.pending + t).1 =~= run(s1, s1.pending + t).1);
    } else {
        lemma_first_index_append(s, t, 10u8);
        assert((s + t).subrange(0, p) =~= s.subrange(0, p));
        let rest = s.subrange(p + 1, s.len() as int);
        assert((s + t).subrange(p + 1, (s + t).len() as int) =~= rest + t);
        let (st1, f) = step_line(st, strip_cr(s.subrange(0, p)));
        lemma_run_append(st1, rest, t);
        let s1 = run(st1, rest).0;
        let x = run(s1, s1.pending + t).1;
        assert(opt_seq(f) + (run(st1, rest).1 + x) =~= (opt_seq(f) + run(st1, rest).1) + x);
    }
}

impl Default for Parser {
    fn default() -> (p: Parser)
        ensures
            p@ == fresh_state(None),
    {
        Parser::new()
    }
}

/// What one read hands on: `out` is the frames the chunk completed, in
/// order, up to and not including the first `end` frame; `end` is
/// `Terminal` exactly when there was such a frame, else none.
pub open spec fn read_outcome(fs: Seq<FrameView>, out: Seq<FrameView>, end: Option<End>) -> bool {
    &&& out.len() <= fs.len()
    &&& out == fs.take(out.len() as int)
    &&& none_end(fs, out.len() as int)
    &&& match end {
        None => out.len() == fs.len(),
        Some(End::Terminal) => out.len() < fs.len() && fs[out.len() as int].event == end_event(),
        Some(_) => false,
    }
}

/// One read of a stream: an empty read is EOF, the stream was lost, and
/// the parser keeps its state (and resume cursor). Otherwise the chunk is
/// fed and the frames to hand on are returned: those the chunk completed,
/// up to the terminal `end` frame, which is not handed on and ends the
/// stream with `Terminal`. `None`: keep reading.
pub fn pump(parser: &mut Parser, chunk: &[u8]) -> (r: (Vec<Frame>, Option<End>))
    ensures
        chunk@.len() == 0 ==> r.0@.len() == 0 && r.1 == Some(End::Lost) && final(parser)@ == old(parser)@,
        chunk@.len() > 0 ==> final(parser)@ == feed_spec(old(parser)@, chunk@).0 && settled(final(parser)@),
        chunk@.len() > 0 ==> read_outcome(feed_spec(old(parser)@, chunk@).1, frames_view(r.0@), r.1),
        chunk@.len() > 0 ==> (frames_view(r.0@), r.1 is Some) == until_end(feed_spec(old(parser)@, chunk@).1),
{
    if chunk.len() == 0 {
        return (Vec::new(), Some(End::Lost));
    }
    let frames = parser.feed(chunk);
    let ghost fs = frames_view(frames@);
    proof {
        reveal_strlit("end");
        assert("end"@ =~= end_event());
    }
    let end = String::from_str("end");
    let n = frames.len();
    let ghost all = frames@;
    let mut left = frames;
    let mut out: Vec<Frame> = Vec::new();
    let mut i: usize = 0;
    while i < n
        invariant
            i <= n,
            n == fs.len(),
            end@ == end_event(),
            none_end(fs, i as int),
            fs == frames_view(all),
            fs == feed_spec(old(parser)@, chunk@).1,
            chunk@.len() > 0,
            parser@ == feed_spec(old(parser)@, chunk@).0,
            settled(parser@),
            left@ == all.subrange(i as int, n as int),
            out@ == all.subrange(0, i as int),
        decreases n - i,
    {
        let f = left.remove(0);
        proof {
            assert(f == all[i as int]);
            assert(left@ =~= all.subrange(i as int + 1, n as int));
        }
        if f.event == end {
            proof {
                assert(frames_view(out@) =~= fs.take(i as int));
                lemma_read_outcome(fs, frames_view(out@), Some(End::Terminal));
            }
            return (out, Some(End::Terminal));
        }
        proof {
            assert(fs[i as int].event != end_event());
        }
        out.push(f);
        proof {
            assert(out@ =~= all.subrange(0, i as int + 1));
        }
        i = i + 1;
    }
    proof {
        assert(frames_view(out@) =~= fs.take(n as int));
        lemma_read_outcome(fs, frames_view(out@), None);
    }
    (out, None)
}

} // verus!

