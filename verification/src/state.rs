//! The app state's rules: request coalescing, what a run's events and its
//! stream's end do to its live card, and the small lines the views show.
use crate::api::{api_error_text, connect_error_text, ApiError, ConnectError};
use crate::model::{
    bare_request, no_options, job_terminal, opts_apply, CreateThread, DeviceCode, Handshake, PrimaryOutput, Resource, ResourceRef, RunFailure, Scope,
    SetupJob, SetupSnapshot, TrustState, TurnOpts, TurnRequest, TurnRequestV,
};
use crate::text::{lowercase, lowercase_text, blank, chars_vec, find_char, find_from, is_blank, trim, trim_spec};
use crate::sse::End;
use crate::text::{decimal, push_decimal, same_text};
use crate::transcript::{apply_ok, fresh, opt_view, step, wf, RunEvent, Transcript, TranscriptV};
use crate::ui::theme::{iso_seconds, parse_iso, now_unix, CLOCK_LIMIT};
use vstd::prelude::*;
use vstd::string::StrSliceExecFns;
use vstd::string::StringExecFns;
use vstd::string::StringSliceAdditionalSpecFns;
use vstd::utf8::encode_utf8;

verus! {

/// Single flight plus one trailing request, so a storm of pings costs one
/// extra fetch.
#[derive(Debug, Clone, Copy, PartialEq, Eq, Structural)]
pub struct Flight {
    pub busy: bool,
    pub again: bool,
}

/// `start`: the new flight and whether a request goes out now.
pub open spec fn flight_start(f: Flight) -> (Flight, bool) {
    if f.busy {
        (Flight { busy: true, again: true }, false)
    } else {
        (Flight { busy: true, again: f.again }, true)
    }
}

/// `finish`: the new flight and whether one trailing request goes out.
pub open spec fn flight_finish(f: Flight) -> (Flight, bool) {
    (Flight { busy: false, again: false }, f.again)
}

impl Default for Flight {
    fn default() -> (r: Flight)
        ensures
            r == (Flight { busy: false, again: false }),
    {
        Flight { busy: false, again: false }
    }
}

impl Flight {
    /// Begin a request; false (and one trailing request remembered) while
    /// one is in flight.
    pub fn start(&mut self) -> (r: bool)
        ensures
            (*final(self), r) == flight_start(*old(self)),
    {
        if self.busy {
            self.again = true;
            return false;
        }
        self.busy = true;
        true
    }

    /// End the request in flight; true when one more must follow.
    pub fn finish(&mut self) -> (r: bool)
        ensures
            (*final(self), r) == flight_finish(*old(self)),
    {
        self.busy = false;
        let again = self.again;
        self.again = false;
        again
    }
}

/// While a request is in flight, every further start is refused.
pub proof fn law_flight_is_single(f: Flight)
    requires
        f.busy,
    ensures
        !flight_start(f).1,
        flight_start(f).0.busy,
{
}

/// Any number of refused starts during a flight cost exactly one trailing
/// request: the finish asks for it, the finish after that does not.
pub proof fn law_flight_one_trailing(f: Flight, storms: nat)
    requires
        f.busy,
        storms >= 1,
    ensures
        flight_finish(storm(f, storms)).1,
        !flight_finish(flight_finish(storm(f, storms)).0).1,
{
    lemma_storm(f, storms);
}

proof fn lemma_storm(f: Flight, n: nat)
    requires
        f.busy,
    ensures
        storm(f, n).busy,
        n >= 1 ==> storm(f, n).again,
    decreases n,
{
    if n > 0 {
        lemma_storm(f, (n - 1) as nat);
    }
}

/// The flight after a run of calls from `f`: `true` is a `start`, `false`
/// a `finish`.
pub open spec fn flight_after(f: Flight, calls: Seq<bool>) -> Flight
    decreases calls.len(),
{
    if calls.len() == 0 {
        f
    } else {
        let g = flight_after(f, calls.drop_last());
        if calls.last() {
            flight_start(g).0
        } else {
            flight_finish(g).0
        }
    }
}

/// Some `start` among `calls`, made from an idle flight, was refused since
/// the last `finish` (or since the first call).
pub open spec fn refused_since_finish(calls: Seq<bool>) -> bool
    decreases calls.len(),
{
    if calls.len() == 0 || !calls.last() {
        false
    } else {
        refused_since_finish(calls.drop_last()) || !flight_start(
            flight_after(Flight { busy: false, again: false }, calls.drop_last()),
        ).1
    }
}

proof fn lemma_flight_again(calls: Seq<bool>)
    ensures
        flight_after(Flight { busy: false, again: false }, calls).again == refused_since_finish(calls),
    decreases calls.len(),
{
    if calls.len() > 0 {
        lemma_flight_again(calls.drop_last());
    }
}

/// Whatever starts and finishes came before, from a new flight: `finish`
/// asks for one more request exactly when some `start` was refused since
/// the last `finish` (or since the flight was made), and leaves the flight
/// idle, so the next `start` goes out.
pub proof fn law_flight_history(calls: Seq<bool>)
    ensures
        flight_finish(flight_after(Flight { busy: false, again: false }, calls)).1 == refused_since_finish(calls),
        flight_finish(flight_after(Flight { busy: false, again: false }, calls)).0 == (Flight { busy: false, again: false }),
        flight_start(flight_finish(flight_after(Flight { busy: false, again: false }, calls)).0).1,
{
    lemma_flight_again(calls);
}

/// `n` starts in a row.
pub open spec fn storm(f: Flight, n: nat) -> Flight
    decreases n,
{
    if n == 0 {
        f
    } else {
        flight_start(storm(f, (n - 1) as nat)).0
    }
}

/// The failure's code, else its category.
pub open spec fn failure_code(f: RunFailure) -> Option<Seq<char>> {
    if f.code is Some {
        opt_view(f.code)
    } else {
        opt_view(f.category)
    }
}

/// Human line for a run failure: the safe message and the typed code.
pub open spec fn failure_text(f: RunFailure) -> Option<Seq<char>> {
    let m = trim_spec(f.safe_message@);
    match failure_code(f) {
        None => if m.len() == 0 { None } else { Some(m) },
        Some(c) => if m.len() == 0 { Some(c) } else { Some(m + " ("@ + c + ")"@) },
    }
}

/// Human line for a run failure (`summary.failure`).
pub fn failure_line(f: &RunFailure) -> (r: Option<String>)
    ensures
        opt_view(r) == failure_text(*f),
{
    let code: Option<&String> = match &f.code {
        Some(c) => Some(c),
        None => match &f.category {
            Some(c) => Some(c),
            None => None,
        },
    };
    let m = trim(f.safe_message.as_str());
    let empty = m.unicode_len() == 0;
    match code {
        None => if empty {
            None
        } else {
            Some(String::from_str(m))
        },
        Some(c) => if empty {
            Some(c.clone())
        } else {
            let mut s = String::from_str(m);
            s.append(" (");
            s.append(c.as_str());
            s.append(")");
            Some(s)
        },
    }
}

/// ASCII upper case to lower case; other characters unchanged.
pub open spec fn lower(c: char) -> char {
    if 'A' <= c <= 'Z' {
        ((c as u32) + 32) as char
    } else {
        c
    }
}

/// The text after the last `.` (the whole name when it has none).
pub open spec fn extension(name: Seq<char>) -> Seq<char>
    decreases name.len(),
{
    if name.len() == 0 {
        name
    } else if name.last() == '.' {
        Seq::empty()
    } else {
        extension(name.drop_last()).push(name.last())
    }
}

pub open spec fn one_of(e: Seq<char>, names: Seq<Seq<char>>) -> bool {
    exists|i: int| 0 <= i < names.len() && names[i] == e
}

proof fn lemma_extension_after_dot(stem: Seq<char>, ext: Seq<char>)
    requires
        !ext.contains('.'),
    ensures
        extension(stem + seq!['.'] + ext) == ext,
    decreases ext.len(),
{
    let n = stem + seq!['.'] + ext;
    if ext.len() == 0 {
        assert(n.last() == '.');
    } else {
        assert(!ext.drop_last().contains('.')) by {
            if ext.drop_last().contains('.') {
                let j = choose|j: int| 0 <= j < ext.drop_last().len() && ext.drop_last()[j] == '.';
                assert(ext[j] == '.');
            }
        }
        assert(ext.last() != '.') by {
            assert(ext[ext.len() - 1] == ext.last());
        }
        lemma_extension_after_dot(stem, ext.drop_last());
        assert(n.drop_last() =~= stem + seq!['.'] + ext.drop_last());
        assert(ext.drop_last().push(ext.last()) =~= ext);
    }
}

/// Law: a file named `stem.ext` (`ext` holding no `.`) uploads by its
/// extension in any case: `jpg` and `jpeg` as JPEG images, `png`, `gif`
/// and `webp` as their images, and no other extension as an image; `pdf`,
/// `json` and `md`/`markdown` as files of their types.
pub proof fn law_upload_kind(stem: Seq<char>, ext: Seq<char>)
    requires
        !ext.contains('.'),
    ensures
        ({
            let e = ext.map_values(|c: char| lower(c));
            let m = mime_of(extension(stem + seq!['.'] + ext).map_values(|c: char| lower(c)));
            &&& (e == "jpg"@ || e == "jpeg"@) ==> m == ("image"@, "image/jpeg"@)
            &&& e == "png"@ ==> m == ("image"@, "image/png"@)
            &&& e == "gif"@ ==> m == ("image"@, "image/gif"@)
            &&& e == "webp"@ ==> m == ("image"@, "image/webp"@)
            &&& (m.0 == "image"@) == (e == "png"@ || e == "jpg"@ || e == "jpeg"@ || e == "gif"@ || e == "webp"@)
            &&& (m.0 == "image"@ || m.0 == "file"@)
            &&& e == "pdf"@ ==> m == ("file"@, "application/pdf"@)
            &&& e == "json"@ ==> m == ("file"@, "application/json"@)
            &&& (e == "md"@ || e == "markdown"@) ==> m == ("file"@, "text/markdown"@)
        }),
{
    lemma_extension_after_dot(stem, ext);
    assert(extension(stem + seq!['.'] + ext).map_values(|c: char| lower(c)) == ext.map_values(|c: char| lower(c)));
    reveal_strlit("image");
    reveal_strlit("file");
    reveal_strlit("png");
    reveal_strlit("jpg");
    reveal_strlit("jpeg");
    reveal_strlit("gif");
    reveal_strlit("webp");
    reveal_strlit("pdf");
    reveal_strlit("json");
    reveal_strlit("md");
    reveal_strlit("markdown");
    reveal_strlit("image/jpeg");
    assert("image"@.len() == 5 && "file"@.len() == 4);
    assert("image"@ != "file"@);
    assert("png"@.len() == 3 && "jpg"@.len() == 3 && "jpeg"@.len() == 4 && "gif"@.len() == 3 && "webp"@.len() == 4);
    assert("png"@[0] == 'p' && "jpg"@[0] == 'j' && "gif"@[0] == 'g' && "jpeg"@[0] == 'j' && "webp"@[0] == 'w');
    assert("pdf"@.len() == 3 && "json"@.len() == 4 && "md"@.len() == 2 && "markdown"@.len() == 8);
    assert("pdf"@[0] == 'p' && "pdf"@[1] == 'd' && "png"@[1] == 'n' && "json"@[0] == 'j' && "json"@[1] == 's' && "jpeg"@[1] == 'p');
    assert("pdf"@ != "png"@ && "json"@ != "jpeg"@ && "pdf"@ != "jpg"@ && "pdf"@ != "gif"@);
    assert("json"@ != "webp"@);
    assert("png"@ != "jpg"@ && "png"@ != "gif"@ && "jpg"@ != "gif"@ && "jpeg"@ != "webp"@);
}

/// Upload kind and MIME type for a lower-case extension.
pub open spec fn mime_of(e: Seq<char>) -> (Seq<char>, Seq<char>) {
    if e == "png"@ {
        ("image"@, "image/png"@)
    } else if e == "jpg"@ || e == "jpeg"@ {
        ("image"@, "image/jpeg"@)
    } else if e == "gif"@ {
        ("image"@, "image/gif"@)
    } else if e == "webp"@ {
        ("image"@, "image/webp"@)
    } else if e == "pdf"@ {
        ("file"@, "application/pdf"@)
    } else if e == "json"@ {
        ("file"@, "application/json"@)
    } else if e == "md"@ || e == "markdown"@ {
        ("file"@, "text/markdown"@)
    } else if one_of(e, plain_text_extensions()) {
        ("file"@, "text/plain"@)
    } else {
        ("file"@, "application/octet-stream"@)
    }
}

pub open spec fn plain_text_extensions() -> Seq<Seq<char>> {
    seq![
        "txt"@, "log"@, "rs"@, "ts"@, "js"@, "py"@, "go"@, "java"@, "c"@, "h"@, "cpp"@, "toml"@, "yaml"@, "yml"@,
        "sh"@, "swift"@, "kt"@, "rb"@, "css"@, "html"@, "sql"@, "csv"@, "xml"@,
    ]
}

fn chars_are(v: &Vec<char>, lit: &str) -> (r: bool)
    ensures
        r == (v@ == lit@),
{
    let w = chars_vec(lit);
    if v.len() != w.len() {
        return false;
    }
    let mut i: usize = 0;
    while i < v.len()
        invariant
            i <= v@.len() == w@.len(),
            w@ == lit@,
            forall|k: int| 0 <= k < i ==> v@[k] == w@[k],
        decreases v@.len() - i,
    {
        if v[i] != w[i] {
            return false;
        }
        i = i + 1;
    }
    assert(v@ =~= w@);
    true
}

/// Upload kind and MIME type from the file name (the daemon revalidates
/// the bytes).
#[verifier::rlimit(30)]
pub fn mime_for(name: &str) -> (r: (&'static str, &'static str))
    ensures
        (r.0@, r.1@) == mime_of(extension(name@).map_values(|c: char| lower(c))),
{
    let v = chars_vec(name);
    let mut start = v.len();
    assert(v@.subrange(0, start as int) =~= v@);
    assert(v@.subrange(start as int, v@.len() as int) =~= Seq::<char>::empty());
    assert(extension(name@) + Seq::<char>::empty() =~= extension(name@));
    while start > 0 && v[start - 1] != '.'
        invariant
            start <= v@.len(),
            v@ == name@,
            extension(name@) == extension(v@.subrange(0, start as int)) + v@.subrange(start as int, v@.len() as int),
        decreases start,
    {
        proof {
            let p = v@.subrange(0, start as int);
            assert(p.drop_last() =~= v@.subrange(0, start - 1));
            assert(extension(p) == extension(p.drop_last()).push(p.last()));
            assert(extension(v@.subrange(0, start - 1)) + v@.subrange(start - 1, v@.len() as int) =~= extension(p.drop_last()).push(p.last()) + v@.subrange(start as int, v@.len() as int));
        }
        start = start - 1;
    }
    proof {
        assert(v@.subrange(0, v@.len() as int) =~= v@);
        if start > 0 {
            assert(extension(v@.subrange(0, start as int)) == Seq::<char>::empty());
        } else {
            assert(extension(v@.subrange(0, 0)) == Seq::<char>::empty());
        }
        assert(Seq::<char>::empty() + v@.subrange(start as int, v@.len() as int) =~= v@.subrange(start as int, v@.len() as int));
    }
    let mut ext: Vec<char> = Vec::new();
    let mut i = start;
    while i < v.len()
        invariant
            start <= i <= v@.len(),
            ext@ == v@.subrange(start as int, i as int).map_values(|c: char| lower(c)),
        decreases v@.len() - i,
    {
        let c = v[i];
        let l = if 'A' <= c && c <= 'Z' { ((c as u8) + 32) as char } else { c };
        assert(l == lower(c));
        ext.push(l);
        proof {
            assert(ext@ =~= v@.subrange(start as int, i + 1).map_values(|c: char| lower(c)));
        }
        i = i + 1;
    }
    let ghost e = extension(name@).map_values(|c: char| lower(c));
    assert(ext@ =~= e);
    proof {
        reveal_strlit("png");
        reveal_strlit("jpg");
        reveal_strlit("jpeg");
        reveal_strlit("gif");
        reveal_strlit("webp");
        reveal_strlit("pdf");
        reveal_strlit("json");
        reveal_strlit("md");
        reveal_strlit("markdown");
    }
    if chars_are(&ext, "png") {
        ("image", "image/png")
    } else if chars_are(&ext, "jpg") || chars_are(&ext, "jpeg") {
        ("image", "image/jpeg")
    } else if chars_are(&ext, "gif") {
        ("image", "image/gif")
    } else if chars_are(&ext, "webp") {
        ("image", "image/webp")
    } else if chars_are(&ext, "pdf") {
        ("file", "application/pdf")
    } else if chars_are(&ext, "json") {
        ("file", "application/json")
    } else if chars_are(&ext, "md") || chars_are(&ext, "markdown") {
        ("file", "text/markdown")
    } else if is_plain_text(&ext) {
        ("file", "text/plain")
    } else {
        ("file", "application/octet-stream")
    }
}

fn is_plain_text(ext: &Vec<char>) -> (r: bool)
    ensures
        r == one_of(ext@, plain_text_extensions()),
{
    let names: [&str; 23] = [
        "txt", "log", "rs", "ts", "js", "py", "go", "java", "c", "h", "cpp", "toml", "yaml", "yml", "sh", "swift",
        "kt", "rb", "css", "html", "sql", "csv", "xml",
    ];
    let ghost all = plain_text_extensions();
    assert(names@.map_values(|s: &str| s@) =~= all);
    let mut i: usize = 0;
    while i < 23
        invariant
            i <= 23,
            names@.map_values(|s: &str| s@) == all,
            all == plain_text_extensions(),
            forall|k: int| 0 <= k < i ==> all[k] != ext@,
        decreases 23 - i,
    {
        let name = names[i];
        assert(name == names@[i as int]);
        assert(all[i as int] == name@);
        if chars_are(ext, name) {
            assert(all[i as int] == ext@);
            assert(0 <= i < all.len());
            assert(one_of(ext@, all));
            return true;
        }
        i = i + 1;
    }
    false
}

/// std's `Instant`, carried opaquely (run start and end times).
#[verifier::external_type_specification]
#[verifier::external_body]
pub struct ExInstant(std::time::Instant);

/// The monotonic clock now (std `Instant::now`).
#[verifier::external_body]
fn instant_now() -> std::time::Instant {
    std::time::Instant::now()
}

#[derive(Debug, Clone, PartialEq)]
pub enum Conn {
    Connecting,
    Online { engine: String },
    /// Daemon up but serving only the journal-recovery plane (typed 503s).
    Recovering,
    Offline(String),
    Incompatible(String),
}

/// The engine version a handshake reports, or "unknown".
pub open spec fn engine_text(h: Handshake) -> Seq<char> {
    match h.engine {
        Some(e) => match e.version {
            Some(v) => v@,
            None => "unknown"@,
        },
        None => "unknown"@,
    }
}

/// The connection state after a successful handshake.
pub fn online(h: &Handshake) -> (r: Conn)
    ensures
        r matches Conn::Online { engine } && engine@ == engine_text(*h),
{
    let engine = match &h.engine {
        Some(e) => match &e.version {
            Some(v) => v.clone(),
            None => String::from_str("unknown"),
        },
        None => String::from_str("unknown"),
    };
    Conn::Online { engine }
}

#[derive(Debug)]
pub enum StreamEnd {
    /// Server sent `end`: the run is terminal and fully replayed.
    Terminal,
    /// Stream dropped (daemon restart / network); resume on reconnect.
    Lost,
    /// Stream refused (unknown run, bad cursor).
    Refused(String),
}

/// How a run stream ended, from what the stream call returned: `None` when
/// the consumer stopped it.
pub fn stream_end(r: Result<End, ApiError>) -> (e: Option<StreamEnd>)
    ensures
        match r {
            Ok(End::Terminal) => e matches Some(StreamEnd::Terminal),
            Ok(End::Stopped) => e is None,
            Ok(End::Lost) => e matches Some(StreamEnd::Lost),
            Err(x) => if x is Http {
                e matches Some(StreamEnd::Refused(m)) && m@ == api_error_text(x)
            } else {
                e matches Some(StreamEnd::Lost)
            },
        },
{
    match r {
        Ok(End::Terminal) => Some(StreamEnd::Terminal),
        Ok(End::Stopped) => None,
        Ok(End::Lost) => Some(StreamEnd::Lost),
        Err(x) => {
            let http = match &x {
                ApiError::Http { .. } => true,
                _ => false,
            };
            if http {
                Some(StreamEnd::Refused(x.message()))
            } else {
                Some(StreamEnd::Lost)
            }
        },
    }
}

/// Live state of one run stream (keyed by the id the stream was opened
/// with: the run id, or the job id while a turn is still queued).
pub struct Live {
    pub transcript: Transcript,
    /// Lifecycle word from events: queued, running, then the terminal type.
    pub phase: String,
    /// `run.completed` | `run.failed` | `run.blocked` once seen.
    pub terminal: Option<String>,
    pub waiting: bool,
    pub started: std::time::Instant,
    pub finished: Option<std::time::Instant>,
    pub stop: Option<std::sync::Arc<std::sync::atomic::AtomicBool>>,
    /// Stream was lost (engine restart): restart it on reconnect.
    pub lost: bool,
}

/// What the end of a card's stream does, from `o` to `n`: the stop flag
/// goes, the transcript, waiting flag and times stay. A terminal end marks
/// a run not yet over as ended; a lost stream marks the card lost and is
/// reopened (`rewatch`) while online and the run is not over; a refused
/// stream reads `unavailable: why` on a run not yet over.
pub open spec fn stream_ended(o: Live, n: Live, end: StreamEnd, online: bool, rewatch: bool) -> bool {
    &&& n.stop is None
    &&& n.transcript@ == o.transcript@
    &&& n.waiting == o.waiting
    &&& n.started == o.started
    &&& n.finished == o.finished
    &&& match end {
        StreamEnd::Terminal => {
            &&& !rewatch
            &&& n.lost == o.lost
            &&& if o.terminal is None {
                opt_view(n.terminal) == Some("run.ended"@) && n.phase@ == "ended"@
            } else {
                opt_view(n.terminal) == opt_view(o.terminal) && n.phase@ == o.phase@
            }
        },
        StreamEnd::Lost => {
            &&& n.lost
            &&& rewatch == (online && o.terminal is None)
            &&& opt_view(n.terminal) == opt_view(o.terminal)
            &&& n.phase@ == o.phase@
        },
        StreamEnd::Refused(why) => {
            &&& !rewatch
            &&& !n.lost
            &&& opt_view(n.terminal) == opt_view(o.terminal)
            &&& n.phase@ == if o.terminal is None {
                "unavailable: "@ + why@
            } else {
                o.phase@
            }
        },
    }
}

/// The event types that end a run.
pub open spec fn terminal_kind(k: Seq<char>) -> bool {
    k == "run.completed"@ || k == "run.failed"@ || k == "run.blocked"@
}

/// What an event's type does to a live card's phase, waiting flag and
/// terminal type: `(phase, terminal, waiting)`.
pub open spec fn live_after(phase: Seq<char>, terminal: Option<Seq<char>>, waiting: bool, k: Seq<char>) -> (Seq<char>, Option<Seq<char>>, bool) {
    if terminal_kind(k) {
        (k.subrange(4, k.len() as int), Some(k), false)
    } else if k == "run.created"@ || k == "harness.started"@ {
        ("running"@, terminal, waiting)
    } else if k == "interaction.requested"@ {
        (phase, terminal, true)
    } else if k == "interaction.answered"@ || k == "interaction.timeout"@ || k == "interaction.answer_discarded"@ {
        (phase, terminal, false)
    } else {
        (phase, terminal, waiting)
    }
}

pub open spec fn event_kind(ev: RunEvent) -> Seq<char> {
    match ev.kind {
        Some(k) => k@,
        None => Seq::empty(),
    }
}

impl Live {
    pub fn new() -> (l: Live)
        ensures
            l.transcript@ == fresh(200, 100_000, 600_000, 2_048),
            wf(l.transcript@),
            l.phase@ == "queued"@,
            l.terminal is None,
            !l.waiting,
            l.finished is None,
            l.stop is None,
            !l.lost,
    {
        Live {
            transcript: Transcript::default(),
            phase: String::from_str("queued"),
            terminal: None,
            waiting: false,
            started: instant_now(),
            finished: None,
            stop: None,
            lost: false,
        }
    }

    pub fn streaming(&self) -> (r: bool)
        ensures
            r == self.stop is Some,
    {
        self.stop.is_some()
    }

    /// Fold one stream event into the card: nothing for a replay at or
    /// below the cursor; else the transcript folds it and the event's type
    /// moves the phase. Returns whether it was folded.
    pub fn on_event(&mut self, seq: i64, ev: &RunEvent) -> (r: bool)
        requires
            apply_ok(old(self).transcript@, seq as int, *ev),
        ensures
            r == (seq > old(self).transcript@.last_seq),
            !r ==> final(self).transcript@ == old(self).transcript@ && final(self).phase@ == old(self).phase@
                && opt_view(final(self).terminal) == opt_view(old(self).terminal) && final(self).waiting == old(self).waiting,
            r ==> final(self).transcript@ == step(old(self).transcript@, seq as int, *ev).0,
            r ==> (final(self).phase@, opt_view(final(self).terminal), final(self).waiting) == live_after(
                old(self).phase@,
                opt_view(old(self).terminal),
                old(self).waiting,
                event_kind(*ev),
            ),
            r && terminal_kind(event_kind(*ev)) ==> final(self).finished is Some,
            wf(final(self).transcript@),
            final(self).lost == old(self).lost,
            final(self).stop == old(self).stop,
    {
        if seq <= self.transcript.cursor() {
            proof {
                crate::transcript::law_replay_is_ignored(self.transcript@, seq as int, *ev);
            }
            return false;
        }
        self.transcript.apply(seq, ev);
        proof {
            reveal_strlit("run.completed");
            reveal_strlit("run.failed");
            reveal_strlit("run.blocked");
        }
        let empty = String::new();
        let k: &str = match &ev.kind {
            Some(k) => k.as_str(),
            None => empty.as_str(),
        };
        if same_text(k, "run.completed") || same_text(k, "run.failed") || same_text(k, "run.blocked") {
            self.terminal = Some(String::from_str(k));
            let n = k.unicode_len();
            self.phase = String::from_str(k.substring_char(4, n));
            self.waiting = false;
            self.finished = Some(instant_now());
        } else if same_text(k, "run.created") || same_text(k, "harness.started") {
            self.phase = String::from_str("running");
        } else if same_text(k, "interaction.requested") {
            self.waiting = true;
        } else if same_text(k, "interaction.answered") || same_text(k, "interaction.timeout") || same_text(
            k,
            "interaction.answer_discarded",
        ) {
            self.waiting = false;
        }
        true
    }

    /// What the end of its stream does to the card (see `stream_ended`);
    /// true when the stream should be opened again in a second (lost while
    /// online, run not over).
    pub fn on_stream_end(&mut self, end: StreamEnd, online: bool) -> (rewatch: bool)
        ensures
            stream_ended(*old(self), *final(self), end, online, rewatch),
    {
        self.stop = None;
        match end {
            StreamEnd::Terminal => {
                if self.terminal.is_none() {
                    self.terminal = Some(String::from_str("run.ended"));
                    self.phase = String::from_str("ended");
                }
                false
            },
            StreamEnd::Lost => {
                self.lost = true;
                online && self.terminal.is_none()
            },
            StreamEnd::Refused(why) => {
                self.lost = false;
                if self.terminal.is_none() {
                    let mut p = String::from_str("unavailable: ");
                    p.append(why.as_str());
                    self.phase = p;
                }
                false
            },
        }
    }

    /// A lost stream to reopen: lost, and no stream running.
    pub fn needs_rewatch(&self) -> (r: bool)
        ensures
            r == (self.lost && self.stop is None),
    {
        self.lost && !self.streaming()
    }

    /// The cursor a reopened stream resumes from: the last folded seq, if any.
    pub fn resume_cursor(&self) -> (r: Option<String>)
        requires
            wf(self.transcript@),
        ensures
            match r {
                Some(c) => self.transcript@.last_seq > 0 && c@ == decimal(self.transcript@.last_seq as nat),
                None => self.transcript@.last_seq == 0,
            },
    {
        let s = self.transcript.cursor();
        if s > 0 {
            let mut c = String::new();
            push_decimal(s as u64, &mut c);
            proof {
                assert(c@ =~= decimal(self.transcript@.last_seq as nat));
            }
            Some(c)
        } else {
            None
        }
    }
}

#[derive(Debug, Clone)]
pub enum AnswerState {
    Loading,
    Ready(String),
    /// Terminal with no answer-like output (patch-only, diagnostic, no-change).
    Absent,
    Failed(String),
}

/// The answer state a finished fetch leaves.
pub fn answer_state(r: Result<Option<String>, ApiError>) -> (a: AnswerState)
    ensures
        match r {
            Ok(Some(t)) => a matches AnswerState::Ready(x) && x@ == t@,
            Ok(None) => a is Absent,
            Err(e) => a matches AnswerState::Failed(x) && x@ == api_error_text(e),
        },
{
    match r {
        Ok(Some(t)) => AnswerState::Ready(t),
        Ok(None) => AnswerState::Absent,
        Err(e) => AnswerState::Failed(e.message()),
    }
}

#[derive(Debug, Clone, PartialEq)]
pub struct Attachment {
    pub local: u64,
    pub name: String,
    pub size: u64,
    pub state: AttachState,
}

#[derive(Debug, Clone, PartialEq)]
pub enum AttachState {
    Uploading,
    Ready(String),
    Failed(String),
}

/// A desktop notification the app wants to show (main decides, by window
/// focus).
pub struct Notice {
    pub title: String,
    pub body: String,
}

/// The word a desktop notice leads with for an event type, if it warrants one.
pub open spec fn notice_word_of(k: Seq<char>) -> Option<Seq<char>> {
    if k == "run.completed"@ {
        Some("Done"@)
    } else if k == "run.blocked"@ {
        Some("Needs a decision"@)
    } else if k == "run.failed"@ {
        Some("Failed"@)
    } else if k == "interaction.requested"@ {
        Some("Needs your answer"@)
    } else {
        None
    }
}

/// Law: each of the four notice words belongs to exactly one event type:
/// "Done" only to a completed run, "Failed" only to a failed one, "Needs a
/// decision" only to a blocked one, "Needs your answer" only to a
/// requested interaction; every other event type has none. So the words
/// of the four kinds differ.
pub proof fn law_notice_words(k: Seq<char>)
    ensures
        (notice_word_of(k) == Some("Done"@)) == (k == "run.completed"@),
        (notice_word_of(k) == Some("Failed"@)) == (k == "run.failed"@),
        (notice_word_of(k) == Some("Needs a decision"@)) == (k == "run.blocked"@),
        (notice_word_of(k) == Some("Needs your answer"@)) == (k == "interaction.requested"@),
        notice_word_of(k) is Some == (k == "run.completed"@ || k == "run.failed"@ || k == "run.blocked"@ || k == "interaction.requested"@),
{
    reveal_strlit("Done");
    reveal_strlit("Failed");
    reveal_strlit("Needs a decision");
    reveal_strlit("Needs your answer");
    reveal_strlit("run.completed");
    reveal_strlit("run.failed");
    reveal_strlit("run.blocked");
    reveal_strlit("interaction.requested");
    assert("Done"@.len() == 4 && "Failed"@.len() == 6 && "Needs a decision"@.len() == 16 && "Needs your answer"@.len() == 17);
    assert("run.completed"@.len() == 13 && "run.failed"@.len() == 10 && "run.blocked"@.len() == 11);
    assert("interaction.requested"@.len() == 21);
    assert("Done"@ != "Failed"@ && "Done"@ != "Needs a decision"@ && "Done"@ != "Needs your answer"@);
    assert("Failed"@ != "Needs a decision"@ && "Failed"@ != "Needs your answer"@ && "Needs a decision"@ != "Needs your answer"@);
    assert("run.completed"@ != "run.failed"@ && "run.completed"@ != "run.blocked"@ && "run.completed"@ != "interaction.requested"@);
    assert("run.failed"@ != "run.blocked"@ && "run.failed"@ != "interaction.requested"@ && "run.blocked"@ != "interaction.requested"@);
}

/// The notice for a live transition: fresh events (under a minute old)
/// with a notice word; the body is the thread's title when known.
pub fn notice_for(kind: &str, fresh: bool, title: Option<String>) -> (r: Option<Notice>)
    ensures
        match (fresh, notice_word_of(kind@)) {
            (true, Some(w)) => r matches Some(n) && n.title@ == "Claudexor · "@ + w && n.body@ == match title {
                Some(t) => t@,
                None => "A run changed state"@,
            },
            _ => r is None,
        },
{
    let word: Option<&str> = if same_text(kind, "run.completed") {
        Some("Done")
    } else if same_text(kind, "run.blocked") {
        Some("Needs a decision")
    } else if same_text(kind, "run.failed") {
        Some("Failed")
    } else if same_text(kind, "interaction.requested") {
        Some("Needs your answer")
    } else {
        None
    };
    if !fresh {
        return None;
    }
    match word {
        Some(w) => {
            let mut t = String::from_str("Claudexor · ");
            t.append(w);
            let body = match title {
                Some(x) => x,
                None => String::from_str("A run changed state"),
            };
            Some(Notice { title: t, body })
        },
        None => None,
    }
}

/// An event at most a minute old by the wall clock: a live transition, not
/// a replay of an old run's log.
pub open spec fn fresh_at(ts: Option<i64>, now: int) -> bool {
    ts matches Some(t) && now - t < 60
}

/// Whether an event stamped `ts` (seconds) is fresh at `now`: at most a
/// minute old, so its transition is announced.
pub fn is_fresh(ts: Option<i64>, now: i64) -> (r: bool)
    ensures
        r == fresh_at(ts, now as int),
{
    match ts {
        Some(t) => (now as i128) - (t as i128) < 60,
        None => false,
    }
}

/// The event types whose arrival refreshes an open details section.
pub open spec fn deep_kind(k: Seq<char>) -> bool {
    starts(k, "gate."@) || starts(k, "review."@) || starts(k, "plan.progress"@) || starts(k, "route."@) || starts(k, "attempt."@)
}

pub open spec fn starts(t: Seq<char>, p: Seq<char>) -> bool {
    t.len() >= p.len() && t.subrange(0, p.len() as int) == p
}

fn text_starts(t: &str, p: &str) -> (r: bool)
    ensures
        r == starts(t@, p@),
{
    let pn = p.unicode_len();
    let tn = t.unicode_len();
    if tn < pn {
        return false;
    }
    same_text(t.substring_char(0, pn), p)
}

/// Whether an event of this type refreshes an open details section.
pub fn refreshes_details(kind: &str) -> (r: bool)
    ensures
        r == deep_kind(kind@),
{
    text_starts(kind, "gate.") || text_starts(kind, "review.") || text_starts(kind, "plan.progress") || text_starts(kind, "route.")
        || text_starts(kind, "attempt.")
}

/// Whether an event of this type ends its run.
pub fn ends_run(kind: &str) -> (r: bool)
    ensures
        r == terminal_kind(kind@),
{
    same_text(kind, "run.completed") || same_text(kind, "run.failed") || same_text(kind, "run.blocked")
}

/// In-app native login: the daemon runs the vendor CLI and publishes a
/// transient sign-in URL (and code) on the job snapshot.
pub struct Login {
    pub harness: String,
    pub job: Option<SetupJob>,
    pub disclosure: Option<DeviceCode>,
    pub error: Option<String>,
    /// The pasted one-time code. Held only until sent; never logged.
    pub code: String,
    pub code_sent: bool,
    pub polling: bool,
    pub last_poll: Option<std::time::Instant>,
    /// One automatic Extend per job.
    pub auto_extended: bool,
}

/// Under ten minutes left at `now` on a job that can still be extended,
/// and no automatic extension yet.
pub open spec fn auto_extend_due(l: Login, now: int) -> bool {
    &&& !l.auto_extended
    &&& open_job(l.job) is Some
    &&& !l.job.unwrap().deadline_fixed
    &&& match l.job.unwrap().deadline_at {
        Some(d) => match left_at(encode_utf8(d@), now) {
            Some(x) => x < 600,
            None => false,
        },
        None => false,
    }
}

/// The login's job, while it has not ended.
pub open spec fn open_job(j: Option<SetupJob>) -> Option<SetupJob> {
    match j {
        Some(job) => if job_terminal(job.state@) { None } else { Some(job) },
        None => None,
    }
}

impl Login {
    /// A fresh login for a harness: no job yet, nothing shown.
    pub fn new(harness: &str) -> (l: Login)
        ensures
            l.harness@ == harness@,
            l.job is None && l.disclosure is None && l.error is None,
            l.code@.len() == 0 && !l.code_sent && !l.polling && l.last_poll is None && !l.auto_extended,
    {
        Login {
            harness: String::from_str(harness),
            job: None,
            disclosure: None,
            error: None,
            code: String::new(),
            code_sent: false,
            polling: false,
            last_poll: None,
            auto_extended: false,
        }
    }

    /// A job came back from start, cancel or extend: adopt it and snapshot
    /// right away (for the sign-in link); or show the error.
    pub fn on_job(&mut self, r: Result<SetupJob, ApiError>)
        ensures
            match r {
                Ok(job) => final(self).job == Some(job) && final(self).last_poll is None
                    && final(self).error == old(self).error,
                Err(e) => final(self).job == old(self).job && final(self).last_poll == old(self).last_poll
                    && opt_view(final(self).error) == Some(api_error_text(e)),
            },
            final(self).disclosure == old(self).disclosure,
            final(self).code == old(self).code,
            final(self).code_sent == old(self).code_sent,
            final(self).polling == old(self).polling,
            final(self).auto_extended == old(self).auto_extended,
    {
        match r {
            Ok(job) => {
                self.job = Some(job);
                self.last_poll = None;
            },
            Err(e) => self.error = Some(e.message()),
        }
    }

    /// A snapshot came back: the job and its transient disclosure, or the
    /// error; either way the poll is over.
    pub fn on_snapshot(&mut self, r: Result<SetupSnapshot, ApiError>)
        ensures
            !final(self).polling,
            match r {
                Ok(snap) => final(self).job == Some(snap.job) && final(self).disclosure == snap.device_code
                    && final(self).error is None,
                Err(e) => final(self).job == old(self).job && final(self).disclosure == old(self).disclosure
                    && opt_view(final(self).error) == Some(api_error_text(e)),
            },
            final(self).code == old(self).code,
            final(self).code_sent == old(self).code_sent,
            final(self).auto_extended == old(self).auto_extended,
            final(self).last_poll == old(self).last_poll,
    {
        self.polling = false;
        match r {
            Ok(snap) => {
                self.disclosure = snap.device_code;
                self.job = Some(snap.job);
                self.error = None;
            },
            Err(e) => self.error = Some(e.message()),
        }
    }

    /// The pasted code was answered: the job, or a refusal that lets the
    /// user paste again; either way snapshot right away.
    pub fn on_input(&mut self, r: Result<SetupJob, ApiError>)
        ensures
            final(self).last_poll is None,
            match r {
                Ok(job) => final(self).job == Some(job) && final(self).code_sent == old(self).code_sent
                    && final(self).error == old(self).error,
                Err(e) => final(self).job == old(self).job && !final(self).code_sent
                    && opt_view(final(self).error) == Some("code not accepted: "@ + api_error_text(e)),
            },
            final(self).disclosure == old(self).disclosure,
            final(self).code == old(self).code,
            final(self).polling == old(self).polling,
            final(self).auto_extended == old(self).auto_extended,
    {
        match r {
            Ok(job) => self.job = Some(job),
            Err(e) => {
                self.code_sent = false;
                let mut m = String::from_str("code not accepted: ");
                let t = e.message();
                m.append(t.as_str());
                self.error = Some(m);
            },
        }
        self.last_poll = None;
    }

    /// After a job update: once the job has ended its sign-in link is gone
    /// (never show a stale one). True when it has ended, so readiness,
    /// models and quota get reloaded.
    pub fn settle(&mut self) -> (done: bool)
        ensures
            done == (old(self).job matches Some(j) && job_terminal(j.state@)),
            done ==> final(self).disclosure is None,
            !done ==> final(self).disclosure == old(self).disclosure,
            final(self).job == old(self).job,
            final(self).error == old(self).error,
            final(self).code == old(self).code,
    {
        let done = match &self.job {
            Some(j) => j.terminal(),
            None => false,
        };
        if done {
            self.disclosure = None;
        }
        done
    }

    /// Hand over the pasted code: with a job and a code that is not blank,
    /// forget the code (never keep the secret after sending it), mark it
    /// sent and give back the job id and the trimmed code.
    pub fn take_code(&mut self) -> (r: Option<(String, String)>)
        ensures
            match old(self).job {
                Some(j) if !is_blank(old(self).code@) => r matches Some((id, code)) && id@ == j.job_id@
                    && code@ == trim_spec(old(self).code@) && final(self).code@.len() == 0 && final(self).code_sent
                    && final(self).error is None,
                _ => r is None && final(self).code == old(self).code && final(self).code_sent == old(self).code_sent
                    && final(self).error == old(self).error,
            },
            final(self).job == old(self).job,
    {
        let id = match &self.job {
            Some(j) => j.job_id.clone(),
            None => return None,
        };
        let code = String::from_str(trim(self.code.as_str()));
        if code.as_str().unicode_len() == 0 {
            return None;
        }
        self.code = String::new();
        self.code_sent = true;
        self.error = None;
        Some((id, code))
    }

    /// The job a Cancel goes to: one that has not ended.
    pub fn cancelable_job(&self) -> (r: Option<String>)
        ensures
            match open_job(self.job) {
                Some(j) => r matches Some(id) && id@ == j.job_id@,
                None => r is None,
            },
    {
        match &self.job {
            Some(j) => if j.terminal() {
                None
            } else {
                Some(j.job_id.clone())
            },
            None => None,
        }
    }

    /// The job an Extend goes to: one that has not ended and whose deadline
    /// the vendor does not own.
    pub fn extendable_job(&self) -> (r: Option<String>)
        ensures
            match open_job(self.job) {
                Some(j) if !j.deadline_fixed => r matches Some(id) && id@ == j.job_id@,
                _ => r is None,
            },
    {
        match &self.job {
            Some(j) => if j.terminal() || j.deadline_fixed {
                None
            } else {
                Some(j.job_id.clone())
            },
            None => None,
        }
    }

    /// A rejoined job may be minutes from its deadline: extend it once, up
    /// front, when under ten minutes remain at `now`.
    pub fn needs_auto_extend_at(&self, now: i64) -> (r: bool)
        requires
            -CLOCK_LIMIT < now < CLOCK_LIMIT,
        ensures
            r == auto_extend_due(*self, now as int),
    {
        if self.auto_extended {
            return false;
        }
        match &self.job {
            Some(j) => {
                if j.terminal() || j.deadline_fixed {
                    return false;
                }
                let d: Option<&str> = match &j.deadline_at {
                    Some(d) => Some(d.as_str()),
                    None => None,
                };
                match secs_left_at(d, now) {
                    Some(x) => x < 600,
                    None => false,
                }
            },
            None => false,
        }
    }

    /// The login is still going: no job yet, or a job that has not ended.
    pub fn active(&self) -> (r: bool)
        ensures
            r == match self.job {
                Some(j) => !job_terminal(j.state@),
                None => true,
            },
    {
        match &self.job {
            Some(j) => !j.terminal(),
            None => true,
        }
    }
}

/// Seconds from `now` until a deadline's unix seconds.
pub open spec fn left_at(deadline: Seq<u8>, now: int) -> Option<int> {
    match iso_seconds(deadline) {
        Some(t) => Some(t - now),
        None => None,
    }
}

/// Seconds from `now` until an ISO deadline (negative when past); `None`
/// when there is no deadline or it does not parse.
pub fn secs_left_at(deadline: Option<&str>, now: i64) -> (r: Option<i64>)
    requires
        -CLOCK_LIMIT < now < CLOCK_LIMIT,
    ensures
        match deadline {
            Some(d) => match iso_seconds(d.spec_bytes()) {
                Some(t) => r matches Some(x) && x == t - now,
                None => r is None,
            },
            None => r is None,
        },
{
    match deadline {
        Some(d) => match parse_iso(d) {
            Some(t) => Some(t - now),
            None => None,
        },
        None => None,
    }
}

/// Seconds until an ISO deadline by the wall clock (negative when past);
/// `None` when there is none, it does not parse, or the clock reads
/// `CLOCK_LIMIT` or later.
pub fn secs_left(deadline: Option<&str>) -> (r: Option<i64>)
    ensures
        r matches Some(x) ==> exists|now: int| 0 <= now < CLOCK_LIMIT && #[trigger] left_at(deadline.unwrap().spec_bytes(), now) == Some(x as int),
        deadline is None ==> r is None,
        deadline matches Some(d) && iso_seconds(d.spec_bytes()) is None ==> r is None,
{
    let now = now_unix();
    if now >= CLOCK_LIMIT {
        return None;
    }
    let r = secs_left_at(deadline, now);
    proof {
        if let Some(x) = r {
            assert(left_at(deadline.unwrap().spec_bytes(), now as int) == Some(x as int));
        }
    }
    r
}

/// The composer's modes, by index.
pub open spec fn mode_text(i: usize) -> Seq<char> {
    if i == 0 {
        "ask"@
    } else if i == 1 {
        "plan"@
    } else {
        "agent"@
    }
}

/// The composer's draft and per-turn choices.
#[derive(Default)]
pub struct Composer {
    pub text: String,
    /// Index into the modes: 0 ask, 1 plan, 2 agent.
    pub mode: usize,
    pub harness: Option<String>,
    pub model: Option<String>,
    pub effort: Option<String>,
    /// Project root for a draft (new) thread; bound thread roots win.
    pub project: Option<String>,
    pub sending: bool,
    /// Pin the turn to one account (credential profile); None = automatic routing.
    pub account: Option<String>,
    pub attachments: Vec<Attachment>,
    /// In-flight native file picker / screen capture.
    pub picking: bool,
    /// Draft thread only: keep turns in a persistent thread worktree.
    pub isolated: bool,
    /// The "Options" knobs (strategy, access, review, budget, …).
    pub opts: TurnOpts,
}

impl Composer {
    /// The mode the composer sends (an index past the end is agent).
    pub fn current_mode(&self) -> (r: &'static str)
        ensures
            r@ == mode_text(self.mode),
    {
        if self.mode == 0 {
            "ask"
        } else if self.mode == 1 {
            "plan"
        } else {
            "agent"
        }
    }

    /// The draft is what was just sent (up to surrounding whitespace), so
    /// it can be cleared.
    pub fn holds_sent(&self, prompt: Option<&str>) -> (r: bool)
        ensures
            r == (prompt matches Some(p) && trim_spec(self.text@) == trim_spec(p@)),
    {
        match prompt {
            Some(p) => same_text(trim(self.text.as_str()), trim(p)),
            None => false,
        }
    }
}

/// The access an Agent turn runs with: the explicit pick, else the repo's
/// default (read-only or full), else workspace-write.
pub open spec fn access_for(pick: Option<&'static str>, repo_default: Option<Seq<char>>) -> Seq<char> {
    match pick {
        Some(a) => a@,
        None => match repo_default {
            Some(d) => if d == "readonly"@ {
                "readonly"@
            } else if d == "full"@ {
                "full"@
            } else {
                "workspace_write"@
            },
            None => "workspace_write"@,
        },
    }
}

pub fn effective_access(pick: Option<&'static str>, repo_default: Option<&str>) -> (r: &'static str)
    ensures
        r@ == access_for(pick, match repo_default {
            Some(d) => Some(d@),
            None => None,
        }),
{
    match pick {
        Some(a) => a,
        None => match repo_default {
            Some(d) => if same_text(d, "readonly") {
                "readonly"
            } else if same_text(d, "full") {
                "full"
            } else {
                "workspace_write"
            },
            None => "workspace_write",
        },
    }
}

/// The mode a turn is sent in: a thread without a project is Ask-only.
pub open spec fn send_mode_text(has_root: bool, mode: usize) -> Seq<char> {
    if has_root {
        mode_text(mode)
    } else {
        "ask"@
    }
}

pub fn send_mode(has_root: bool, mode: usize) -> (r: &'static str)
    ensures
        r@ == send_mode_text(has_root, mode),
{
    if !has_root {
        "ask"
    } else if mode == 0 {
        "ask"
    } else if mode == 1 {
        "plan"
    } else {
        "agent"
    }
}

/// Why the options block Send: their own error (a bad panel or budget),
/// else full access the repo has not granted.
pub open spec fn options_problem_text(opts: TurnOpts, mode: Seq<char>, access: Seq<char>, budget_positive: bool, full_granted: bool) -> Option<Seq<char>> {
    let probe = TurnRequestV {
        prompt: Seq::empty(),
        mode,
        primary_harness: None,
        model: None,
        effort: None,
        credential_profile_id: None,
        attachments: Seq::empty(),
        answers_plan_run_id: None,
        plan_run_id: None,
        override_plan_readiness: None,
        access: None,
        harnesses: Seq::empty(),
        n: None,
        attempts: None,
        until_clean: None,
        create: None,
        council: None,
        deep_scan: None,
        delegate: None,
        paid_budget: None,
        models: Seq::empty(),
        review: None,
        reviewer_panel: Seq::empty(),
        web: None,
        browser: None,
        auth_preference: None,
    };
    match opts_apply(opts, probe, access, budget_positive).1 {
        Some(e) => Some(e),
        None => if mode == "agent"@ && (opts.access matches Some(a) && a@ == "full"@) && !full_granted {
            Some("Full access needs a grant for this repo (Options)"@)
        } else {
            None
        },
    }
}

/// Why the options block Send, if they do.
pub fn options_problem(opts: &TurnOpts, mode: &str, access: &str, budget_positive: bool, full_granted: bool) -> (r: Option<String>)
    requires
        opts.pool@.len() <= u32::MAX,
    ensures
        opt_view(r) == options_problem_text(*opts, mode@, access@, budget_positive, full_granted),
{
    let mut probe = TurnRequest::new("", mode);
    proof {
        reveal_strlit("");
        assert(probe@.attachments =~= Seq::<Seq<char>>::empty());
        assert(probe@.harnesses =~= Seq::<Seq<char>>::empty());
        assert(probe@.models =~= Seq::<(Seq<char>, Seq<char>)>::empty());
        assert(probe@.reviewer_panel =~= Seq::<(Seq<char>, Option<Seq<char>>, Option<Seq<char>>)>::empty());
    }
    match opts.apply(&mut probe, access, budget_positive) {
        Err(e) => return Some(e),
        Ok(()) => {},
    }
    let full = match opts.access {
        Some(a) => same_text(a, "full"),
        None => false,
    };
    if same_text(mode, "agent") && full && !full_granted {
        proof {
            assert(probe@.prompt =~= Seq::<char>::empty());
        }
        return Some(String::from_str("Full access needs a grant for this repo (Options)"));
    }
    None
}

pub open spec fn is_uploading(a: Attachment) -> bool {
    a.state is Uploading
}

/// The first line of a text, without its line ending.
pub open spec fn first_line(s: Seq<char>) -> Seq<char> {
    let k = find_char(s, '\n');
    if k < 0 {
        s
    } else {
        let l = s.subrange(0, k);
        if l.len() > 0 && l.last() == '\r' {
            l.drop_last()
        } else {
            l
        }
    }
}

/// The ids of the attachments that finished uploading, in order.
pub open spec fn ready_ids(a: Seq<Attachment>) -> Seq<Seq<char>>
    decreases a.len(),
{
    if a.len() == 0 {
        Seq::empty()
    } else {
        let rest = ready_ids(a.drop_last());
        match a.last().state {
            AttachState::Ready(id) => rest.push(id@),
            _ => rest,
        }
    }
}

impl Composer {
    /// The composer holds a sendable draft: not sending, words typed, and
    /// no attachment still uploading (one the model never saw must never
    /// look delivered).
    pub fn ready_to_send(&self) -> (r: bool)
        ensures
            r == (!self.sending && !is_blank(self.text@) && forall|i: int| 0 <= i < self.attachments@.len() ==> !is_uploading(#[trigger] self.attachments@[i])),
    {
        if self.sending || blank(self.text.as_str()) {
            return false;
        }
        let mut i: usize = 0;
        while i < self.attachments.len()
            invariant
                i <= self.attachments@.len(),
                forall|k: int| 0 <= k < i ==> !is_uploading(#[trigger] self.attachments@[k]),
            decreases self.attachments@.len() - i,
        {
            match &self.attachments[i].state {
                AttachState::Uploading => return false,
                _ => {},
            }
            i = i + 1;
        }
        true
    }

    /// The request the draft makes in `mode`, before the options: the
    /// trimmed text, the harness, and model, effort and account only with a
    /// harness; the uploaded attachments.
    pub fn request(&self, mode: &str) -> (r: TurnRequest)
        ensures
            r@.prompt == trim_spec(self.text@),
            r@.mode == mode@,
            r@.primary_harness == opt_view(self.harness),
            r@.model == if self.harness is Some { opt_view(self.model) } else { None },
            r@.effort == if self.harness is Some { opt_view(self.effort) } else { None },
            r@.credential_profile_id == if self.harness is Some { opt_view(self.account) } else { None },
            r@.attachments == ready_ids(self.attachments@),
            no_options(r),
    {
        let mut req = TurnRequest::new(trim(self.text.as_str()), mode);
        req.primary_harness = clone_opt_string(&self.harness);
        if self.harness.is_some() {
            req.model = clone_opt_string(&self.model);
            req.effort = clone_opt_string(&self.effort);
            req.credential_profile_id = clone_opt_string(&self.account);
        }
        let mut ids: Vec<ResourceRef> = Vec::new();
        let mut i: usize = 0;
        while i < self.attachments.len()
            invariant
                i <= self.attachments@.len(),
                ids@.map_values(|r: ResourceRef| r.resource_id@) == ready_ids(self.attachments@.subrange(0, i as int)),
            decreases self.attachments@.len() - i,
        {
            let ghost before = ids@;
            proof {
                assert(self.attachments@.subrange(0, i + 1).drop_last() =~= self.attachments@.subrange(0, i as int));
            }
            match &self.attachments[i].state {
                AttachState::Ready(id) => {
                    ids.push(ResourceRef { resource_id: id.clone() });
                    proof {
                        assert(ids@.map_values(|r: ResourceRef| r.resource_id@) =~= before.map_values(|r: ResourceRef| r.resource_id@).push(id@));
                    }
                },
                _ => {},
            }
            i = i + 1;
        }
        proof {
            assert(self.attachments@.subrange(0, self.attachments@.len() as int) =~= self.attachments@);
        }
        req.attachments = ids;
        req
    }

    /// An upload finished: the first attachment with that local id gets its
    /// resource id, or the error.
    pub fn on_uploaded(&mut self, local: u64, r: Result<Resource, String>)
        ensures
            final(self).attachments@.len() == old(self).attachments@.len(),
            forall|i: int| 0 <= i < old(self).attachments@.len() ==> {
                let a = #[trigger] final(self).attachments@[i];
                let o = old(self).attachments@[i];
                &&& a.local == o.local
                &&& a.name == o.name
                &&& a.size == o.size
                &&& if o.local == local && (forall|k: int| 0 <= k < i ==> old(self).attachments@[k].local != local) {
                    match r {
                        Ok(res) => a.state matches AttachState::Ready(id) && id@ == res.resource_id@,
                        Err(e) => a.state matches AttachState::Failed(m) && m@ == e@,
                    }
                } else {
                    a == o
                }
            },
    {
        let mut i: usize = 0;
        while i < self.attachments.len()
            invariant
                i <= self.attachments@.len(),
                self.attachments@ == old(self).attachments@,
                forall|k: int| 0 <= k < i ==> self.attachments@[k].local != local,
            decreases self.attachments@.len() - i,
        {
            if self.attachments[i].local == local {
                let state = match r {
                    Ok(res) => AttachState::Ready(res.resource_id),
                    Err(e) => AttachState::Failed(e),
                };
                let old_a = self.attachments.remove(i);
                let a = Attachment { local: old_a.local, name: old_a.name, size: old_a.size, state };
                self.attachments.insert(i, a);
                proof {
                    assert forall|j: int| 0 <= j < old(self).attachments@.len() && j != i implies #[trigger] self.attachments@[j] == old(self).attachments@[j] by {}
                }
                return;
            }
            i = i + 1;
        }
    }

    /// Drop the attachment with this local id.
    pub fn remove_attachment(&mut self, local: u64)
        ensures
            final(self).attachments@ == old(self).attachments@.filter(|a: Attachment| a.local != local),
            final(self).text == old(self).text,
            final(self).sending == old(self).sending,
    {
        let ghost all = self.attachments@;
        let ghost f = |a: Attachment| a.local != local;
        let mut i: usize = 0;
        let ghost mut j: int = 0;
        proof {
            assert(all.subrange(0, 0).filter(f) =~= Seq::<Attachment>::empty());
            assert(all.subrange(0, all.len() as int) =~= all);
        }
        while i < self.attachments.len()
            invariant
                0 <= i <= j <= all.len(),
                self.attachments@.len() == i + (all.len() - j),
                self.attachments@.subrange(0, i as int) == all.subrange(0, j).filter(f),
                self.attachments@.subrange(i as int, self.attachments@.len() as int) == all.subrange(j, all.len() as int),
                self.text == old(self).text,
                self.sending == old(self).sending,
                f == (|a: Attachment| a.local != local),
            decreases self.attachments@.len() - i,
        {
            let ghost cur = self.attachments@;
            proof {
                assert forall|k: int| i <= k < cur.len() implies #[trigger] cur[k] == all[j + (k - i)] by {
                    assert(cur.subrange(i as int, cur.len() as int)[k - i] == all.subrange(j, all.len() as int)[k - i]);
                }
                assert(cur[i as int] == all[j]) by {
                    assert(cur.subrange(i as int, cur.len() as int)[0] == cur[i as int]);
                }
                assert(all.subrange(0, j + 1) =~= all.subrange(0, j).push(all[j]));
                all.subrange(0, j).lemma_filter_push(all[j], f);
            }
            if self.attachments[i].local == local {
                self.attachments.remove(i);
                proof {
                    assert(self.attachments@.subrange(0, i as int) =~= cur.subrange(0, i as int));
                    assert(self.attachments@.subrange(i as int, self.attachments@.len() as int) =~= all.subrange(j + 1, all.len() as int));
                }
            } else {
                proof {
                    assert(cur.subrange(0, i + 1) =~= cur.subrange(0, i as int).push(cur[i as int]));
                    assert(cur.subrange(i + 1, cur.len() as int) =~= all.subrange(j + 1, all.len() as int));
                }
                i = i + 1;
            }
            proof {
                j = j + 1;
            }
        }
        proof {
            assert(self.attachments@.subrange(0, i as int) =~= self.attachments@);
            assert(all.subrange(0, j) =~= all);
        }
    }
}

fn clone_opt_string(o: &Option<String>) -> (r: Option<String>)
    ensures
        opt_view(r) == opt_view(*o),
{
    match o {
        Some(s) => Some(s.clone()),
        None => None,
    }
}

/// Largest file read into memory for one attachment.
pub const MAX_ATTACHMENT: u64 = 26_214_400;

/// The state a picked file starts in: uploading, or refused when larger
/// than the attachment limit.
pub fn attach_state(size: u64) -> (r: AttachState)
    ensures
        size > MAX_ATTACHMENT ==> (r matches AttachState::Failed(m) && m@ == "larger than 25 MB"@),
        size <= MAX_ATTACHMENT ==> r is Uploading,
{
    if size > MAX_ATTACHMENT {
        AttachState::Failed(String::from_str("larger than 25 MB"))
    } else {
        AttachState::Uploading
    }
}

/// The thread a draft creates for its first turn: titled by its first line
/// (at most 80 characters), in the project when there is one.
pub fn draft_thread(req: &TurnRequest, project: &Option<String>, harness: &Option<String>, isolated: bool) -> (r: CreateThread)
    ensures
        opt_view(r.title) == Some(first_line(req.prompt@).take(if first_line(req.prompt@).len() < 80 { first_line(req.prompt@).len() as int } else { 80 })),
        match *project {
            Some(root) => r.scope matches Scope::Project { root: x, context } && x@ == root@ && context@ == "auto"@,
            None => r.scope is NoProject,
        },
        opt_view(r.mode) == Some(req.mode@),
        opt_view(r.primary_harness) == opt_view(*harness),
        opt_view(r.workspace) == if isolated { Some("isolated"@) } else { None },
{
    let v = chars_vec(req.prompt.as_str());
    let k = find_from(&v, 0, '\n');
    proof {
        assert(v@.subrange(0, v@.len() as int) =~= req.prompt@);
    }
    let mut end = k;
    if k < v.len() && k > 0 && v[k - 1] == '\r' {
        end = k - 1;
    }
    let take = if end < 80 { end } else { 80 };
    let title = String::from_str(req.prompt.as_str().substring_char(0, take));
    proof {
        let l = first_line(req.prompt@);
        if k == v@.len() {
            assert(l == req.prompt@);
        } else {
            assert(l =~= req.prompt@.subrange(0, end as int));
        }
        assert(title@ =~= l.take(take as int));
    }
    let scope = match project {
        Some(root) => Scope::Project { root: root.clone(), context: "auto" },
        None => Scope::NoProject,
    };
    CreateThread {
        title: Some(title),
        scope,
        mode: Some(req.mode.clone()),
        primary_harness: clone_opt_string(harness),
        workspace: if isolated { Some(String::from_str("isolated")) } else { None },
    }
}

/// A run still going by its card: queued or running.
pub open spec fn card_active(state: Seq<char>) -> bool {
    state == "queued"@ || state == "running"@
}

/// The head turn is live: not once its stream saw the run end; else while
/// its card is queued or running; else while a stream exists for it.
pub open spec fn head_is_live(run_state: Option<Seq<char>>, live: Option<bool>) -> bool {
    match (run_state, live) {
        (_, Some(ended)) if ended => false,
        (Some(st), _) => card_active(st),
        (None, Some(_)) => true,
        (None, None) => false,
    }
}

/// Whether the thread's head turn is live; `run_state` is its card's
/// state, `live` its stream card.
pub fn head_active(run_state: Option<&str>, live: Option<&Live>) -> (r: bool)
    ensures
        r == head_is_live(match run_state {
            Some(s) => Some(s@),
            None => None,
        }, match live {
            Some(l) => Some(l.terminal is Some),
            None => None,
        }),
{
    match live {
        Some(l) => if l.terminal.is_some() {
            return false;
        },
        None => {},
    }
    match run_state {
        Some(st) => same_text(st, "queued") || same_text(st, "running"),
        None => live.is_some(),
    }
}

/// A turn the fallback poll waits on: pending by its card (or no card
/// yet), not refused, and no stream that will report it.
pub fn turn_needs_poll(run_state: Option<&str>, refused: bool, live: Option<&Live>) -> (r: bool)
    ensures
        r == ((match run_state {
            Some(s) => card_active(s@),
            None => true,
        }) && !refused && match live {
            Some(l) => l.stop is None && l.terminal is None,
            None => true,
        }),
{
    let pending = match run_state {
        Some(st) => same_text(st, "queued") || same_text(st, "running"),
        None => true,
    };
    let quiet = match live {
        Some(l) => !l.streaming() && l.terminal.is_none(),
        None => true,
    };
    pending && !refused && quiet
}

/// Whether a fresh detail starts a stream for a turn: its card is queued
/// or running and no stream has seen the run end.
pub fn should_watch(run_state: &str, known_ended: bool) -> (r: bool)
    ensures
        r == (card_active(run_state@) && !known_ended),
{
    (same_text(run_state, "queued") || same_text(run_state, "running")) && !known_ended
}

/// The first step of finding a run's answer.
#[derive(Debug, Clone, PartialEq)]
pub enum AnswerStep {
    /// The inline output is the answer.
    Answer(String),
    /// There is no answer-like output (a patch, a diagnostic).
    NoAnswer,
    /// Look for an answer file.
    TryFiles,
}

/// What the run's inline output says of its answer: a diagnostic run has
/// none; a non-blank inline text is the answer unless it is a patch or a
/// diagnostic (a bounded preview points at the full file).
pub open spec fn inline_answer_text(diagnostic: bool, p: Option<PrimaryOutput>) -> Option<Option<Seq<char>>> {
    match p {
        Some(o) if o.text is Some && !is_blank(o.text.unwrap()@) => {
            if o.kind@ == "patch"@ || o.kind@ == "diagnostic"@ || diagnostic {
                Some(None)
            } else if o.truncated {
                Some(Some(o.text.unwrap()@ + "\n\n_Inline preview bounded; open `"@ + o.path@ + "` for the full output._"@))
            } else {
                Some(Some(o.text.unwrap()@))
            }
        },
        _ => if diagnostic {
            Some(None)
        } else {
            None
        },
    }
}

/// The first step of finding a run's answer from its output-ready state
/// and its inline output.
pub fn inline_answer(output_ready_state: Option<&str>, primary: &Option<PrimaryOutput>) -> (r: AnswerStep)
    ensures
        match inline_answer_text(output_ready_state matches Some(s) && s@ == "diagnostic"@, *primary) {
            Some(Some(t)) => r matches AnswerStep::Answer(x) && x@ == t,
            Some(None) => r is NoAnswer,
            None => r is TryFiles,
        },
{
    let diagnostic = match output_ready_state {
        Some(s) => same_text(s, "diagnostic"),
        None => false,
    };
    match primary {
        Some(p) => match &p.text {
            Some(t) => {
                if !blank(t.as_str()) {
                    if same_text(p.kind.as_str(), "patch") || same_text(p.kind.as_str(), "diagnostic") || diagnostic {
                        return AnswerStep::NoAnswer;
                    }
                    let mut text = t.clone();
                    if p.truncated {
                        text.append("\n\n_Inline preview bounded; open `");
                        text.append(p.path.as_str());
                        text.append("` for the full output._");
                    }
                    return AnswerStep::Answer(text);
                }
            },
            None => {},
        },
        None => {},
    }
    if diagnostic {
        AnswerStep::NoAnswer
    } else {
        AnswerStep::TryFiles
    }
}

/// The files a run's answer may be in, in the order they are tried.
pub open spec fn answer_paths() -> Seq<Seq<char>> {
    seq!["final/answer.md"@, "final/report.md"@, "final/plan.md"@, "final/explore.md"@]
}

/// The `i`-th answer file to try, if there is one.
pub fn answer_path(i: usize) -> (r: Option<&'static str>)
    ensures
        match r {
            Some(p) => i < answer_paths().len() && p@ == answer_paths()[i as int],
            None => i >= answer_paths().len(),
        },
{
    if i == 0 {
        Some("final/answer.md")
    } else if i == 1 {
        Some("final/report.md")
    } else if i == 2 {
        Some("final/plan.md")
    } else if i == 3 {
        Some("final/explore.md")
    } else {
        None
    }
}

/// What one answer-file fetch decides: `Some` ends the search (with the
/// answer, or the error); `None` goes on to the next file (blank, or
/// missing: HTTP 404 or 410).
pub fn file_answer(r: Result<String, ApiError>) -> (d: Option<Result<Option<String>, ApiError>>)
    ensures
        match r {
            Ok(t) => if is_blank(t@) { d is None } else { d matches Some(Ok(Some(x))) && x@ == t@ },
            Err(e) => if e matches ApiError::Http { status, .. } && (status == 404 || status == 410) {
                d is None
            } else {
                d matches Some(Err(x)) && x == e
            },
        },
{
    match r {
        Ok(t) => if blank(t.as_str()) {
            None
        } else {
            Some(Ok(Some(t)))
        },
        Err(e) => {
            let missing = match &e {
                ApiError::Http { status, .. } => *status == 404 || *status == 410,
                _ => false,
            };
            if missing {
                None
            } else {
                Some(Err(e))
            }
        },
    }
}

/// A rename's title: the trimmed text, unless it is blank.
pub fn rename_title(title: &str) -> (r: Option<String>)
    ensures
        match r {
            Some(t) => !is_blank(title@) && t@ == trim_spec(title@),
            None => is_blank(title@),
        },
{
    let t = trim(title);
    if t.unicode_len() == 0 {
        None
    } else {
        Some(String::from_str(t))
    }
}

/// A character kept in a profile slug: ASCII letter or digit.
pub open spec fn name_char(c: char) -> bool {
    ('0' <= c <= '9') || ('a' <= c <= 'z') || ('A' <= c <= 'Z')
}

/// Dashes squeezed: none leading or trailing, runs of them made one.
/// `out` is what was kept so far; `gap` says a dash is owed before the
/// next kept character.
pub open spec fn squeeze_from(out: Seq<char>, gap: bool, s: Seq<char>) -> Seq<char>
    decreases s.len(),
{
    if s.len() == 0 {
        out
    } else if !name_char(s[0]) {
        squeeze_from(out, out.len() > 0, s.drop_first())
    } else {
        let o = if gap { out.push('-') } else { out };
        squeeze_from(o.push(s[0]), false, s.drop_first())
    }
}

/// The slug of an account name: trimmed, lowercased, every run of
/// characters other than ASCII letters and digits made one dash, none at
/// either end.
pub open spec fn slug_of(name: Seq<char>) -> Seq<char> {
    squeeze_from(Seq::empty(), false, lowercase(trim_spec(name)))
}

/// The slug of an account name.
pub fn slug(name: &str) -> (r: String)
    ensures
        r@ == slug_of(name@),
{
    let low = lowercase_text(trim(name));
    let v = chars_vec(low.as_str());
    let mut out = String::new();
    let mut gap = false;
    let mut i: usize = 0;
    proof {
        assert(v@.skip(0) =~= v@);
    }
    while i < v.len()
        invariant
            i <= v@.len(),
            v@ == lowercase(trim_spec(name@)),
            v@ == low@,
            slug_of(name@) == squeeze_from(out@, gap, v@.skip(i as int)),
        decreases v@.len() - i,
    {
        let c = v[i];
        let ghost out0 = out@;
        let ghost gap0 = gap;
        proof {
            assert(v@.skip(i as int)[0] == c);
            assert(v@.skip(i as int).drop_first() =~= v@.skip(i + 1));
        }
        if ('0' <= c && c <= '9') || ('a' <= c && c <= 'z') || ('A' <= c && c <= 'Z') {
            if gap {
                out.append("-");
            }
            out.append(low.as_str().substring_char(i, i + 1));
            proof {
                reveal_strlit("-");
                assert(v@.subrange(i as int, i + 1) =~= seq![c]);
                assert(out@ =~= (if gap0 { out0.push('-') } else { out0 }).push(c));
            }
            gap = false;
        } else {
            gap = out.unicode_len() > 0;
        }
        i = i + 1;
    }
    proof {
        assert(v@.skip(i as int).len() == 0);
    }
    out
}

/// The profile id a new account gets: `harness-slug`, or `harness-n` with
/// the running local counter when the name leaves no slug.
pub fn profile_for(harness: &str, name: &str, next_local: u64) -> (r: String)
    ensures
        r@ == harness@ + seq!['-'] + if slug_of(name@).len() == 0 { decimal(next_local as nat) } else { slug_of(name@) },
{
    let sl = slug(name);
    let mut out = String::from_str(harness);
    out.append("-");
    proof {
        reveal_strlit("-");
    }
    if sl.unicode_len() == 0 {
        push_decimal(next_local, &mut out);
    } else {
        out.append(sl.as_str());
    }
    out
}

/// What a trust reply does to the repo's entry.
#[derive(Debug, PartialEq)]
pub enum TrustStep {
    /// Store this entry: the state (none when the repo has no trust file
    /// yet), or the error text.
    Store(Result<Option<TrustState>, String>),
    /// A failed grant: the entry we had stays, and this error is shown.
    Keep(String),
}

/// A trust reply (the repo's state, or none when it has no trust file
/// yet) for a repo whose entry was `had_ok` (a reply we hold): a failure
/// then keeps it and reports `Trust: ...`; anything else is stored.
pub fn trust_step(had_ok: bool, r: Result<Option<TrustState>, ApiError>) -> (s: TrustStep)
    ensures
        match (r, s) {
            (Ok(t), TrustStep::Store(Ok(u))) => u == t,
            (Err(e), TrustStep::Keep(m)) => had_ok && m@ == "Trust: "@ + api_error_text(e),
            (Err(e), TrustStep::Store(Err(m))) => !had_ok && m@ == api_error_text(e),
            _ => false,
        },
{
    match r {
        Ok(t) => TrustStep::Store(Ok(t)),
        Err(e) => {
            let m = e.message();
            if had_ok {
                let mut out = String::from_str("Trust: ");
                out.append(m.as_str());
                TrustStep::Keep(out)
            } else {
                TrustStep::Store(Err(m))
            }
        },
    }
}

/// First wait after a failed connection, in milliseconds.
pub const BACKOFF_FIRST_MS: u64 = 500;
/// Longest wait between connection attempts, in milliseconds.
pub const BACKOFF_MAX_MS: u64 = 3000;

/// The connection supervisor's memory between attempts: the next backoff,
/// the journal cursor to resume from, and whether it already started the
/// engine once.
pub struct Supervisor {
    pub backoff_ms: u64,
    pub cursor: Option<String>,
    pub auto_started: bool,
}

/// What the supervisor does after one connection attempt.
#[derive(Debug, PartialEq)]
pub enum SupStep {
    /// The engine serves recovery only: report it, wait, try again.
    Recovering { sleep_ms: u64 },
    /// Online: report it and hold the journal stream, resuming here.
    Online { resume: Option<String> },
    /// Not running: start the engine (once per launch), then retry at once.
    StartEngine,
    /// Report the failure (as incompatible or offline), wait, try again.
    Down { message: String, incompatible: bool, sleep_ms: u64 },
}

impl Supervisor {
    /// The backoff stays within its bounds.
    pub open spec fn wf(self) -> bool {
        BACKOFF_FIRST_MS <= self.backoff_ms <= BACKOFF_MAX_MS
    }

    pub fn new() -> (s: Supervisor)
        ensures
            s.wf(),
            s.backoff_ms == BACKOFF_FIRST_MS,
            s.cursor is None,
            !s.auto_started,
    {
        Supervisor { backoff_ms: BACKOFF_FIRST_MS, cursor: None, auto_started: false }
    }

    /// Decide after a connection attempt: `Ok` carries the handshake,
    /// `autostart` whether starting the engine is allowed at all.
    pub fn on_connect(&mut self, r: Result<&Handshake, &ConnectError>, autostart: bool) -> (step: SupStep)
        requires
            old(self).wf(),
        ensures
            final(self).wf(),
            match r {
                Ok(h) => if h.serving_mode matches Some(m) && m@ == "recovery_only"@ {
                    step == (SupStep::Recovering { sleep_ms: 2000 }) && *final(self) == *old(self)
                } else {
                    (step matches SupStep::Online { resume } && opt_view(resume) == opt_view(old(self).cursor))
                        && final(self).backoff_ms == BACKOFF_FIRST_MS && final(self).cursor is None
                        && final(self).auto_started == old(self).auto_started
                },
                Err(e) => if (e is NotRunning) && !old(self).auto_started && autostart {
                    step is StartEngine && final(self).auto_started && final(self).backoff_ms == old(self).backoff_ms
                        && final(self).cursor == old(self).cursor
                } else {
                    (step matches SupStep::Down { message, incompatible, sleep_ms } && message@ == connect_error_text(*e)
                        && incompatible == (e is Incompatible) && sleep_ms == old(self).backoff_ms)
                        && final(self).backoff_ms == (if 2 * old(self).backoff_ms < BACKOFF_MAX_MS { 2 * old(self).backoff_ms } else { BACKOFF_MAX_MS as int })
                        && final(self).cursor == old(self).cursor && final(self).auto_started == old(self).auto_started
                },
            },
    {
        match r {
            Ok(h) => {
                let recovery = match &h.serving_mode {
                    Some(m) => same_text(m.as_str(), "recovery_only"),
                    None => false,
                };
                if recovery {
                    return SupStep::Recovering { sleep_ms: 2000 };
                }
                self.backoff_ms = BACKOFF_FIRST_MS;
                let resume = self.cursor.take();
                SupStep::Online { resume }
            },
            Err(e) => {
                let not_running = match e {
                    ConnectError::NotRunning => true,
                    _ => false,
                };
                if not_running && !self.auto_started && autostart {
                    self.auto_started = true;
                    return SupStep::StartEngine;
                }
                let incompatible = match e {
                    ConnectError::Incompatible(_) => true,
                    _ => false,
                };
                let sleep_ms = self.backoff_ms;
                self.backoff_ms = if sleep_ms < BACKOFF_MAX_MS / 2 { sleep_ms * 2 } else { BACKOFF_MAX_MS };
                SupStep::Down { message: e.message(), incompatible, sleep_ms }
            },
        }
    }

    /// The journal stream closed after reaching `last_id`: keep it as the
    /// cursor, except that a client error (a stale or foreign cursor) drops
    /// it. Returns how long to wait before reconnecting: five seconds when
    /// the engine has no journal stream, else none.
    pub fn on_journal_end(&mut self, last_id: Option<String>, r: &Result<End, ApiError>) -> (sleep_ms: u64)
        requires
            old(self).wf(),
        ensures
            final(self).wf(),
            final(self).backoff_ms == old(self).backoff_ms,
            final(self).auto_started == old(self).auto_started,
            match *r {
                Err(ApiError::Http { status, .. }) => if 400 <= status < 500 {
                    final(self).cursor is None && sleep_ms == 0
                } else {
                    opt_view(final(self).cursor) == opt_view(last_id) && sleep_ms == 5000
                },
                _ => opt_view(final(self).cursor) == opt_view(last_id) && sleep_ms == 0,
            },
    {
        self.cursor = last_id;
        match r {
            Err(ApiError::Http { status, .. }) => {
                if 400 <= *status && *status < 500 {
                    self.cursor = None;
                    0
                } else {
                    5000
                }
            },
            _ => 0,
        }
    }
}


/// The turn that answers a plan's open questions: a Plan turn carrying the
/// answers, on the composer's harness.
pub fn plan_answer_request(plan_run_id: &str, prompt: &str, harness: &Option<String>) -> (r: TurnRequest)
    ensures
        r.prompt@ == prompt@,
        r.mode@ == "plan"@,
        opt_view(r.answers_plan_run_id) == Some(plan_run_id@),
        opt_view(r.primary_harness) == opt_view(*harness),
        r.plan_run_id is None,
        r.override_plan_readiness is None,
        r.model is None && r.effort is None && r.credential_profile_id is None && r.attachments@.len() == 0,
        crate::model::no_run_options(r),
{
    let mut req = TurnRequest::new(prompt, "plan");
    req.answers_plan_run_id = Some(String::from_str(plan_run_id));
    req.primary_harness = clone_opt_string(harness);
    req
}

/// The turn that implements a (frozen) plan: an Agent turn; `force` is the
/// explicit, recorded override for a plan with open questions.
pub fn implement_request(plan_run_id: &str, force: bool, harness: &Option<String>) -> (r: TurnRequest)
    ensures
        r.prompt@ == "Implement this plan."@,
        r.mode@ == "agent"@,
        opt_view(r.plan_run_id) == Some(plan_run_id@),
        r.override_plan_readiness == (if force { Some(true) } else { None }),
        opt_view(r.primary_harness) == opt_view(*harness),
        r.answers_plan_run_id is None,
        r.model is None && r.effort is None && r.credential_profile_id is None && r.attachments@.len() == 0,
        crate::model::no_run_options(r),
{
    let mut req = TurnRequest::new("Implement this plan.", "agent");
    req.plan_run_id = Some(String::from_str(plan_run_id));
    req.override_plan_readiness = if force { Some(true) } else { None };
    req.primary_harness = clone_opt_string(harness);
    req
}

/// How a plan's Implement button reads.
#[derive(Debug, Clone, Copy, PartialEq, Eq, Structural)]
pub enum PlanImplement {
    /// Answered or implemented by a later turn: no button.
    Hidden,
    /// Ready: implement straight away.
    Ready,
    /// Open questions remain: implement only by a recorded override.
    Override,
}

/// What a finished plan turn shows: its readiness chip, a note on what
/// later turns did, whether its questions card is open, and its Implement
/// button.
pub struct PlanView {
    pub label: String,
    pub note: Option<&'static str>,
    pub questions_open: bool,
    pub implement: PlanImplement,
}

/// The readiness chip: `Plan ready`, `N open question(s)` (the larger of
/// the count the engine reports and the questions listed), or `Plan
/// unverified`.
pub open spec fn plan_label(readiness: Seq<char>, count: u32, listed: u32) -> Seq<char> {
    if readiness == "ready"@ {
        "Plan ready"@
    } else if readiness == "needs_answers"@ {
        let n = if count >= listed { count } else { listed };
        crate::text::decimal(n as nat) + (if n == 1 { " open question"@ } else { " open questions"@ })
    } else {
        "Plan unverified"@
    }
}

pub fn plan_view(readiness: &str, count: u32, listed: u32, answered_later: bool, implemented_later: bool, sent: bool) -> (v: PlanView)
    ensures
        v.label@ == plan_label(readiness@, count, listed),
        match v.note {
            Some(n) => n@ == (if implemented_later { "implemented below"@ } else if answered_later { "answered below"@ } else { "answers sent…"@ })
                && (implemented_later || answered_later || sent),
            None => !implemented_later && !answered_later && !sent,
        },
        v.questions_open == (readiness@ == "needs_answers"@ && listed > 0 && !answered_later && !sent && !implemented_later),
        v.implement == (if implemented_later || answered_later {
            PlanImplement::Hidden
        } else if readiness@ == "ready"@ {
            PlanImplement::Ready
        } else {
            PlanImplement::Override
        }),
{
    let ready = same_text(readiness, "ready");
    let needs = same_text(readiness, "needs_answers");
    let label = if ready {
        String::from_str("Plan ready")
    } else if needs {
        let n = if count >= listed { count } else { listed };
        let mut l = String::new();
        push_decimal(n as u64, &mut l);
        l.append(if n == 1 { " open question" } else { " open questions" });
        l
    } else {
        String::from_str("Plan unverified")
    };
    let note = if implemented_later {
        Some("implemented below")
    } else if answered_later {
        Some("answered below")
    } else if sent {
        Some("answers sent…")
    } else {
        None
    };
    let implement = if implemented_later || answered_later {
        PlanImplement::Hidden
    } else if ready {
        PlanImplement::Ready
    } else {
        PlanImplement::Override
    };
    PlanView { label, note, questions_open: needs && listed > 0 && !answered_later && !sent && !implemented_later, implement }
}

/// A state word with its underscores read as spaces.
pub open spec fn spaced_text(s: Seq<char>) -> Seq<char> {
    s.map_values(|c: char| if c == '_' { ' ' } else { c })
}

/// A state word with its underscores read as spaces.
pub fn spaced(s: &str) -> (r: String)
    ensures
        r@ == spaced_text(s@),
{
    let v = chars_vec(s);
    let mut out = String::new();
    let mut i: usize = 0;
    while i < v.len()
        invariant
            i <= v@.len(),
            v@ == s@,
            out@ == spaced_text(v@.subrange(0, i as int)),
        decreases v@.len() - i,
    {
        let ghost before = out@;
        if v[i] == '_' {
            out.append(" ");
        } else {
            out.append(s.substring_char(i, i + 1));
        }
        proof {
            reveal_strlit(" ");
            assert(v@.subrange(i as int, i + 1) =~= seq![v@[i as int]]);
            assert(spaced_text(v@.subrange(0, i + 1)) =~= spaced_text(v@.subrange(0, i as int)).push(if v@[i as int] == '_' { ' ' } else { v@[i as int] }));
        }
        i = i + 1;
    }
    proof {
        assert(v@.subrange(0, v@.len() as int) =~= v@);
    }
    out
}

/// What the sign-in panel shows for a login.
#[derive(Debug, Clone, PartialEq)]
pub enum LoginStage {
    /// No job yet and no error: the login is starting.
    Starting,
    /// No job and an error: only the error shows.
    Failed,
    /// The job ended; `reason` is the outcome's reason (else the state),
    /// spaced.
    Ended { ok: bool, reason: String },
    /// The job runs but the sign-in link is not out yet.
    WaitingLink,
    /// The link is out. `code_input`: the page's code is to be pasted back;
    /// `verifying`: it was sent and is being checked.
    Link { code_input: bool, verifying: bool },
}

impl Login {
    /// The panel's stage.
    pub fn stage(&self) -> (r: LoginStage)
        ensures
            match self.job {
                None => if self.error is None { r == LoginStage::Starting } else { r == LoginStage::Failed },
                Some(j) => if job_terminal(j.state@) {
                    r matches LoginStage::Ended { ok, reason } && ok == (j.state@ == "succeeded"@) && reason@ == spaced_text(match j.outcome {
                        Some(o) => o.reason@,
                        None => j.state@,
                    })
                } else {
                    match self.disclosure {
                        Some(d) if d.verification_url@.len() > 0 => r == (LoginStage::Link {
                            code_input: d.flow@ == "oauth_url_input"@ && !self.code_sent,
                            verifying: d.flow@ == "oauth_url_input"@ && self.code_sent,
                        }),
                        _ => r == LoginStage::WaitingLink,
                    }
                },
            },
    {
        match &self.job {
            None => if self.error.is_none() {
                LoginStage::Starting
            } else {
                LoginStage::Failed
            },
            Some(j) => {
                if j.terminal() {
                    let ok = same_text(j.state.as_str(), "succeeded");
                    let reason = match &j.outcome {
                        Some(o) => spaced(o.reason.as_str()),
                        None => spaced(j.state.as_str()),
                    };
                    return LoginStage::Ended { ok, reason };
                }
                match &self.disclosure {
                    Some(d) => {
                        if d.verification_url.unicode_len() == 0 {
                            return LoginStage::WaitingLink;
                        }
                        let input = same_text(d.flow.as_str(), "oauth_url_input");
                        LoginStage::Link { code_input: input && !self.code_sent, verifying: input && self.code_sent }
                    },
                    None => LoginStage::WaitingLink,
                }
            },
        }
    }

    /// The panel's buttons: Cancel while a job runs; else Try again (after
    /// a failure) and Close. `(cancel, retry)`; Close shows whenever Cancel
    /// does not.
    pub fn buttons(&self) -> (r: (bool, bool))
        ensures
            r.0 == (self.job matches Some(j) && !job_terminal(j.state@)),
            r.1 == (!r.0 && (self.error is Some || (self.job matches Some(j) && job_terminal(j.state@) && j.state@ != "succeeded"@))),
    {
        let running = match &self.job {
            Some(j) => !j.terminal(),
            None => false,
        };
        if running {
            return (true, false);
        }
        let failed = self.error.is_some() || match &self.job {
            Some(j) => j.terminal() && !same_text(j.state.as_str(), "succeeded"),
            None => false,
        };
        (false, failed)
    }

    /// The job's status line: `phase · state`, spaced.
    pub fn status_line(&self) -> (r: Option<String>)
        ensures
            match self.job {
                Some(j) => r matches Some(t) && t@ == spaced_text(j.phase@) + " · "@ + spaced_text(j.state@),
                None => r is None,
            },
    {
        match &self.job {
            Some(j) => {
                let mut t = spaced(j.phase.as_str());
                t.append(" · ");
                t.append(spaced(j.state.as_str()).as_str());
                Some(t)
            },
            None => None,
        }
    }

    /// Whether the Extend button shows: a running job with a deadline the
    /// vendor does not fix.
    pub fn can_extend(&self) -> (r: bool)
        ensures
            r == (self.job matches Some(j) && !job_terminal(j.state@) && j.deadline_at is Some && !j.deadline_fixed),
    {
        match &self.job {
            Some(j) => !j.terminal() && j.deadline_at.is_some() && !j.deadline_fixed,
            None => false,
        }
    }
}

/// Send is enabled: the engine is online, an open thread is loaded first
/// (its bound root decides the mode), no turn is running, the options are
/// valid, and the composer holds a sendable draft.
pub fn can_send(online: bool, thread_ready: bool, head_running: bool, options_ok: bool, c: &Composer) -> (r: bool)
    ensures
        r == (online && thread_ready && !head_running && options_ok && !c.sending && !is_blank(c.text@) && forall|i: int|
            0 <= i < c.attachments@.len() ==> !is_uploading(#[trigger] c.attachments@[i])),
{
    online && thread_ready && !head_running && options_ok && c.ready_to_send()
}

/// The composer's placeholder.
pub fn composer_hint(online: bool, has_thread: bool) -> (r: &'static str)
    ensures
        r@ == (if !online { "Engine offline"@ } else if !has_thread { "Message… (the first message starts a thread)"@ } else { "Reply…"@ }),
{
    if !online {
        "Engine offline"
    } else if !has_thread {
        "Message… (the first message starts a thread)"
    } else {
        "Reply…"
    }
}

/// How many lines `str::lines` finds: none in an empty text, else one per
/// line ending plus a last line without one.
pub open spec fn line_count(s: Seq<char>) -> int {
    if s.len() == 0 {
        0
    } else {
        s.filter(|c: char| c == '\n').len() + (if s.last() == '\n' { 0int } else { 1int })
    }
}

/// The composer's height in rows: its lines, held between one and six.
pub fn input_rows(text: &str) -> (r: usize)
    ensures
        r == (if line_count(text@) < 1 { 1 } else if line_count(text@) > 6 { 6 } else { line_count(text@) }),
{
    let v = chars_vec(text);
    let mut breaks: usize = 0;
    let mut i: usize = 0;
    proof {
        assert(v@.subrange(0, 0).filter(|c: char| c == '\n') =~= Seq::<char>::empty());
    }
    while i < v.len()
        invariant
            i <= v@.len(),
            v@ == text@,
            breaks == v@.subrange(0, i as int).filter(|c: char| c == '\n').len(),
            breaks <= i,
        decreases v@.len() - i,
    {
        proof {
            assert(v@.subrange(0, i + 1) =~= v@.subrange(0, i as int).push(v@[i as int]));
            v@.subrange(0, i as int).lemma_filter_push(v@[i as int], |c: char| c == '\n');
        }
        if v[i] == '\n' {
            breaks = breaks + 1;
        }
        i = i + 1;
    }
    proof {
        assert(v@.subrange(0, v@.len() as int) =~= v@);
    }
    if v.len() == 0 || breaks >= 6 {
        return if v.len() == 0 { 1 } else { 6 };
    }
    let n: usize = if v[v.len() - 1] == '\n' { breaks } else { breaks + 1 };
    if n < 1 {
        1
    } else {
        n
    }
}

} // verus!
