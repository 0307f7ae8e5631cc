//! The thread pane: the thread list, the open thread, their refreshes
//! (single flight with one trailing request each), and the error banner.
//! Its methods are the client's decisions on list and thread results; the
//! fetches they ask for come back as values.
use crate::api::{api_error_text, ApiError};
use crate::model::{Thread, TurnStarted};
use crate::order::{by_recency, newest_first, stable_sort};
use crate::state::{flight_finish, flight_start, Composer, Flight};
use crate::model::title_text;
use crate::ui::{basename, basename_of};
use crate::text::{chars_vec, lowercase, lowercase_text, same_text, trim, trim_spec};
use crate::transcript::opt_view;
use vstd::prelude::*;
use vstd::string::StrSliceExecFns;
use vstd::string::StringExecFns;

verus! {

/// The banner an error leaves: none for a transport failure (the
/// connection status shows that), else the error's line.
pub open spec fn noted(error: Option<Seq<char>>, e: ApiError) -> Option<Seq<char>> {
    if e is Transport {
        error
    } else {
        Some(api_error_text(e))
    }
}

/// The draft still holds what was sent (up to surrounding whitespace).
pub open spec fn holds(c: Composer, prompt: Option<&str>) -> bool {
    prompt matches Some(p) && trim_spec(c.text@) == trim_spec(p@)
}

/// The open thread's refresh from `o` to `n`, fetching `f`: when `go` (a
/// thread is open, it is the one concerned, and the client is online) the
/// detail flight starts, and a fetch that goes out names the open thread
/// and marks it loading; otherwise nothing is fetched and neither changes.
pub open spec fn detail_refreshed(o: ThreadPane, n: ThreadPane, f: Option<String>, go: bool) -> bool {
    if go {
        &&& (n.detail_flight, f is Some) == flight_start(o.detail_flight)
        &&& (f is Some ==> opt_view(f) == opt_view(o.selected) && n.detail_loading)
        &&& (f is None ==> n.detail_loading == o.detail_loading)
    } else {
        f is None && n.detail_flight == o.detail_flight && n.detail_loading == o.detail_loading
    }
}

/// The list's refresh from `o` to `n`, fetching when `r`: online, the list
/// flight starts; offline nothing is fetched and the flight is kept.
pub open spec fn list_refreshed(o: ThreadPane, n: ThreadPane, r: bool, online: bool) -> bool {
    if online {
        (n.threads_flight, r) == flight_start(o.threads_flight)
    } else {
        !r && n.threads_flight == o.threads_flight
    }
}

/// What a thread-list or thread result asks for next.
pub struct PaneFetch {
    /// Fetch the thread list.
    pub threads: bool,
    /// Fetch this thread.
    pub thread: Option<String>,
}

pub struct ThreadPane {
    pub threads: Vec<Thread>,
    pub threads_loaded: bool,
    pub selected: Option<String>,
    /// The open thread's detail is held (by the app) and current.
    pub has_detail: bool,
    pub detail_loading: bool,
    pub threads_flight: Flight,
    pub detail_flight: Flight,
    pub error: Option<String>,
}

impl ThreadPane {
    pub fn new() -> (p: ThreadPane)
        ensures
            p.threads@.len() == 0,
            !p.threads_loaded,
            p.selected is None,
            !p.has_detail,
            !p.detail_loading,
            p.threads_flight == (Flight { busy: false, again: false }),
            p.detail_flight == (Flight { busy: false, again: false }),
            p.error is None,
    {
        ThreadPane {
            threads: Vec::new(),
            threads_loaded: false,
            selected: None,
            has_detail: false,
            detail_loading: false,
            threads_flight: Flight::default(),
            detail_flight: Flight::default(),
            error: None,
        }
    }

    /// Back online: both flights start over, and the list and the open
    /// thread are fetched.
    pub fn on_online(&mut self) -> (f: PaneFetch)
        ensures
            f.threads,
            final(self).threads_flight == (Flight { busy: true, again: false }),
            opt_view(f.thread) == opt_view(old(self).selected),
            final(self).detail_flight == (if old(self).selected is Some { Flight { busy: true, again: false } } else { Flight { busy: false, again: false } }),
            final(self).threads == old(self).threads,
            final(self).selected == old(self).selected,
            final(self).error == old(self).error,
    {
        self.threads_flight = Flight::default();
        self.detail_flight = Flight::default();
        let threads = self.refresh_threads(true);
        let thread = self.refresh_detail(true);
        PaneFetch { threads, thread }
    }

    /// Show an error in the banner, unless it is a transport failure.
    pub fn note(&mut self, e: &ApiError)
        ensures
            opt_view(final(self).error) == noted(opt_view(old(self).error), *e),
            final(self).threads == old(self).threads,
            final(self).selected == old(self).selected,
            final(self).threads_flight == old(self).threads_flight,
            final(self).detail_flight == old(self).detail_flight,
            final(self).has_detail == old(self).has_detail,
            final(self).detail_loading == old(self).detail_loading,
            final(self).threads_loaded == old(self).threads_loaded,
    {
        if e.is_transport() {
            return;
        }
        self.error = Some(e.message());
    }

    /// Refresh the thread list: true when the fetch is to be made (online,
    /// and none in flight; a refused start leaves one trailing fetch).
    pub fn refresh_threads(&mut self, online: bool) -> (r: bool)
        ensures
            !online ==> !r && final(self).threads_flight == old(self).threads_flight,
            online ==> (final(self).threads_flight, r) == flight_start(old(self).threads_flight),
            final(self).threads == old(self).threads,
            final(self).selected == old(self).selected,
            final(self).detail_flight == old(self).detail_flight,
            final(self).detail_loading == old(self).detail_loading,
            final(self).has_detail == old(self).has_detail,
            final(self).error == old(self).error,
            final(self).threads_loaded == old(self).threads_loaded,
    {
        if !online {
            return false;
        }
        self.threads_flight.start()
    }

    /// Refresh the open thread: its id when the fetch is to be made (a
    /// thread is open, online, and none in flight), which marks it loading.
    pub fn refresh_detail(&mut self, online: bool) -> (r: Option<String>)
        ensures
            (old(self).selected is None || !online) ==> r is None && final(self).detail_flight == old(self).detail_flight
                && final(self).detail_loading == old(self).detail_loading,
            (old(self).selected is Some && online) ==> (final(self).detail_flight, r is Some) == flight_start(old(self).detail_flight)
                && (r is Some ==> opt_view(r) == opt_view(old(self).selected) && final(self).detail_loading)
                && (r is None ==> final(self).detail_loading == old(self).detail_loading),
            final(self).threads == old(self).threads,
            final(self).selected == old(self).selected,
            final(self).threads_flight == old(self).threads_flight,
            final(self).has_detail == old(self).has_detail,
            final(self).error == old(self).error,
            final(self).threads_loaded == old(self).threads_loaded,
    {
        let id = match &self.selected {
            Some(id) => id.clone(),
            None => return None,
        };
        if !online || !self.detail_flight.start() {
            return None;
        }
        self.detail_loading = true;
        Some(id)
    }

    /// Open a thread (or none): a new selection drops the held detail,
    /// resets its flight and fetches it.
    pub fn select(&mut self, id: Option<String>, online: bool) -> (r: Option<String>)
        ensures
            opt_view(old(self).selected) == opt_view(id) ==> r is None && *final(self) == *old(self),
            opt_view(old(self).selected) != opt_view(id) ==> {
                &&& opt_view(final(self).selected) == opt_view(id)
                &&& !final(self).has_detail
                &&& (id is Some && online) == (r is Some)
                &&& opt_view(r) == if online { opt_view(id) } else { None }
                &&& final(self).detail_flight == (if r is Some { Flight { busy: true, again: false } } else { Flight { busy: false, again: false } })
            },
            final(self).threads == old(self).threads,
            final(self).threads_flight == old(self).threads_flight,
            final(self).error == old(self).error,
    {
        let same = match (&self.selected, &id) {
            (Some(a), Some(b)) => same_text(a.as_str(), b.as_str()),
            (None, None) => true,
            _ => false,
        };
        if same {
            return None;
        }
        self.selected = id;
        self.has_detail = false;
        self.detail_flight = Flight::default();
        self.refresh_detail(online)
    }

    /// The thread list arrived: kept newest first (trashed threads too), or
    /// the error noted; a trailing request goes out now.
    pub fn on_threads(&mut self, r: Result<Vec<Thread>, ApiError>, online: bool) -> (again: bool)
        ensures
            match r {
                Ok(list) => final(self).threads@ == stable_sort(list@, by_recency()) && final(self).threads_loaded
                    && final(self).error == old(self).error,
                Err(e) => final(self).threads == old(self).threads && final(self).threads_loaded == old(self).threads_loaded
                    && opt_view(final(self).error) == noted(opt_view(old(self).error), e),
            },
            again == (old(self).threads_flight.again && online),
            final(self).threads_flight == (if again { Flight { busy: true, again: false } } else { Flight { busy: false, again: false } }),
            final(self).selected == old(self).selected,
            final(self).detail_flight == old(self).detail_flight,
            final(self).has_detail == old(self).has_detail,
    {
        let trailing = self.threads_flight.finish();
        match r {
            Ok(list) => {
                self.threads = newest_first(list);
                self.threads_loaded = true;
            },
            Err(e) => self.note(&e),
        }
        if trailing {
            return self.refresh_threads(online);
        }
        false
    }

    /// The open thread's detail arrived (`r`, for thread `id`): when it is
    /// still the open one it stops loading and is adopted (true in `.0`),
    /// or its error noted; a trailing request goes out now.
    pub fn on_thread(&mut self, id: &str, r: Result<(), ApiError>, online: bool) -> (out: (bool, Option<String>))
        ensures
            match old(self).selected {
                Some(s) if s@ == id@ => {
                    &&& !final(self).detail_loading || out.1 is Some
                    &&& out.0 == (r is Ok)
                    &&& final(self).has_detail == (r is Ok || old(self).has_detail)
                    &&& (r matches Err(e) ==> opt_view(final(self).error) == noted(opt_view(old(self).error), e))
                    &&& (r is Ok ==> final(self).error == old(self).error)
                },
                _ => !out.0 && final(self).error == old(self).error && final(self).has_detail == old(self).has_detail,
            },
            (out.1 is Some) == (old(self).detail_flight.again && online && old(self).selected is Some),
            opt_view(out.1) == (if out.1 is Some { opt_view(old(self).selected) } else { None }),
            final(self).threads == old(self).threads,
            final(self).selected == old(self).selected,
            final(self).threads_flight == old(self).threads_flight,
    {
        let trailing = self.detail_flight.finish();
        let current = match &self.selected {
            Some(s) => same_text(s.as_str(), id),
            None => false,
        };
        let mut adopt = false;
        if current {
            self.detail_loading = false;
            match r {
                Ok(()) => {
                    self.has_detail = true;
                    adopt = true;
                },
                Err(e) => self.note(&e),
            }
        }
        let fetch = if trailing {
            self.refresh_detail(online)
        } else {
            None
        };
        (adopt, fetch)
    }

    /// A draft's thread was created: it heads the list and opens (with a
    /// fresh flight); its id comes back for the pending turn. A failure
    /// ends the send and is noted.
    pub fn on_created(&mut self, r: Result<Thread, ApiError>, composer: &mut Composer) -> (send_to: Option<String>)
        ensures
            match r {
                Ok(t) => {
                    &&& send_to matches Some(x) && x@ == t.id@
                    &&& final(self).threads@ == seq![t] + old(self).threads@
                    &&& opt_view(final(self).selected) == Some(t.id@)
                    &&& !final(self).has_detail
                    &&& final(self).detail_flight == (Flight { busy: false, again: false })
                    &&& final(composer).sending == old(composer).sending
                },
                Err(e) => {
                    &&& send_to is None
                    &&& !final(composer).sending
                    &&& opt_view(final(self).error) == noted(opt_view(old(self).error), e)
                    &&& final(self).threads == old(self).threads
                    &&& final(self).selected == old(self).selected
                },
            },
            final(composer).text == old(composer).text,
            final(composer).attachments == old(composer).attachments,
    {
        match r {
            Ok(t) => {
                let tid = t.id.clone();
                self.threads.insert(0, t);
                proof {
                    assert(self.threads@ =~= seq![self.threads@[0]] + old(self).threads@);
                }
                self.selected = Some(tid.clone());
                self.has_detail = false;
                self.detail_flight = Flight::default();
                Some(tid)
            },
            Err(e) => {
                composer.sending = false;
                self.note(&e);
                None
            },
        }
    }

    /// A turn was sent on thread `tid` (`prompt` is what it sent, when it
    /// came from the composer): the send ends; on success the draft is
    /// cleared if it still holds what was sent, the open thread (if it is
    /// `tid`) and the list refresh; on failure the error is noted and the
    /// open thread refreshes. Returns the fetches to make.
    pub fn on_turn_sent(
        &mut self,
        tid: &str,
        r: &Result<TurnStarted, ApiError>,
        prompt: Option<&str>,
        composer: &mut Composer,
        online: bool,
    ) -> (f: PaneFetch)
        ensures
            !final(composer).sending,
            match r {
                Ok(_) => {
                    &&& (holds(*old(composer), prompt) ==> final(composer).text@.len() == 0 && final(composer).attachments@.len() == 0)
                    &&& (!holds(*old(composer), prompt) ==> final(composer).text == old(composer).text
                        && final(composer).attachments == old(composer).attachments)
                    &&& final(self).error == old(self).error
                    &&& list_refreshed(*old(self), *final(self), f.threads, online)
                },
                Err(e) => {
                    &&& final(composer).text == old(composer).text
                    &&& final(composer).attachments == old(composer).attachments
                    &&& opt_view(final(self).error) == noted(opt_view(old(self).error), *e)
                    &&& !f.threads
                    &&& final(self).threads_flight == old(self).threads_flight
                },
            },
            detail_refreshed(*old(self), *final(self), f.thread, opt_view(old(self).selected) == Some(tid@) && online),
            final(self).threads == old(self).threads,
            final(self).selected == old(self).selected,
            final(self).has_detail == old(self).has_detail,
            final(self).threads_loaded == old(self).threads_loaded,
    {
        composer.sending = false;
        let open = match &self.selected {
            Some(s) => same_text(s.as_str(), tid),
            None => false,
        };
        match r {
            Ok(_) => {
                if composer.holds_sent(prompt) {
                    composer.text = String::new();
                    composer.attachments = Vec::new();
                }
                let thread = if open {
                    self.refresh_detail(online)
                } else {
                    None
                };
                let threads = self.refresh_threads(online);
                PaneFetch { threads, thread }
            },
            Err(e) => {
                self.note(e);
                let thread = if open {
                    self.refresh_detail(online)
                } else {
                    None
                };
                PaneFetch { threads: false, thread }
            },
        }
    }

    /// An acknowledged action (`what`) ended: a failure reads `what failed:
    /// ...` in the banner; the open thread refreshes either way.
    pub fn on_acked(&mut self, what: &str, r: Result<(), ApiError>, online: bool) -> (f: Option<String>)
        ensures
            match r {
                Ok(()) => final(self).error == old(self).error,
                Err(e) => opt_view(final(self).error) == Some(what@ + " failed: "@ + api_error_text(e)),
            },
            detail_refreshed(*old(self), *final(self), f, old(self).selected is Some && online),
            final(self).threads == old(self).threads,
            final(self).selected == old(self).selected,
            final(self).threads_flight == old(self).threads_flight,
            final(self).has_detail == old(self).has_detail,
            final(self).threads_loaded == old(self).threads_loaded,
    {
        match r {
            Ok(()) => {},
            Err(e) => {
                let mut m = String::from_str(what);
                m.append(" failed: ");
                m.append(e.message().as_str());
                self.error = Some(m);
            },
        }
        self.refresh_detail(online)
    }

    /// A thread action (`what`) ended: a failure reads `what failed: ...`
    /// in the banner; the list and the open thread refresh either way.
    pub fn on_changed(&mut self, what: &str, r: Result<(), ApiError>, online: bool) -> (f: PaneFetch)
        ensures
            match r {
                Ok(()) => final(self).error == old(self).error,
                Err(e) => opt_view(final(self).error) == Some(what@ + " failed: "@ + api_error_text(e)),
            },
            f.threads == (online && !old(self).threads_flight.busy),
            list_refreshed(*old(self), *final(self), f.threads, online),
            detail_refreshed(*old(self), *final(self), f.thread, old(self).selected is Some && online),
            final(self).threads == old(self).threads,
            final(self).selected == old(self).selected,
            final(self).has_detail == old(self).has_detail,
            final(self).threads_loaded == old(self).threads_loaded,
    {
        match r {
            Ok(()) => {},
            Err(e) => {
                let mut m = String::from_str(what);
                m.append(" failed: ");
                m.append(e.message().as_str());
                self.error = Some(m);
            },
        }
        let threads = self.refresh_threads(online);
        let thread = self.refresh_detail(online);
        PaneFetch { threads, thread }
    }
}

/// `q` occurs in `t`.
pub open spec fn has_sub(t: Seq<char>, q: Seq<char>) -> bool {
    exists|i: int| 0 <= i && i + q.len() <= t.len() && #[trigger] t.subrange(i, i + q.len()) == q
}

/// A thread the sidebar search `q` (trimmed, lowercased) finds: an empty
/// search finds every thread, else its title or its repository root holds
/// `q`, compared lowercased.
pub open spec fn thread_matches(th: Thread, q: Seq<char>) -> bool {
    ||| q.len() == 0
    ||| has_sub(lowercase(title_text(th.title)), q)
    ||| (th.repo_root matches Some(r) && has_sub(lowercase(r@), q))
}

/// A thread the sidebar lists: in the trash exactly when the trash is
/// shown, and found by the search.
pub open spec fn thread_listed(th: Thread, query: Seq<char>, show_trash: bool) -> bool {
    (th.trashed_at is Some) == show_trash && thread_matches(th, lowercase(trim_spec(query)))
}

fn text_has(t: &Vec<char>, q: &Vec<char>) -> (r: bool)
    ensures
        r == has_sub(t@, q@),
{
    if q.len() > t.len() {
        return false;
    }
    if q.len() == 0 {
        proof {
            assert(t@.subrange(0, 0int + q@.len()) =~= q@);
        }
        return true;
    }
    let tl = t.len();
    let n = tl - q.len();
    let mut i: usize = 0;
    while i <= n
        invariant
            1 <= q@.len() <= t@.len(),
            tl == t@.len(),
            n == t@.len() - q@.len(),
            i <= n + 1,
            forall|k: int| 0 <= k < i ==> #[trigger] t@.subrange(k, k + q@.len()) != q@,
        decreases n + 1 - i,
    {
        let mut j: usize = 0;
        while j < q.len() && t[i + j] == q[j]
            invariant
                i <= n,
                1 <= q@.len() <= t@.len(),
                tl == t@.len(),
                n == t@.len() - q@.len(),
                i + q@.len() <= t@.len(),
                j <= q@.len(),
                forall|m: int| 0 <= m < j ==> t@[i + m] == q@[m],
            decreases q@.len() - j,
        {
            j = j + 1;
        }
        if j == q.len() {
            proof {
                assert(t@.subrange(i as int, i + q@.len()) =~= q@);
            }
            return true;
        }
        proof {
            assert(t@.subrange(i as int, i + q@.len())[j as int] == t@[i + j]);
        }
        i = i + 1;
    }
    proof {
        if has_sub(t@, q@) {
            let k = choose|k: int| 0 <= k && k + q@.len() <= t@.len() && #[trigger] t@.subrange(k, k + q@.len()) == q@;
            assert(k < i);
        }
    }
    false
}

/// The sidebar's list: the indexes, in order, of the threads it shows for
/// the search text `query` with the trash shown or not.
pub fn visible_threads(threads: &Vec<Thread>, query: &str, show_trash: bool) -> (r: Vec<usize>)
    ensures
        forall|k: int| 0 <= k < r@.len() ==> #[trigger] r@[k] < threads@.len() && thread_listed(threads@[r@[k] as int], query@, show_trash),
        forall|a: int, b: int| 0 <= a < b < r@.len() ==> #[trigger] r@[a] < #[trigger] r@[b],
        forall|i: int| 0 <= i < threads@.len() && thread_listed(#[trigger] threads@[i], query@, show_trash) ==> exists|k: int| 0 <= k < r@.len() && r@[k] == i,
{
    let lq = lowercase_text(trim(query));
    let q = chars_vec(lq.as_str());
    let mut r: Vec<usize> = Vec::new();
    let mut i: usize = 0;
    while i < threads.len()
        invariant
            i <= threads@.len(),
            q@ == lowercase(trim_spec(query@)),
            forall|k: int| 0 <= k < r@.len() ==> #[trigger] r@[k] < i && thread_listed(threads@[r@[k] as int], query@, show_trash),
            forall|a: int, b: int| 0 <= a < b < r@.len() ==> #[trigger] r@[a] < #[trigger] r@[b],
            forall|j: int| 0 <= j < i && thread_listed(#[trigger] threads@[j], query@, show_trash) ==> exists|k: int| 0 <= k < r@.len() && r@[k] == j,
        decreases threads@.len() - i,
    {
        let th = &threads[i];
        let in_trash = th.trashed_at.is_some();
        let found = if in_trash != show_trash {
            false
        } else if q.len() == 0 {
            true
        } else {
            let title = chars_vec(lowercase_text(th.display_title()).as_str());
            if text_has(&title, &q) {
                true
            } else {
                match &th.repo_root {
                    Some(root) => {
                        let rc = chars_vec(lowercase_text(root.as_str()).as_str());
                        text_has(&rc, &q)
                    },
                    None => false,
                }
            }
        };
        proof {
            assert(found == thread_listed(threads@[i as int], query@, show_trash));
        }
        let ghost before = r@;
        if found {
            r.push(i);
            proof {
                assert forall|j: int| 0 <= j < i + 1 && thread_listed(#[trigger] threads@[j], query@, show_trash) implies exists|k: int| 0 <= k < r@.len() && r@[k] == j by {
                    if j == i {
                        assert(r@[before.len() as int] == j);
                    } else {
                        let k = choose|k: int| 0 <= k < before.len() && before[k] == j;
                        assert(r@[k] == before[k]);
                    }
                }
            }
        }
        i = i + 1;
    }
    r
}

/// The line under a thread's title in the sidebar: its project folder (or
/// "no project"), then how long ago it changed when that reads as anything,
/// and "archived" first for a closed thread.
pub open spec fn subtitle_text(root: Option<Seq<char>>, when: Seq<char>, closed: bool) -> Seq<char> {
    let base = match root {
        Some(r) => basename_of(r),
        None => "no project"@,
    };
    let s = if when.len() > 0 {
        base + " · "@ + when
    } else {
        base
    };
    if closed {
        "archived · "@ + s
    } else {
        s
    }
}

/// The sidebar line of a thread in `repo_root`, changed `when` (as `ago`
/// reads it), closed or not.
pub fn thread_subtitle(repo_root: Option<&str>, when: &str, closed: bool) -> (r: String)
    ensures
        r@ == subtitle_text(match repo_root {
            Some(x) => Some(x@),
            None => None,
        }, when@, closed),
{
    proof {
        reveal_strlit("no project");
        reveal_strlit(" · ");
        reveal_strlit("archived · ");
    }
    let mut s = match repo_root {
        Some(r) => String::from_str(basename(r)),
        None => String::from_str("no project"),
    };
    if when.unicode_len() > 0 {
        s.append(" · ");
        s.append(when);
    }
    if closed {
        let mut a = String::from_str("archived · ");
        a.append(s.as_str());
        a
    } else {
        s
    }
}

/// What an empty sidebar says: the trash is empty, no thread exists yet,
/// or none matches the search.
pub open spec fn empty_list_text(show_trash: bool, searching: bool) -> Seq<char> {
    if !searching {
        if show_trash {
            "Trash is empty."@
        } else {
            "No threads yet. Type below to start one."@
        }
    } else {
        "No thread matches."@
    }
}

pub fn empty_list_message(show_trash: bool, searching: bool) -> (r: &'static str)
    ensures
        r@ == empty_list_text(show_trash, searching),
{
    if !searching {
        if show_trash {
            "Trash is empty."
        } else {
            "No threads yet. Type below to start one."
        }
    } else {
        "No thread matches."
    }
}

} // verus!
