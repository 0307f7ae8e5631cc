//! The conversation view's rules: how a transcript folds into rows, the
//! state word a turn shows, and short ids.
use crate::board::{drop_text, find_text, has_text, unique_texts};
use crate::state::Live;
use crate::text::{decimal, push_decimal, same_text};
use crate::transcript::{blocks_view, opt_view, Block, BlockV, Tool, ToolStatus, ToolV};
use std::collections::{HashMap, HashSet};
use vstd::prelude::*;
use vstd::string::StrSliceExecFns;
use vstd::string::StringExecFns;
use vstd::string::StringSliceAdditionalSpecFns;
use vstd::utf8::is_char_boundary;

verus! {

/// UI-local drafts for interactive answers: (interaction, question) to
/// (picked, free text).
#[derive(Default)]
pub struct Drafts {
    pub answers: HashMap<(String, String), (Vec<String>, String)>,
    /// Plan answers: (plan run, question) to (picked option ids, own words).
    pub plan: HashMap<(String, String), (Vec<String>, String)>,
    /// Plan runs whose answers were just sent (until the follow-up turn shows up).
    pub plan_sent: HashSet<String>,
}

/// One row of the activity list.
pub enum Row<'a> {
    Thinking(&'a str),
    Message(&'a str),
    /// A run of more than three consecutive same-name successful tools.
    Group(&'a str, usize),
    Tool(&'a Tool),
}

pub enum RowV {
    Thinking(Seq<char>),
    Message(Seq<char>),
    Group(Seq<char>, nat),
    Tool(ToolV),
}

impl<'a> View for Row<'a> {
    type V = RowV;

    open spec fn view(&self) -> RowV {
        match self {
            Row::Thinking(t) => RowV::Thinking(t@),
            Row::Message(t) => RowV::Message(t@),
            Row::Group(n, k) => RowV::Group(n@, *k as nat),
            Row::Tool(t) => RowV::Tool(t@),
        }
    }
}

pub open spec fn rows_view<'a>(v: Seq<Row<'a>>) -> Seq<RowV> {
    v.map_values(|r: Row<'a>| r@)
}

/// How many blocks from `i` on are successful tools named `name`.
pub open spec fn same_ok_run(bs: Seq<BlockV>, i: int, name: Seq<char>) -> nat
    decreases bs.len() - i,
{
    if i < 0 || i >= bs.len() {
        0
    } else {
        match bs[i] {
            BlockV::Tool { tool, .. } => if tool.name == name && tool.status == ToolStatus::Succeeded {
                1 + same_ok_run(bs, i + 1, name)
            } else {
                0
            },
            _ => 0,
        }
    }
}

/// The rows of the blocks from `i` on: runs of more than three consecutive
/// same-name successful tools collapse into one group row.
pub open spec fn rows_from(bs: Seq<BlockV>, i: int) -> Seq<RowV>
    decreases bs.len() - i,
{
    if i < 0 || i >= bs.len() {
        Seq::empty()
    } else {
        match bs[i] {
            BlockV::Thinking { text, .. } => seq![RowV::Thinking(text)] + rows_from(bs, i + 1),
            BlockV::Message { text, .. } => seq![RowV::Message(text)] + rows_from(bs, i + 1),
            BlockV::Tool { tool, .. } => {
                let run = 1 + same_ok_run(bs, i + 1, tool.name);
                proof {
                    lemma_run_bound(bs, i + 1, tool.name);
                }
                if run > 3 && tool.status == ToolStatus::Succeeded {
                    seq![RowV::Group(tool.name, run)] + rows_from(bs, i + run)
                } else {
                    seq![RowV::Tool(tool)] + rows_from(bs, i + 1)
                }
            },
        }
    }
}

/// How many blocks the rows stand for.
pub open spec fn weight(rows: Seq<RowV>) -> nat
    decreases rows.len(),
{
    if rows.len() == 0 {
        0
    } else {
        (match rows[0] {
            RowV::Group(_, k) => k,
            _ => 1,
        }) + weight(rows.drop_first())
    }
}

pub proof fn lemma_run_bound(bs: Seq<BlockV>, i: int, name: Seq<char>)
    requires
        0 <= i,
    ensures
        i + same_ok_run(bs, i, name) <= if i <= bs.len() { bs.len() as int } else { i },
    decreases bs.len() - i,
{
    if i < bs.len() {
        lemma_run_bound(bs, i + 1, name);
    }
}

proof fn lemma_weight_prepend(r: RowV, rest: Seq<RowV>)
    ensures
        weight(seq![r] + rest) == (match r {
            RowV::Group(_, k) => k,
            _ => 1,
        }) + weight(rest),
{
    assert((seq![r] + rest).drop_first() =~= rest);
}

/// Folding loses no block: the rows stand for every block exactly once.
pub proof fn law_rows_cover_blocks(bs: Seq<BlockV>, i: int)
    requires
        0 <= i <= bs.len(),
    ensures
        weight(rows_from(bs, i)) == bs.len() - i,
    decreases bs.len() - i,
{
    if i < bs.len() {
        match bs[i] {
            BlockV::Tool { tool, .. } => {
                let run = 1 + same_ok_run(bs, i + 1, tool.name);
                lemma_run_bound(bs, i + 1, tool.name);
                if run > 3 && tool.status == ToolStatus::Succeeded {
                    law_rows_cover_blocks(bs, i + run);
                    lemma_weight_prepend(RowV::Group(tool.name, run), rows_from(bs, i + run));
                } else {
                    law_rows_cover_blocks(bs, i + 1);
                    lemma_weight_prepend(RowV::Tool(tool), rows_from(bs, i + 1));
                }
            },
            BlockV::Thinking { text, .. } => {
                law_rows_cover_blocks(bs, i + 1);
                lemma_weight_prepend(RowV::Thinking(text), rows_from(bs, i + 1));
            },
            BlockV::Message { text, .. } => {
                law_rows_cover_blocks(bs, i + 1);
                lemma_weight_prepend(RowV::Message(text), rows_from(bs, i + 1));
            },
        }
    }
}

/// The block is a successful tool named `name`.
fn same_ok_tool(b: &Block, name: &String) -> (r: bool)
    ensures
        r == (b@ matches BlockV::Tool { tool, .. } && tool.name == name@ && tool.status == ToolStatus::Succeeded),
{
    match b {
        Block::Tool { tool, .. } => tool.name == *name && tool.status == ToolStatus::Succeeded,
        _ => false,
    }
}

/// Runs of more than three consecutive same-name successful tools collapse
/// into one row.
pub fn fold_rows<'a>(blocks: &'a [Block]) -> (r: Vec<Row<'a>>)
    ensures
        rows_view(r@) == rows_from(blocks_view(blocks@), 0),
{
    let ghost bv = blocks_view(blocks@);
    let mut out: Vec<Row<'a>> = Vec::new();
    let mut i: usize = 0;
    while i < blocks.len()
        invariant
            i <= blocks@.len(),
            bv == blocks_view(blocks@),
            rows_from(bv, 0) == rows_view(out@) + rows_from(bv, i as int),
        decreases blocks@.len() - i,
    {
        let ghost before = out@;
        assert(bv[i as int] == blocks@[i as int]@);
        match &blocks[i] {
            Block::Thinking { text, .. } => {
                out.push(Row::Thinking(text.as_str()));
                proof {
                    assert(rows_view(out@) =~= rows_view(before) + seq![RowV::Thinking(text@)]);
                    assert(rows_view(before) + rows_from(bv, i as int) =~= rows_view(out@) + rows_from(bv, i + 1));
                }
                i = i + 1;
            },
            Block::Message { text, .. } => {
                out.push(Row::Message(text.as_str()));
                proof {
                    assert(rows_view(out@) =~= rows_view(before) + seq![RowV::Message(text@)]);
                    assert(rows_view(before) + rows_from(bv, i as int) =~= rows_view(out@) + rows_from(bv, i + 1));
                }
                i = i + 1;
            },
            Block::Tool { tool, .. } => {
                let mut j = i;
                while j < blocks.len() - 1 && same_ok_tool(&blocks[j + 1], &tool.name)
                    invariant
                        i <= j < blocks@.len(),
                        bv == blocks_view(blocks@),
                        same_ok_run(bv, i + 1, tool.name@) == (j - i) + same_ok_run(bv, j + 1, tool.name@),
                    decreases blocks@.len() - j,
                {
                    assert(bv[j + 1] == blocks@[j + 1]@);
                    j = j + 1;
                }
                proof {
                    if j + 1 < blocks@.len() {
                        assert(bv[j + 1] == blocks@[j + 1]@);
                    }
                    assert(same_ok_run(bv, j + 1, tool.name@) == 0);
                }
                let run = j - i + 1;
                if run > 3 && tool.status == ToolStatus::Succeeded {
                    out.push(Row::Group(tool.name.as_str(), run));
                    proof {
                        assert(rows_view(out@) =~= rows_view(before) + seq![RowV::Group(tool.name@, run as nat)]);
                        assert(rows_view(before) + rows_from(bv, i as int) =~= rows_view(out@) + rows_from(bv, j + 1));
                    }
                    i = j + 1;
                } else {
                    out.push(Row::Tool(tool));
                    proof {
                        assert(rows_view(out@) =~= rows_view(before) + seq![RowV::Tool(tool@)]);
                        assert(rows_view(before) + rows_from(bv, i as int) =~= rows_view(out@) + rows_from(bv, i + 1));
                    }
                    i = i + 1;
                }
            },
        }
    }
    proof {
        assert(rows_view(out@) + Seq::<RowV>::empty() =~= rows_view(out@));
    }
    out
}

/// The last six bytes of an id (all of a shorter one).
pub fn short(id: &str) -> (r: &str)
    requires
        id.spec_bytes().len() < 6 || is_char_boundary(id.spec_bytes(), id.spec_bytes().len() - 6),
    ensures
        r.spec_bytes() == id.spec_bytes().subrange(
            if id.spec_bytes().len() < 6 { 0 } else { id.spec_bytes().len() - 6 },
            id.spec_bytes().len() as int,
        ),
{
    proof {
        vstd::utf8::encode_utf8_valid_utf8(id@);
        assert(id.spec_bytes() == vstd::utf8::encode_utf8(id@));
        assert(vstd::utf8::valid_utf8(id.spec_bytes()));
        assert(is_char_boundary(id.spec_bytes(), 0));
    }
    let n = id.as_bytes().len();
    let k = if n >= 6 { n - 6 } else { 0 };
    let parts = id.split_at(k);
    parts.1
}

/// Effective state word for a turn: a live stream wins over the turn's
/// embedded run card, until the card reports a terminal state.
pub open spec fn turn_state_text(refused: bool, run: Option<(Seq<char>, Option<bool>)>, live: Option<(bool, Option<Seq<char>>, Seq<char>)>) -> Seq<char> {
    if refused && run is None {
        "refused"@
    } else if (live matches Some(l) && l.0) || (run matches Some(r) && r.1 == Some(true) && (live matches Some(l) ==> l.1 is None)) {
        "needs_you"@
    } else if run matches Some(r) && !(r.0 == "queued"@ || r.0 == "running"@ || r.0.len() == 0) {
        run.unwrap().0
    } else {
        match live {
            Some(l) => match l.1 {
                Some(t) => if t == "run.completed"@ {
                    "succeeded"@
                } else if t == "run.blocked"@ {
                    "blocked"@
                } else if t == "run.failed"@ {
                    "failed"@
                } else {
                    "succeeded"@
                },
                None => l.2,
            },
            None => match run {
                Some(r) => r.0,
                None => "queued"@,
            },
        }
    }
}

pub open spec fn live_parts(l: Option<&Live>) -> Option<(bool, Option<Seq<char>>, Seq<char>)> {
    match l {
        Some(l) => Some((l.waiting, opt_view(l.terminal), l.phase@)),
        None => None,
    }
}

pub open spec fn run_parts(run: Option<(&str, Option<bool>)>) -> Option<(Seq<char>, Option<bool>)> {
    match run {
        Some(r) => Some((r.0@, r.1)),
        None => None,
    }
}

/// The state word of a turn: `refused` when it was refused with no run,
/// `run` the embedded run card's state and waiting flag, `live` its stream.
pub fn turn_state(refused: bool, run: Option<(&str, Option<bool>)>, live: Option<&Live>) -> (r: String)
    ensures
        r@ == turn_state_text(refused, run_parts(run), live_parts(live)),
{
    if refused && run.is_none() {
        return String::from_str("refused");
    }
    let live_waiting = match live {
        Some(l) => l.waiting,
        None => false,
    };
    let live_open = match live {
        Some(l) => l.terminal.is_none(),
        None => true,
    };
    let run_waiting = match run {
        Some((_, w)) => w == Some(true),
        None => false,
    };
    if live_waiting || (run_waiting && live_open) {
        return String::from_str("needs_you");
    }
    match run {
        Some((st, _)) => {
            if !(same_text(st, "queued") || same_text(st, "running") || st.unicode_len() == 0) {
                return String::from_str(st);
            }
        },
        None => {},
    }
    match live {
        Some(l) => match &l.terminal {
            Some(t) => {
                if same_text(t.as_str(), "run.completed") {
                    String::from_str("succeeded")
                } else if same_text(t.as_str(), "run.blocked") {
                    String::from_str("blocked")
                } else if same_text(t.as_str(), "run.failed") {
                    String::from_str("failed")
                } else {
                    String::from_str("succeeded")
                }
            },
            None => l.phase.clone(),
        },
        None => match run {
            Some((st, _)) => String::from_str(st),
            None => String::from_str("queued"),
        },
    }
}

/// The model line of a turn's receipt.
#[derive(Debug, Clone, PartialEq)]
pub enum ModelNote {
    /// The vendor answered with another model: `observed (asked requested)`.
    Substituted(String),
    /// The model seen in the stream (verified or only reported).
    Observed { model: String, verified: bool },
    /// None observed: `requested (requested)`.
    Requested(String),
}

/// The receipt's model line from the run's route.
pub fn model_note(observed: Option<&str>, requested: Option<&str>, verified: bool) -> (r: Option<ModelNote>)
    ensures
        match (observed, requested) {
            (Some(o), Some(q)) if o@ != q@ => r matches Some(ModelNote::Substituted(t)) && t@ == o@ + " (asked "@ + q@ + ")"@,
            (Some(o), _) => r matches Some(ModelNote::Observed { model, verified: v }) && model@ == o@ && v == verified,
            (None, Some(q)) => r matches Some(ModelNote::Requested(t)) && t@ == q@ + " (requested)"@,
            (None, None) => r is None,
        },
{
    match (observed, requested) {
        (Some(o), Some(q)) => {
            if !same_text(o, q) {
                let mut t = String::from_str(o);
                t.append(" (asked ");
                t.append(q);
                t.append(")");
                Some(ModelNote::Substituted(t))
            } else {
                Some(ModelNote::Observed { model: String::from_str(o), verified })
            }
        },
        (Some(o), None) => Some(ModelNote::Observed { model: String::from_str(o), verified }),
        (None, Some(q)) => {
            let mut t = String::from_str(q);
            t.append(" (requested)");
            Some(ModelNote::Requested(t))
        },
        (None, None) => None,
    }
}

/// `N tool` or `N tools`; nothing for none.
pub fn tools_label(n: usize) -> (r: Option<String>)
    ensures
        n == 0 ==> r is None,
        n > 0 ==> (r matches Some(t) && t@ == decimal(n as nat) + (if n == 1 { " tool"@ } else { " tools"@ })),
{
    if n == 0 {
        return None;
    }
    let mut t = String::new();
    push_decimal(n as u64, &mut t);
    t.append(if n == 1 { " tool" } else { " tools" });
    Some(t)
}

/// `F files +A −D` for a change that touched files; nothing otherwise.
pub fn diff_label(files: u64, additions: u64, deletions: u64) -> (r: Option<String>)
    ensures
        files == 0 ==> r is None,
        files > 0 ==> (r matches Some(t) && t@ == decimal(files as nat) + " files +"@ + decimal(additions as nat) + " −"@ + decimal(
            deletions as nat,
        )),
{
    if files == 0 {
        return None;
    }
    let mut t = String::new();
    push_decimal(files, &mut t);
    t.append(" files +");
    push_decimal(additions, &mut t);
    t.append(" −");
    push_decimal(deletions, &mut t);
    Some(t)
}

/// Which turn cards the user opened or closed by hand: a live turn's card
/// is open unless collapsed, a finished turn's is closed unless expanded.
pub struct CardFold {
    pub expanded: Vec<String>,
    pub collapsed: Vec<String>,
}

/// Whether the card of turn `id` is open.
pub open spec fn card_open(f: CardFold, id: Seq<char>, active: bool) -> bool {
    if active {
        !has_text(f.collapsed@, id)
    } else {
        has_text(f.expanded@, id)
    }
}

/// Add `id` when absent, drop it when present.
fn flip(v: &mut Vec<String>, id: &str)
    requires
        unique_texts(old(v)@),
    ensures
        unique_texts(final(v)@),
        forall|x: Seq<char>| has_text(final(v)@, x) == (if x == id@ { !has_text(old(v)@, x) } else { has_text(old(v)@, x) }),
{
    match find_text(v, id) {
        Some(_) => drop_text(v, id),
        None => {
            let ghost before = v@;
            v.push(String::from_str(id));
            proof {
                assert forall|a: int, b: int| 0 <= a < b < v@.len() implies #[trigger] v@[a]@ != #[trigger] v@[b]@ by {
                    assert(v@[a] == before[a]);
                    if b < before.len() {
                        assert(v@[b] == before[b]);
                    } else if v@[a]@ == id@ {
                        assert(has_text(before, id@));
                    }
                }
                assert forall|x: Seq<char>| has_text(v@, x) == (if x == id@ { !has_text(before, x) } else { has_text(before, x) }) by {
                    if x == id@ {
                        assert(v@[before.len() as int]@ == id@);
                    } else {
                        if has_text(before, x) {
                            let k = choose|k: int| 0 <= k < before.len() && #[trigger] before[k]@ == x;
                            assert(v@[k] == before[k]);
                        }
                        if has_text(v@, x) {
                            let k = choose|k: int| 0 <= k < v@.len() && #[trigger] v@[k]@ == x;
                            if k < before.len() {
                                assert(v@[k] == before[k]);
                            }
                        }
                    }
                }
            }
        },
    }
}

impl CardFold {
    pub open spec fn wf(&self) -> bool {
        unique_texts(self.expanded@) && unique_texts(self.collapsed@)
    }

    /// No card opened or closed by hand.
    pub fn new() -> (f: CardFold)
        ensures
            f.wf(),
            forall|id: Seq<char>, active: bool| card_open(f, id, active) == active,
    {
        CardFold { expanded: Vec::new(), collapsed: Vec::new() }
    }

    /// Whether the card of turn `id` (live when `active`) is open.
    pub fn is_open(&self, id: &str, active: bool) -> (r: bool)
        ensures
            r == card_open(*self, id@, active),
    {
        if active {
            find_text(&self.collapsed, id).is_none()
        } else {
            find_text(&self.expanded, id).is_some()
        }
    }

    /// A click on the card of turn `id`: it opens if it was closed and
    /// closes if it was open; no other card changes.
    pub fn toggle(&mut self, id: &str, active: bool)
        requires
            old(self).wf(),
        ensures
            final(self).wf(),
            card_open(*final(self), id@, active) == !card_open(*old(self), id@, active),
            forall|x: Seq<char>, a: bool| x != id@ ==> card_open(*final(self), x, a) == card_open(*old(self), x, a),
            active ==> final(self).expanded == old(self).expanded,
            !active ==> final(self).collapsed == old(self).collapsed,
    {
        if active {
            flip(&mut self.collapsed, id);
        } else {
            flip(&mut self.expanded, id);
        }
    }
}

} // verus!
