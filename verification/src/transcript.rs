//! The fold of a run's harness events into transcript blocks (no UI, no I/O).
//!
//! - idempotent by monotonic `seq`: a replay after a reconnect never
//!   duplicates anything;
//! - only `harness.event` contributes; the harness payload's `type` drives it;
//! - consecutive `thinking` merges into one segment;
//! - message deltas grow one streaming block, a complete message replaces it
//!   by id, a typed `final` seals the stream and removes its narration twin;
//! - `tool_result` updates its `tool_call` by `use_id` (fallback: the last
//!   open tool of the same name), or stands alone after a mid-tool reconnect;
//! - hard caps on block count, per-block chars and tool fields, always
//!   disclosed in `trimmed` and `truncated_chars`.
use crate::keyed::{closed_gap, shifted_down, KeyedIndex};
use crate::text::{decimal, push_decimal};
use crate::ui::theme::{iso_seconds, parse_iso};
use vstd::prelude::*;
use vstd::string::StrSliceExecFns;
use vstd::string::StringExecFns;
use vstd::utf8::encode_utf8;

verus! {

#[derive(Debug, Clone, Copy, PartialEq, Eq, Structural)]
pub enum ToolStatus {
    Running,
    Succeeded,
    Error,
}

#[derive(Debug, Clone, PartialEq)]
pub struct Tool {
    pub name: String,
    pub kind: Option<String>,
    pub target: Option<String>,
    pub status: ToolStatus,
    pub detail: Option<String>,
    pub exit_code: Option<i64>,
    /// Agent/Task tool: the subagent's description, and "type · model".
    pub note: Option<String>,
    pub sub: Option<String>,
    /// A background launch: its result only means "started", never "done".
    pub background: bool,
}

#[derive(Debug, Clone, PartialEq)]
pub enum Block {
    Thinking { id: String, text: String, secs: Option<i64> },
    Message { id: String, text: String },
    Tool { id: String, tool: Tool },
}

/// The text of an optional string.
pub open spec fn opt_view(o: Option<String>) -> Option<Seq<char>> {
    match o {
        Some(s) => Some(s@),
        None => None,
    }
}

pub open spec fn opt_len(o: Option<Seq<char>>) -> nat {
    match o {
        Some(s) => s.len(),
        None => 0,
    }
}

pub struct ToolV {
    pub name: Seq<char>,
    pub kind: Option<Seq<char>>,
    pub target: Option<Seq<char>>,
    pub status: ToolStatus,
    pub detail: Option<Seq<char>>,
    pub exit_code: Option<i64>,
    pub note: Option<Seq<char>>,
    pub sub: Option<Seq<char>>,
    pub background: bool,
}

pub enum BlockV {
    Thinking { id: Seq<char>, text: Seq<char>, secs: Option<i64> },
    Message { id: Seq<char>, text: Seq<char> },
    Tool { id: Seq<char>, tool: ToolV },
}

impl View for Tool {
    type V = ToolV;

    open spec fn view(&self) -> ToolV {
        ToolV {
            name: self.name@,
            kind: opt_view(self.kind),
            target: opt_view(self.target),
            status: self.status,
            detail: opt_view(self.detail),
            exit_code: self.exit_code,
            note: opt_view(self.note),
            sub: opt_view(self.sub),
            background: self.background,
        }
    }
}

impl View for Block {
    type V = BlockV;

    open spec fn view(&self) -> BlockV {
        match self {
            Block::Thinking { id, text, secs } => BlockV::Thinking { id: id@, text: text@, secs: *secs },
            Block::Message { id, text } => BlockV::Message { id: id@, text: text@ },
            Block::Tool { id, tool } => BlockV::Tool { id: id@, tool: tool@ },
        }
    }
}

pub open spec fn block_id(b: BlockV) -> Seq<char> {
    match b {
        BlockV::Thinking { id, .. } => id,
        BlockV::Message { id, .. } => id,
        BlockV::Tool { id, .. } => id,
    }
}

/// The characters a block counts against the budget: its text, or a tool's
/// name, kind, target and detail.
pub open spec fn block_chars(b: BlockV) -> nat {
    match b {
        BlockV::Thinking { text, .. } => text.len(),
        BlockV::Message { text, .. } => text.len(),
        BlockV::Tool { tool, .. } => tool.name.len() + opt_len(tool.kind) + opt_len(tool.target) + opt_len(tool.detail),
    }
}

pub open spec fn seq_chars(bs: Seq<BlockV>) -> nat
    decreases bs.len(),
{
    if bs.len() == 0 {
        0
    } else {
        block_chars(bs[0]) + seq_chars(bs.drop_first())
    }
}

pub open spec fn blocks_view(bs: Seq<Block>) -> Seq<BlockV> {
    bs.map_values(|b: Block| b@)
}

/// `text` cut to `cap` characters: its tail when `keep_tail`, else its head.
pub open spec fn clip_text(text: Seq<char>, cap: nat, keep_tail: bool) -> Seq<char> {
    if text.len() <= cap {
        text
    } else if keep_tail {
        text.subrange(text.len() - cap, text.len() as int)
    } else {
        text.subrange(0, cap as int)
    }
}

/// How many characters clipping cuts.
pub open spec fn cut(text: Seq<char>, cap: nat) -> nat {
    if text.len() <= cap {
        0
    } else {
        (text.len() - cap) as nat
    }
}

pub open spec fn opt_cut(o: Option<Seq<char>>, cap: nat) -> nat {
    match o {
        Some(t) => cut(t, cap),
        None => 0,
    }
}

pub open spec fn opt_clip(o: Option<Seq<char>>, cap: nat) -> Option<Seq<char>> {
    match o {
        Some(t) => Some(clip_text(t, cap, false)),
        None => None,
    }
}

/// The position of the last block with this id.
pub open spec fn last_index(bs: Seq<BlockV>, id: Seq<char>) -> Option<nat>
    decreases bs.len(),
{
    if bs.len() == 0 {
        None
    } else if block_id(bs.last()) == id {
        Some((bs.len() - 1) as nat)
    } else {
        last_index(bs.drop_last(), id)
    }
}

/// The model of a transcript.
pub struct TranscriptV {
    pub blocks: Seq<BlockV>,
    pub trimmed: nat,
    pub truncated: nat,
    pub last_seq: int,
    pub harness: Option<Seq<char>>,
    pub agents: nat,
    pub agents_done: nat,
    pub final_text: Option<Seq<char>>,
    pub thinking_from: Option<i64>,
    pub text_chars: nat,
    pub by_use: Map<Seq<char>, nat>,
    pub by_name: Map<Seq<char>, nat>,
    pub streaming: Option<Seq<char>>,
    pub pending: Option<Seq<char>>,
    pub candidate: Option<Seq<char>>,
    pub finalized: bool,
    pub cap: nat,
    pub block_cap: nat,
    pub total_budget: nat,
    pub tool_field_cap: nat,
}

/// The most characters one block can hold.
pub open spec fn block_max(s: TranscriptV) -> nat {
    s.block_cap + 4 * s.tool_field_cap
}

pub open spec fn points_at_tools(m: Map<Seq<char>, nat>, bs: Seq<BlockV>) -> bool {
    forall|k: Seq<char>| #[trigger] m.contains_key(k) ==> m[k] < bs.len() && bs[m[k] as int] is Tool
}

/// A block within the caps: a text within `block_cap`, each tool field
/// within `tool_field_cap`.
pub open spec fn block_ok(b: BlockV, block_cap: nat, tool_field_cap: nat) -> bool {
    match b {
        BlockV::Thinking { text, .. } => text.len() <= block_cap,
        BlockV::Message { text, .. } => text.len() <= block_cap,
        BlockV::Tool { tool, .. } => {
            &&& tool.name.len() <= tool_field_cap
            &&& opt_len(tool.kind) <= tool_field_cap
            &&& opt_len(tool.target) <= tool_field_cap
            &&& opt_len(tool.detail) <= tool_field_cap
        },
    }
}

pub open spec fn blocks_ok(s: TranscriptV) -> bool {
    forall|i: int| 0 <= i < s.blocks.len() ==> block_ok(#[trigger] s.blocks[i], s.block_cap, s.tool_field_cap)
}

/// The total-character budget is kept: the blocks together hold at most
/// `total_budget` characters, unless there is a single block (the newest is
/// never dropped for size alone).
pub open spec fn within_budget(s: TranscriptV) -> bool {
    s.blocks.len() <= 1 || s.text_chars <= s.total_budget
}

/// What holds of a transcript between events: the character count adds up,
/// the tool indexes point at tool blocks, and every cap is kept.
pub open spec fn wf(s: TranscriptV) -> bool {
    &&& s.text_chars == seq_chars(s.blocks)
    &&& points_at_tools(s.by_use, s.blocks)
    &&& points_at_tools(s.by_name, s.blocks)
    &&& blocks_ok(s)
    &&& s.blocks.len() <= s.cap
    &&& s.text_chars <= s.total_budget + block_max(s)
    &&& within_budget(s)
    &&& s.last_seq >= 0
    &&& s.total_budget + 2 * block_max(s) + 2 <= u128::MAX
    &&& s.thinking_from matches Some(a) ==> -400_000_000_000 <= a <= 400_000_000_000
}

/// Law: a transcript as `with_caps` makes it and `apply` keeps it (both
/// ensure `wf`) holds at most `cap` blocks and at most `total_budget`
/// characters in all, unless it holds a single block; each text holds at
/// most `block_cap` characters and each tool field at most
/// `tool_field_cap`.
pub proof fn law_caps_kept(s: TranscriptV)
    requires
        wf(s),
    ensures
        s.blocks.len() <= s.cap,
        s.blocks.len() <= 1 || seq_chars(s.blocks) <= s.total_budget,
        forall|i: int| 0 <= i < s.blocks.len() ==> block_ok(#[trigger] s.blocks[i], s.block_cap, s.tool_field_cap),
{
}

/// The `tool` object of a harness event (absent fields are `None`).
#[derive(Debug, Clone, Default)]
pub struct ToolFields {
    pub name: Option<String>,
    pub kind: Option<String>,
    pub target: Option<String>,
    pub use_id: Option<String>,
    pub status: Option<String>,
    pub content_summary: Option<String>,
    pub error_summary: Option<String>,
    pub exit_code: Option<i64>,
}

/// Whether a harness payload streams a delta: its own `delta` key decides
/// when present (true only as the boolean `true`); without one, the nested
/// `payload.delta` does (the live adapter's shape). `outer` is the key's
/// value as a boolean when present, `nested` the nested key's.
pub fn delta_flag(outer: Option<Option<bool>>, nested: Option<bool>) -> (r: bool)
    ensures
        r == match outer {
            Some(d) => d == Some(true),
            None => nested == Some(true),
        },
{
    match outer {
        Some(Some(b)) => b,
        Some(None) => false,
        None => match nested {
            Some(b) => b,
            None => false,
        },
    }
}

/// The payload of a `harness.event`: the fields the fold reads.
#[derive(Debug, Clone, Default)]
pub struct HarnessEvent {
    /// The harness payload's `type`.
    pub kind: Option<String>,
    pub harness_id: Option<String>,
    pub ts: Option<String>,
    pub text: Option<String>,
    /// `final` is `true`.
    pub is_final: bool,
    /// `delta` (or the nested `payload.delta`) is `true`.
    pub delta: bool,
    pub tool: ToolFields,
    /// An Agent/Task call's `payload.input`: description, subagent type and model.
    pub input_description: Option<String>,
    pub input_subagent_type: Option<String>,
    pub input_model: Option<String>,
}

/// One run event as the stream delivers it.
#[derive(Debug, Clone, Default)]
pub struct RunEvent {
    /// The event's `type`.
    pub kind: Option<String>,
    pub payload: Option<HarnessEvent>,
}

/// `s` with its count of cut characters raised by what clipping `text` cuts,
/// and the clipped text.
pub open spec fn sp_bound(s: TranscriptV, text: Seq<char>, cap: nat, keep_tail: bool) -> (TranscriptV, Seq<char>) {
    (TranscriptV { truncated: s.truncated + cut(text, cap), ..s }, clip_text(text, cap, keep_tail))
}

/// How many of the oldest blocks go to bring the count within `cap` and the
/// characters within `budget` (the newest block always stays).
pub open spec fn drop_count(bs: Seq<BlockV>, cap: nat, budget: nat) -> nat
    decreases bs.len(),
{
    if bs.len() > cap || (seq_chars(bs) > budget && bs.len() > 1) {
        1 + drop_count(bs.drop_first(), cap, budget)
    } else {
        0
    }
}

pub open spec fn sp_enforce(s: TranscriptV) -> TranscriptV {
    let d = drop_count(s.blocks, s.cap, s.total_budget);
    if d == 0 {
        s
    } else {
        let rest = s.blocks.subrange(d as int, s.blocks.len() as int);
        TranscriptV {
            blocks: rest,
            text_chars: seq_chars(rest),
            trimmed: s.trimmed + d,
            by_use: shifted_down(s.by_use, d),
            by_name: shifted_down(s.by_name, d),
            ..s
        }
    }
}

pub open spec fn sp_append(s: TranscriptV, b: BlockV) -> TranscriptV {
    sp_enforce(
        TranscriptV {
            streaming: if b is Message { s.streaming } else { None },
            text_chars: s.text_chars + block_chars(b),
            blocks: s.blocks.push(b),
            ..s
        },
    )
}

/// Drop the message `id` when its text is the head-bounded final text.
pub open spec fn sp_remove_twin(s: TranscriptV, id: Option<Seq<char>>, final_text: Seq<char>) -> TranscriptV {
    match id {
        None => s,
        Some(id) => match last_index(s.blocks, id) {
            None => s,
            Some(i) => match s.blocks[i as int] {
                BlockV::Message { text, .. } => if text != clip_text(final_text, s.block_cap, false) {
                    s
                } else {
                    TranscriptV {
                        text_chars: (s.text_chars - text.len()) as nat,
                        blocks: s.blocks.remove(i as int),
                        by_use: closed_gap(s.by_use, i),
                        by_name: closed_gap(s.by_name, i),
                        ..s
                    }
                },
                _ => s,
            },
        },
    }
}

/// A tool row with its name, kind, target and detail bounded.
pub open spec fn sp_bounded_tool(
    s: TranscriptV,
    name: Seq<char>,
    kind: Option<Seq<char>>,
    target: Option<Seq<char>>,
    status: ToolStatus,
    detail: Option<Seq<char>>,
    exit_code: Option<i64>,
) -> (TranscriptV, ToolV) {
    let c = s.tool_field_cap;
    (
        TranscriptV {
            truncated: s.truncated + cut(name, c) + opt_cut(kind, c) + opt_cut(target, c) + opt_cut(detail, c),
            ..s
        },
        ToolV {
            name: clip_text(name, c, false),
            kind: opt_clip(kind, c),
            target: opt_clip(target, c),
            status,
            detail: opt_clip(detail, c),
            exit_code,
            note: None,
            sub: None,
            background: false,
        },
    )
}

pub open spec fn tool_or_default(o: Option<Seq<char>>) -> Seq<char> {
    match o {
        Some(n) => n,
        None => "tool"@,
    }
}

/// "type · model" of a subagent, `None` when both are missing or it is empty.
pub open spec fn sub_line(a: Option<Seq<char>>, b: Option<Seq<char>>) -> Option<Seq<char>> {
    let j = match (a, b) {
        (Some(x), Some(y)) => x + " · "@ + y,
        (Some(x), None) => x,
        (None, Some(y)) => y,
        (None, None) => Seq::empty(),
    };
    if j.len() == 0 {
        None
    } else {
        Some(j)
    }
}

pub open spec fn starts_with(t: Seq<char>, p: Seq<char>) -> bool {
    t.len() >= p.len() && t.subrange(0, p.len() as int) == p
}

/// A result whose summary reports only a background launch.
pub open spec fn launch_note(summary: Option<Seq<char>>) -> bool {
    match summary {
        Some(t) => starts_with(t, "Async agent launched"@),
        None => false,
    }
}

/// The event's timestamp in unix seconds, when it has one that parses.
pub open spec fn event_ts(p: HarnessEvent) -> Option<i64> {
    match p.ts {
        Some(t) => match iso_seconds(encode_utf8(t@)) {
            Some(v) => Some(v as i64),
            None => None,
        },
        None => None,
    }
}

pub open spec fn has_text(o: Option<Seq<char>>) -> bool {
    o is Some && o.unwrap().len() > 0
}

pub open spec fn sp_thinking(s: TranscriptV, key: Seq<char>, p: HarnessEvent) -> (TranscriptV, bool) {
    let text = opt_view(p.text);
    let ts = event_ts(p);
    if !has_text(text) {
        (s, false)
    } else {
        let t = text.unwrap();
        if s.blocks.len() > 0 && s.blocks.last() is Thinking {
            let last = s.blocks.last();
            let prev = last->Thinking_text;
            let (s3, bounded) = sp_bound(s, prev + seq!['\n'] + t, s.block_cap, true);
            let secs = match (s3.thinking_from, ts) {
                (Some(a), Some(b)) => Some(if b - a > 0 { (b - a) as i64 } else { 0i64 }),
                _ => None,
            };
            let nb = BlockV::Thinking {
                id: last->Thinking_id,
                text: bounded,
                secs: if secs is Some { secs } else { last->Thinking_secs },
            };
            let s4 = TranscriptV {
                text_chars: (s3.text_chars + bounded.len() - prev.len()) as nat,
                blocks: s3.blocks.update(s3.blocks.len() - 1, nb),
                ..s3
            };
            (sp_enforce(s4), true)
        } else {
            let s3 = TranscriptV { thinking_from: ts, ..s };
            let (s4, tb) = sp_bound(s3, t, s.block_cap, true);
            let b = BlockV::Thinking {
                id: "th-"@ + key,
                text: tb,
                secs: if ts is Some { Some(0i64) } else { None },
            };
            (sp_append(s4, b), true)
        }
    }
}

pub open spec fn sp_final(s: TranscriptV, p: HarnessEvent) -> (TranscriptV, bool) {
    let text = opt_view(p.text);
    let s3 = TranscriptV { streaming: None, pending: None, finalized: true, ..s };
    let s4 = if has_text(text) {
        let s3b = TranscriptV { final_text: Some(clip_text(text.unwrap(), s.block_cap, false)), ..s3 };
        sp_remove_twin(s3b, s3b.candidate, text.unwrap())
    } else {
        s3
    };
    (TranscriptV { candidate: None, ..s4 }, true)
}

pub open spec fn sp_delta(s: TranscriptV, key: Seq<char>, t: Seq<char>) -> (TranscriptV, bool) {
    if s.finalized {
        (s, false)
    } else {
        let continues = s.streaming is Some && s.blocks.len() > 0 && s.blocks.last() is Message
            && s.blocks.last()->Message_id == s.streaming.unwrap();
        let s5 = if continues {
            let last = s.blocks.last();
            let prev = last->Message_text;
            let (s3, bounded) = sp_bound(s, prev + t, s.block_cap, false);
            let s4 = TranscriptV {
                text_chars: (s3.text_chars + bounded.len() - prev.len()) as nat,
                blocks: s3.blocks.update(s3.blocks.len() - 1, BlockV::Message { id: last->Message_id, text: bounded }),
                ..s3
            };
            sp_enforce(s4)
        } else {
            let id = "msg-"@ + key;
            let (s3, tb) = sp_bound(s, t, s.block_cap, false);
            let s4 = sp_append(s3, BlockV::Message { id, text: tb });
            TranscriptV { streaming: Some(id), ..s4 }
        };
        (TranscriptV { pending: s5.streaming, candidate: s5.streaming, ..s5 }, true)
    }
}

/// Where a complete message folds into its delta-built block, if anywhere.
pub open spec fn flush_target(s: TranscriptV) -> Option<nat> {
    match s.pending {
        Some(pid) => match last_index(s.blocks, pid) {
            Some(i) => if s.blocks[i as int] is Message { Some(i) } else { None },
            None => None,
        },
        None => None,
    }
}

pub open spec fn sp_complete(s: TranscriptV, key: Seq<char>, t: Seq<char>) -> (TranscriptV, bool) {
    match flush_target(s) {
        Some(i) => {
            let pid = s.pending.unwrap();
            let prev = s.blocks[i as int]->Message_text;
            let (s3, bounded) = sp_bound(s, t, s.block_cap, false);
            let s4 = TranscriptV {
                text_chars: (s3.text_chars + bounded.len() - prev.len()) as nat,
                blocks: s3.blocks.update(i as int, BlockV::Message { id: pid, text: bounded }),
                pending: None,
                streaming: None,
                candidate: Some(pid),
                ..s3
            };
            (sp_enforce(s4), true)
        },
        None => {
            let id = "msg-"@ + key;
            let (s3, tb) = sp_bound(s, t, s.block_cap, false);
            let s4 = sp_append(s3, BlockV::Message { id, text: tb });
            (TranscriptV { candidate: Some(id), ..s4 }, true)
        },
    }
}

pub open spec fn sp_message(s: TranscriptV, key: Seq<char>, p: HarnessEvent) -> (TranscriptV, bool) {
    let text = opt_view(p.text);
    if p.is_final {
        sp_final(s, p)
    } else if !has_text(text) {
        (s, false)
    } else if p.delta {
        sp_delta(s, key, text.unwrap())
    } else {
        sp_complete(s, key, text.unwrap())
    }
}

pub open spec fn sp_tool_call(s: TranscriptV, key: Seq<char>, p: HarnessEvent) -> (TranscriptV, bool) {
    let tf = p.tool;
    let (s3, tool0) = sp_bounded_tool(
        s,
        tool_or_default(opt_view(tf.name)),
        opt_view(tf.kind),
        opt_view(tf.target),
        ToolStatus::Running,
        opt_view(tf.content_summary),
        tf.exit_code,
    );
    let tool1 = if tool0.name == "Agent"@ || tool0.name == "Task"@ {
        ToolV {
            note: opt_view(p.input_description),
            sub: sub_line(opt_view(p.input_subagent_type), opt_view(p.input_model)),
            ..tool0
        }
    } else {
        tool0
    };
    let s4 = sp_append(s3, BlockV::Tool { id: "tool-"@ + key, tool: tool1 });
    let idx = (s4.blocks.len() - 1) as nat;
    let s5 = TranscriptV {
        by_use: match opt_view(tf.use_id) {
            Some(u) => s4.by_use.insert(u, idx),
            None => s4.by_use,
        },
        by_name: s4.by_name.insert(tool1.name, idx),
        ..s4
    };
    (s5, true)
}

/// The tool row a result belongs to: by `use_id`, else by name.
pub open spec fn result_target(s: TranscriptV, use_id: Option<Seq<char>>, name: Option<Seq<char>>) -> Option<nat> {
    match use_id {
        Some(u) if s.by_use.contains_key(u) => Some(s.by_use[u]),
        _ => match name {
            Some(n) if s.by_name.contains_key(n) => Some(s.by_name[n]),
            _ => None,
        },
    }
}

pub open spec fn result_status(tf: ToolFields) -> ToolStatus {
    if opt_view(tf.status) == Some("error"@) {
        ToolStatus::Error
    } else {
        ToolStatus::Succeeded
    }
}

pub open spec fn result_detail(tf: ToolFields) -> Option<Seq<char>> {
    if tf.error_summary is Some {
        opt_view(tf.error_summary)
    } else {
        opt_view(tf.content_summary)
    }
}

/// A result folded into the tool row at `i`.
pub open spec fn sp_finish(s: TranscriptV, i: nat, tf: ToolFields) -> TranscriptV {
    let use_id = opt_view(tf.use_id);
    let name = opt_view(tf.name);
    let status = result_status(tf);
    let detail = result_detail(tf);
    let exit = tf.exit_code;
    let s3 = TranscriptV { truncated: s.truncated + opt_cut(detail, s.tool_field_cap), ..s };
    let bounded = opt_clip(detail, s.tool_field_cap);
    let launched = launch_note(opt_view(tf.content_summary));
    let b = s.blocks[i as int]->Tool_tool;
    let nt = ToolV {
        status,
        background: launched,
        detail: if bounded is Some { bounded } else { b.detail },
        exit_code: if exit is Some { exit } else { b.exit_code },
        ..b
    };
    let s5 = TranscriptV {
        agents: if launched { s3.agents + 1 } else { s3.agents },
        text_chars: if bounded is Some {
            (s3.text_chars + opt_len(bounded) - opt_len(b.detail)) as nat
        } else {
            s3.text_chars
        },
        blocks: s3.blocks.update(i as int, BlockV::Tool { id: block_id(s3.blocks[i as int]), tool: nt }),
        by_use: match use_id {
            Some(u) => s3.by_use.remove(u),
            None => s3.by_use,
        },
        by_name: match name {
            Some(n) => s3.by_name.remove(n),
            None => s3.by_name,
        },
        ..s3
    };
    sp_enforce(s5)
}

pub open spec fn sp_tool_result(s: TranscriptV, key: Seq<char>, p: HarnessEvent) -> (TranscriptV, bool) {
    let tf = p.tool;
    let use_id = opt_view(tf.use_id);
    let name = opt_view(tf.name);
    let status = result_status(tf);
    let detail = result_detail(tf);
    let exit = tf.exit_code;
    match result_target(s, use_id, name) {
        Some(i) if i < s.blocks.len() && s.blocks[i as int] is Tool => (sp_finish(s, i, tf), true),
        _ => {
            let (s3, tool) = sp_bounded_tool(s, tool_or_default(name), opt_view(tf.kind), opt_view(tf.target), status, detail, exit);
            (sp_append(s3, BlockV::Tool { id: "tool-"@ + key, tool }), true)
        },
    }
}

/// The effect of one event: the new transcript, and whether what it shows
/// changed.
pub open spec fn step(s: TranscriptV, seq: int, ev: RunEvent) -> (TranscriptV, bool) {
    if seq <= s.last_seq {
        (s, false)
    } else {
        let s1 = TranscriptV { last_seq: seq, ..s };
        if opt_view(ev.kind) != Some("harness.event"@) || ev.payload is None {
            (s1, false)
        } else {
            let p = ev.payload.unwrap();
            let s2 = if s1.harness is None { TranscriptV { harness: opt_view(p.harness_id), ..s1 } } else { s1 };
            let key = decimal(seq as nat);
            let k = opt_view(p.kind);
            if k == Some("started"@) {
                if s2.agents > s2.agents_done {
                    (TranscriptV { agents_done: s2.agents_done + 1, ..s2 }, true)
                } else {
                    (s2, false)
                }
            } else if k == Some("thinking"@) {
                sp_thinking(s2, key, p)
            } else if k == Some("message"@) {
                sp_message(s2, key, p)
            } else if k == Some("tool_call"@) {
                sp_tool_call(s2, key, p)
            } else if k == Some("tool_result"@) {
                sp_tool_result(s2, key, p)
            } else {
                (s2, false)
            }
        }
    }
}

pub struct Transcript {
    pub blocks: Vec<Block>,
    /// Oldest whole blocks evicted to stay under the caps ("N earlier…").
    pub trimmed: usize,
    /// Characters cut from overlong single blocks: disclosed, never silent.
    pub truncated_chars: usize,
    /// Highest seq folded; the stream's resume cursor.
    pub last_seq: i64,
    /// The harness streaming this run (every harness event carries it).
    pub harness: Option<String>,
    /// Background subagents launched, and how many have finished: each
    /// finish resumes the parent session with a fresh `started` event.
    pub agents: usize,
    pub agents_done: usize,
    /// The typed final message: the answer when the run wrote no answer file.
    pub final_text: Option<String>,
    thinking_from: Option<i64>,
    text_chars: u128,
    tool_by_use_id: KeyedIndex,
    open_tool_by_name: KeyedIndex,
    streaming_msg: Option<String>,
    pending_flush: Option<String>,
    msg_candidate: Option<String>,
    finalized: bool,
    cap: usize,
    block_cap: usize,
    total_budget: usize,
    tool_field_cap: usize,
}

impl Transcript {
    pub closed spec fn spec_thinking_from(&self) -> Option<i64> {
        self.thinking_from
    }

    pub closed spec fn spec_text_chars(&self) -> nat {
        self.text_chars as nat
    }

    pub closed spec fn spec_by_use(&self) -> Map<Seq<char>, nat> {
        self.tool_by_use_id@
    }

    pub closed spec fn spec_by_name(&self) -> Map<Seq<char>, nat> {
        self.open_tool_by_name@
    }

    pub closed spec fn spec_streaming(&self) -> Option<Seq<char>> {
        opt_view(self.streaming_msg)
    }

    pub closed spec fn spec_pending(&self) -> Option<Seq<char>> {
        opt_view(self.pending_flush)
    }

    pub closed spec fn spec_candidate(&self) -> Option<Seq<char>> {
        opt_view(self.msg_candidate)
    }

    pub closed spec fn spec_finalized(&self) -> bool {
        self.finalized
    }

    pub closed spec fn spec_caps(&self) -> (nat, nat, nat, nat) {
        (self.cap as nat, self.block_cap as nat, self.total_budget as nat, self.tool_field_cap as nat)
    }
}

impl View for Transcript {
    type V = TranscriptV;

    closed spec fn view(&self) -> TranscriptV {
        TranscriptV {
            blocks: blocks_view(self.blocks@),
            trimmed: self.trimmed as nat,
            truncated: self.truncated_chars as nat,
            last_seq: self.last_seq as int,
            harness: opt_view(self.harness),
            agents: self.agents as nat,
            agents_done: self.agents_done as nat,
            final_text: opt_view(self.final_text),
            thinking_from: self.spec_thinking_from(),
            text_chars: self.spec_text_chars(),
            by_use: self.spec_by_use(),
            by_name: self.spec_by_name(),
            streaming: self.spec_streaming(),
            pending: self.spec_pending(),
            candidate: self.spec_candidate(),
            finalized: self.spec_finalized(),
            cap: self.spec_caps().0,
            block_cap: self.spec_caps().1,
            total_budget: self.spec_caps().2,
            tool_field_cap: self.spec_caps().3,
        }
    }
}

/// A transcript with no events folded yet.
pub open spec fn fresh(cap: nat, block_cap: nat, total_budget: nat, tool_field_cap: nat) -> TranscriptV {
    TranscriptV {
        blocks: Seq::empty(),
        trimmed: 0,
        truncated: 0,
        last_seq: 0,
        harness: None,
        agents: 0,
        agents_done: 0,
        final_text: None,
        thinking_from: None,
        text_chars: 0,
        by_use: Map::empty(),
        by_name: Map::empty(),
        streaming: None,
        pending: None,
        candidate: None,
        finalized: false,
        cap,
        block_cap,
        total_budget,
        tool_field_cap,
    }
}

pub open spec fn count_tools(bs: Seq<BlockV>) -> nat
    decreases bs.len(),
{
    if bs.len() == 0 {
        0
    } else {
        count_tools(bs.drop_last()) + if bs.last() is Tool { 1nat } else { 0nat }
    }
}

/// What the newest tool or thinking block is doing, skipping messages.
pub open spec fn activity(bs: Seq<BlockV>) -> Option<Seq<char>>
    decreases bs.len(),
{
    if bs.len() == 0 {
        None
    } else {
        match bs.last() {
            BlockV::Tool { tool, .. } => Some(
                match tool.note {
                    Some(n) => n,
                    None => tool.name,
                },
            ),
            BlockV::Thinking { .. } => Some("Thinking"@),
            BlockV::Message { .. } => activity(bs.drop_last()),
        }
    }
}

/// `text` cut to `cap` characters: its tail when `keep_tail`, else its head.
pub fn clip(text: &str, cap: usize, keep_tail: bool) -> (r: String)
    ensures
        r@ == clip_text(text@, cap as nat, keep_tail),
{
    let n = text.unicode_len();
    if n <= cap {
        return String::from_str(text);
    }
    if keep_tail {
        String::from_str(text.substring_char(n - cap, n))
    } else {
        String::from_str(text.substring_char(0, cap))
    }
}

proof fn lemma_blocks_view_push(bs: Seq<Block>, b: Block)
    ensures
        blocks_view(bs.push(b)) == blocks_view(bs).push(b@),
{
    assert(blocks_view(bs.push(b)) =~= blocks_view(bs).push(b@));
}

proof fn lemma_blocks_view_update(bs: Seq<Block>, i: int, b: Block)
    requires
        0 <= i < bs.len(),
    ensures
        blocks_view(bs.update(i, b)) == blocks_view(bs).update(i, b@),
{
    assert(blocks_view(bs.update(i, b)) =~= blocks_view(bs).update(i, b@));
}

proof fn lemma_blocks_view_remove(bs: Seq<Block>, i: int)
    requires
        0 <= i < bs.len(),
    ensures
        blocks_view(bs.remove(i)) == blocks_view(bs).remove(i),
{
    assert(blocks_view(bs.remove(i)) =~= blocks_view(bs).remove(i));
}

proof fn lemma_blocks_view_suffix(bs: Seq<Block>, d: int)
    requires
        0 <= d <= bs.len(),
    ensures
        blocks_view(bs.subrange(d, bs.len() as int)) == blocks_view(bs).subrange(d, bs.len() as int),
{
    assert(blocks_view(bs.subrange(d, bs.len() as int)) =~= blocks_view(bs).subrange(d, bs.len() as int));
}

proof fn lemma_seq_chars_push(bs: Seq<BlockV>, b: BlockV)
    ensures
        seq_chars(bs.push(b)) == seq_chars(bs) + block_chars(b),
    decreases bs.len(),
{
    if bs.len() == 0 {
        assert(bs.push(b).drop_first() =~= Seq::<BlockV>::empty());
        assert(seq_chars(bs.push(b).drop_first()) == 0);
        assert(bs.push(b)[0] == b);
    } else {
        assert(bs.push(b).drop_first() =~= bs.drop_first().push(b));
        assert(bs.push(b)[0] == bs[0]);
        lemma_seq_chars_push(bs.drop_first(), b);
    }
}

proof fn lemma_seq_chars_update(bs: Seq<BlockV>, i: int, b: BlockV)
    requires
        0 <= i < bs.len(),
    ensures
        seq_chars(bs.update(i, b)) + block_chars(bs[i]) == seq_chars(bs) + block_chars(b),
    decreases bs.len(),
{
    if i > 0 {
        assert(bs.update(i, b).drop_first() =~= bs.drop_first().update(i - 1, b));
        lemma_seq_chars_update(bs.drop_first(), i - 1, b);
    } else {
        assert(bs.update(i, b).drop_first() =~= bs.drop_first());
    }
}

proof fn lemma_seq_chars_remove(bs: Seq<BlockV>, i: int)
    requires
        0 <= i < bs.len(),
    ensures
        seq_chars(bs.remove(i)) + block_chars(bs[i]) == seq_chars(bs),
    decreases bs.len(),
{
    if i > 0 {
        assert(bs.remove(i).drop_first() =~= bs.drop_first().remove(i - 1));
        lemma_seq_chars_remove(bs.drop_first(), i - 1);
    } else {
        assert(bs.remove(i) =~= bs.drop_first());
    }
}

/// Every block's count is at most the total.
proof fn lemma_seq_chars_each(bs: Seq<BlockV>, i: int)
    requires
        0 <= i < bs.len(),
    ensures
        block_chars(bs[i]) <= seq_chars(bs),
    decreases bs.len(),
{
    if i > 0 {
        lemma_seq_chars_each(bs.drop_first(), i - 1);
    }
}

impl Block {
    /// The block's id.
    pub fn id(&self) -> (r: &str)
        ensures
            r@ == block_id(self@),
    {
        match self {
            Block::Thinking { id, .. } => id.as_str(),
            Block::Message { id, .. } => id.as_str(),
            Block::Tool { id, .. } => id.as_str(),
        }
    }

    fn id_string(&self) -> (r: &String)
        ensures
            r@ == block_id(self@),
    {
        match self {
            Block::Thinking { id, .. } => id,
            Block::Message { id, .. } => id,
            Block::Tool { id, .. } => id,
        }
    }

    /// The characters the block counts against the budget.
    pub fn chars(&self) -> (r: usize)
        requires
            block_chars(self@) <= usize::MAX,
        ensures
            r == block_chars(self@),
    {
        match self {
            Block::Thinking { text, .. } => text.as_str().unicode_len(),
            Block::Message { text, .. } => text.as_str().unicode_len(),
            Block::Tool { tool, .. } => {
                let a = tool.name.as_str().unicode_len();
                let b = match &tool.kind {
                    Some(s) => s.as_str().unicode_len(),
                    None => 0,
                };
                let c = match &tool.target {
                    Some(s) => s.as_str().unicode_len(),
                    None => 0,
                };
                let d = match &tool.detail {
                    Some(s) => s.as_str().unicode_len(),
                    None => 0,
                };
                a + b + c + d
            },
        }
    }
}

impl Block {
    /// The characters the block counts against the budget, in a counter
    /// wide enough for any caps.
    fn chars_wide(&self) -> (r: u128)
        ensures
            r == block_chars(self@),
    {
        match self {
            Block::Thinking { text, .. } => text.as_str().unicode_len() as u128,
            Block::Message { text, .. } => text.as_str().unicode_len() as u128,
            Block::Tool { tool, .. } => {
                let a = tool.name.as_str().unicode_len() as u128;
                let b = match &tool.kind {
                    Some(s) => s.as_str().unicode_len() as u128,
                    None => 0,
                };
                let c = match &tool.target {
                    Some(s) => s.as_str().unicode_len() as u128,
                    None => 0,
                };
                let d = match &tool.detail {
                    Some(s) => s.as_str().unicode_len() as u128,
                    None => 0,
                };
                a + b + c + d
            },
        }
    }
}

/// The parts of `wf` that every intermediate state of a fold keeps.
pub open spec fn consistent(s: TranscriptV) -> bool {
    &&& s.text_chars == seq_chars(s.blocks)
    &&& points_at_tools(s.by_use, s.blocks)
    &&& points_at_tools(s.by_name, s.blocks)
}

impl Transcript {
    pub fn with_caps(cap: usize, block_cap: usize, total_budget: usize, tool_field_cap: usize) -> (t: Self)
        ensures
            t@ == fresh(cap as nat, block_cap as nat, total_budget as nat, tool_field_cap as nat),
            wf(t@),
    {
        let t = Transcript {
            blocks: Vec::new(),
            trimmed: 0,
            truncated_chars: 0,
            last_seq: 0,
            harness: None,
            agents: 0,
            agents_done: 0,
            final_text: None,
            thinking_from: None,
            text_chars: 0,
            tool_by_use_id: KeyedIndex::new(),
            open_tool_by_name: KeyedIndex::new(),
            streaming_msg: None,
            pending_flush: None,
            msg_candidate: None,
            finalized: false,
            cap,
            block_cap,
            total_budget,
            tool_field_cap,
        };
        assert(t@.blocks =~= Seq::<BlockV>::empty());
        t
    }

    /// The blocks, for verified callers in other modules (the fields are
    /// read through the view there).
    pub fn block_list(&self) -> (r: &Vec<Block>)
        ensures
            blocks_view(r@) == self@.blocks,
    {
        &self.blocks
    }

    /// Whole blocks evicted so far.
    pub fn trimmed_count(&self) -> (r: usize)
        ensures
            r == self@.trimmed,
    {
        self.trimmed
    }

    /// Characters clipped so far.
    pub fn truncated_count(&self) -> (r: usize)
        ensures
            r == self@.truncated,
    {
        self.truncated_chars
    }

    /// The highest seq folded: the stream's resume cursor.
    pub fn cursor(&self) -> (r: i64)
        ensures
            r == self@.last_seq,
    {
        self.last_seq
    }

    /// How many tool rows the transcript shows.
    pub fn tool_count(&self) -> (r: usize)
        ensures
            r == count_tools(self@.blocks),
    {
        let mut n: usize = 0;
        let mut i: usize = 0;
        while i < self.blocks.len()
            invariant
                i <= self.blocks@.len(),
                n == count_tools(blocks_view(self.blocks@).subrange(0, i as int)),
                n <= i,
            decreases self.blocks@.len() - i,
        {
            proof {
                let bv = blocks_view(self.blocks@);
                assert(bv.subrange(0, i + 1).drop_last() =~= bv.subrange(0, i as int));
            }
            if let Block::Tool { .. } = &self.blocks[i] {
                n = n + 1;
            }
            i = i + 1;
        }
        proof {
            let bv = blocks_view(self.blocks@);
            assert(bv.subrange(0, bv.len() as int) =~= bv);
        }
        n
    }

    /// The newest thing the run is doing, for a collapsed live card.
    pub fn last_activity(&self) -> (r: Option<String>)
        ensures
            opt_view(r) == activity(self@.blocks),
    {
        let ghost bv = blocks_view(self.blocks@);
        let mut i = self.blocks.len();
        assert(bv.subrange(0, i as int) =~= bv);
        while i > 0
            invariant
                i <= self.blocks@.len(),
                bv == blocks_view(self.blocks@),
                activity(bv) == activity(bv.subrange(0, i as int)),
            decreases i,
        {
            assert(bv.subrange(0, i as int).drop_last() =~= bv.subrange(0, i - 1));
            match &self.blocks[i - 1] {
                Block::Tool { tool, .. } => {
                    return match &tool.note {
                        Some(n) => Some(n.clone()),
                        None => Some(tool.name.clone()),
                    };
                },
                Block::Thinking { .. } => {
                    return Some(String::from_str("Thinking"));
                },
                Block::Message { .. } => {},
            }
            i = i - 1;
        }
        None
    }

    /// Clip `text` to `cap` characters and count what was cut.
    pub fn bound(&mut self, text: &str, cap: usize, keep_tail: bool) -> (r: String)
        requires
            old(self)@.truncated + text@.len() <= usize::MAX,
        ensures
            final(self)@ == sp_bound(old(self)@, text@, cap as nat, keep_tail).0,
            r@ == sp_bound(old(self)@, text@, cap as nat, keep_tail).1,
    {
        let c = clip(text, cap, keep_tail);
        let n = text.unicode_len();
        let m = c.as_str().unicode_len();
        self.truncated_chars = self.truncated_chars + (n - m);
        c
    }

    fn enforce_budget(&mut self)
        requires
            consistent(old(self)@),
            old(self).trimmed + old(self).blocks@.len() <= usize::MAX,
        ensures
            final(self)@ == sp_enforce(old(self)@),
    {
        let ghost s = self@;
        let ghost bv = blocks_view(self.blocks@);
        let mut drop: usize = 0;
        let mut remaining = self.text_chars;
        assert(bv.subrange(0, bv.len() as int) =~= bv);
        while self.blocks.len() - drop > self.cap || (remaining > self.total_budget as u128 && self.blocks.len() - drop > 1)
            invariant
                s == old(self)@,
                self@ == s,
                bv == s.blocks,
                bv == blocks_view(self.blocks@),
                drop <= bv.len(),
                remaining == seq_chars(bv.subrange(drop as int, bv.len() as int)),
                drop_count(bv, s.cap, s.total_budget) == drop + drop_count(bv.subrange(drop as int, bv.len() as int), s.cap, s.total_budget),
            decreases bv.len() - drop,
        {
            let ghost rest = bv.subrange(drop as int, bv.len() as int);
            assert(rest.drop_first() =~= bv.subrange(drop + 1, bv.len() as int));
            assert(rest[0] == bv[drop as int]);
            let c = self.blocks[drop].chars_wide();
            remaining = remaining - c;
            drop = drop + 1;
        }
        if drop == 0 {
            return;
        }
        let tail = self.blocks.split_off(drop);
        proof {
            lemma_blocks_view_suffix(old(self).blocks@, drop as int);
        }
        self.blocks = tail;
        self.text_chars = remaining;
        self.trimmed = self.trimmed + drop;
        self.tool_by_use_id.shift_down(drop);
        self.open_tool_by_name.shift_down(drop);
    }

    fn append(&mut self, block: Block)
        requires
            consistent(old(self)@),
            old(self).text_chars + block_chars(block@) <= u128::MAX,
            old(self).trimmed + old(self).blocks@.len() + 1 <= usize::MAX,
        ensures
            final(self)@ == sp_append(old(self)@, block@),
    {
        let is_message = match &block {
            Block::Message { .. } => true,
            _ => false,
        };
        if !is_message {
            self.streaming_msg = None;
        }
        let c = block.chars_wide();
        self.text_chars = self.text_chars + c;
        let ghost before = self.blocks@;
        self.blocks.push(block);
        proof {
            lemma_blocks_view_push(before, block);
            lemma_seq_chars_push(blocks_view(before), block@);
        }
        self.enforce_budget();
    }
}

proof fn lemma_block_ok_chars(b: BlockV, block_cap: nat, tool_field_cap: nat)
    requires
        block_ok(b, block_cap, tool_field_cap),
    ensures
        block_chars(b) <= block_cap + 4 * tool_field_cap,
{
}

proof fn lemma_drop_count(bs: Seq<BlockV>, cap: nat, budget: nat)
    ensures
        drop_count(bs, cap, budget) <= bs.len(),
        ({
            let rest = bs.subrange(drop_count(bs, cap, budget) as int, bs.len() as int);
            !(rest.len() > cap || (seq_chars(rest) > budget && rest.len() > 1))
        }),
        cap >= 1 && bs.len() >= 1 ==> drop_count(bs, cap, budget) < bs.len(),
    decreases bs.len(),
{
    if bs.len() > cap || (seq_chars(bs) > budget && bs.len() > 1) {
        lemma_drop_count(bs.drop_first(), cap, budget);
        let d = drop_count(bs.drop_first(), cap, budget);
        assert(bs.drop_first().subrange(d as int, bs.len() - 1) =~= bs.subrange(d as int + 1, bs.len() as int));
    } else {
        assert(bs.subrange(0, bs.len() as int) =~= bs);
    }
}

/// Dropping the oldest blocks keeps the count consistent, the indexes
/// valid and the caps; with room for a block, the newest one stays.
proof fn lemma_enforce(s: TranscriptV)
    requires
        consistent(s),
        blocks_ok(s),
    ensures
        consistent(sp_enforce(s)),
        blocks_ok(sp_enforce(s)),
        sp_enforce(s).blocks.len() <= s.cap,
        sp_enforce(s).text_chars <= s.total_budget + block_max(s),
        within_budget(sp_enforce(s)),
        sp_enforce(s).blocks.len() <= s.blocks.len(),
        sp_enforce(s).trimmed == s.trimmed + (s.blocks.len() - sp_enforce(s).blocks.len()),
        s.cap >= 1 && s.blocks.len() >= 1 ==> sp_enforce(s).blocks.len() >= 1 && sp_enforce(s).blocks.last() == s.blocks.last(),
{
    let d = drop_count(s.blocks, s.cap, s.total_budget);
    lemma_drop_count(s.blocks, s.cap, s.total_budget);
    let e = sp_enforce(s);
    if d == 0 {
        assert(s.blocks.subrange(0, s.blocks.len() as int) =~= s.blocks);
        if s.blocks.len() == 1 {
            lemma_block_ok_chars(s.blocks[0], s.block_cap, s.tool_field_cap);
            assert(s.blocks.drop_first() =~= Seq::<BlockV>::empty());
            assert(seq_chars(s.blocks.drop_first()) == 0);
        }
        if s.blocks.len() == 0 {
            assert(seq_chars(s.blocks) == 0);
        }
    } else {
        let rest = s.blocks.subrange(d as int, s.blocks.len() as int);
        assert(e.blocks == rest);
        assert forall|k: Seq<char>| #[trigger] e.by_use.contains_key(k) implies e.by_use[k] < rest.len() && rest[e.by_use[k] as int] is Tool by {
            assert(s.by_use.contains_key(k));
        }
        assert forall|k: Seq<char>| #[trigger] e.by_name.contains_key(k) implies e.by_name[k] < rest.len() && rest[e.by_name[k] as int] is Tool by {
            assert(s.by_name.contains_key(k));
        }
        assert forall|i: int| 0 <= i < rest.len() implies block_ok(#[trigger] rest[i], s.block_cap, s.tool_field_cap) by {
            assert(rest[i] == s.blocks[i + d]);
        }
        if rest.len() == 1 {
            lemma_block_ok_chars(rest[0], s.block_cap, s.tool_field_cap);
            assert(rest.drop_first() =~= Seq::<BlockV>::empty());
            assert(seq_chars(rest.drop_first()) == 0);
        }
        if rest.len() == 0 {
            assert(seq_chars(rest) == 0);
        }
    }
}

/// Removing a message block keeps the count consistent and the indexes
/// valid.
proof fn lemma_remove_message(s: TranscriptV, i: int)
    requires
        consistent(s),
        blocks_ok(s),
        0 <= i < s.blocks.len(),
        s.blocks[i] is Message,
    ensures
        ({
            let e = TranscriptV {
                text_chars: (s.text_chars - block_chars(s.blocks[i])) as nat,
                blocks: s.blocks.remove(i),
                by_use: closed_gap(s.by_use, i as nat),
                by_name: closed_gap(s.by_name, i as nat),
                ..s
            };
            consistent(e) && blocks_ok(e)
        }),
{
    lemma_seq_chars_remove(s.blocks, i);
    let rest = s.blocks.remove(i);
    assert forall|k: Seq<char>| #[trigger] closed_gap(s.by_use, i as nat).contains_key(k) implies closed_gap(s.by_use, i as nat)[k] < rest.len() && rest[closed_gap(s.by_use, i as nat)[k] as int] is Tool by {
        assert(s.by_use.contains_key(k));
    }
    assert forall|k: Seq<char>| #[trigger] closed_gap(s.by_name, i as nat).contains_key(k) implies closed_gap(s.by_name, i as nat)[k] < rest.len() && rest[closed_gap(s.by_name, i as nat)[k] as int] is Tool by {
        assert(s.by_name.contains_key(k));
    }
    assert forall|j: int| 0 <= j < rest.len() implies block_ok(#[trigger] rest[j], s.block_cap, s.tool_field_cap) by {
        if j < i {
            assert(rest[j] == s.blocks[j]);
        } else {
            assert(rest[j] == s.blocks[j + 1]);
        }
    }
}

impl Transcript {
    /// The position of the last block with id `id`.
    fn find_last(&self, id: &String) -> (r: Option<usize>)
        ensures
            match r {
                Some(j) => last_index(self@.blocks, id@) == Some(j as nat) && j < self@.blocks.len(),
                None => last_index(self@.blocks, id@) is None,
            },
    {
        let ghost bv = blocks_view(self.blocks@);
        let mut i = self.blocks.len();
        assert(bv.subrange(0, i as int) =~= bv);
        while i > 0
            invariant
                i <= self.blocks@.len(),
                bv == blocks_view(self.blocks@),
                bv == self@.blocks,
                last_index(bv, id@) == last_index(bv.subrange(0, i as int), id@),
            decreases i,
        {
            assert(bv.subrange(0, i as int).drop_last() =~= bv.subrange(0, i - 1));
            assert(bv.subrange(0, i as int).last() == bv[i - 1]);
            assert(bv[i - 1] == self.blocks@[i - 1]@);
            let b = &self.blocks[i - 1];
            assert(*b == self.blocks@[i - 1]);
            if *b.id_string() == *id {
                return Some(i - 1);
            }
            i = i - 1;
        }
        None
    }

    /// Drop the narration twin of a typed final: only when its text IS the
    /// head-bounded final text, so distinct narration survives.
    fn remove_twin(&mut self, id: &Option<String>, final_text: &str)
        requires
            consistent(old(self)@),
            blocks_ok(old(self)@),
        ensures
            final(self)@ == sp_remove_twin(old(self)@, opt_view(*id), final_text@),
            consistent(final(self)@),
            blocks_ok(final(self)@),
    {
        let id = match id {
            Some(id) => id,
            None => return,
        };
        let ghost bv = blocks_view(self.blocks@);
        let j = match self.find_last(id) {
            Some(j) => j,
            None => return,
        };
        assert(last_index(bv, id@) == Some(j as nat));
        let (same, n) = match &self.blocks[j] {
            Block::Message { text, .. } => {
                let c = clip(final_text, self.block_cap, false);
                (*text == c, text.as_str().unicode_len())
            },
            _ => return,
        };
        if !same {
            return;
        }
        proof {
            lemma_seq_chars_each(bv, j as int);
            lemma_remove_message(self@, j as int);
        }
        self.text_chars = self.text_chars - n as u128;
        let ghost before = self.blocks@;
        self.blocks.remove(j);
        proof {
            lemma_blocks_view_remove(before, j as int);
        }
        self.tool_by_use_id.close_gap(j);
        self.open_tool_by_name.close_gap(j);
    }

    /// A tool row with its name, kind, target and detail bounded.
    fn bounded_tool(
        &mut self,
        name: String,
        kind: Option<String>,
        target: Option<String>,
        status: ToolStatus,
        detail: Option<String>,
        exit_code: Option<i64>,
    ) -> (r: Tool)
        requires
            old(self)@.truncated + name@.len() + opt_len(opt_view(kind)) + opt_len(opt_view(target)) + opt_len(opt_view(detail)) <= usize::MAX,
        ensures
            final(self)@ == sp_bounded_tool(old(self)@, name@, opt_view(kind), opt_view(target), status, opt_view(detail), exit_code).0,
            r@ == sp_bounded_tool(old(self)@, name@, opt_view(kind), opt_view(target), status, opt_view(detail), exit_code).1,
    {
        let c = self.tool_field_cap;
        let name = self.bound(name.as_str(), c, false);
        let kind = match kind {
            Some(k) => Some(self.bound(k.as_str(), c, false)),
            None => None,
        };
        let target = match target {
            Some(t) => Some(self.bound(t.as_str(), c, false)),
            None => None,
        };
        let detail = match detail {
            Some(d) => Some(self.bound(d.as_str(), c, false)),
            None => None,
        };
        Tool { name, kind, target, status, detail, exit_code, note: None, sub: None, background: false }
    }
}

proof fn lemma_last_index(bs: Seq<BlockV>, id: Seq<char>)
    ensures
        last_index(bs, id) matches Some(i) ==> i < bs.len() && block_id(bs[i as int]) == id,
    decreases bs.len(),
{
    if bs.len() > 0 && block_id(bs.last()) != id {
        lemma_last_index(bs.drop_last(), id);
    }
}

/// Appending a block within the caps keeps everything `wf` asks of the
/// blocks; with room for a block, it is the newest one after the trim.
proof fn lemma_append(s: TranscriptV, b: BlockV)
    requires
        consistent(s),
        blocks_ok(s),
        block_ok(b, s.block_cap, s.tool_field_cap),
    ensures
        consistent(sp_append(s, b)),
        blocks_ok(sp_append(s, b)),
        sp_append(s, b).blocks.len() <= s.cap,
        sp_append(s, b).text_chars <= s.total_budget + block_max(s),
        within_budget(sp_append(s, b)),
        sp_append(s, b).trimmed <= s.trimmed + s.blocks.len() + 1,
        s.cap >= 1 ==> sp_append(s, b).blocks.len() >= 1 && sp_append(s, b).blocks.last() == b,
{
    let u = TranscriptV {
        streaming: if b is Message { s.streaming } else { None },
        text_chars: s.text_chars + block_chars(b),
        blocks: s.blocks.push(b),
        ..s
    };
    lemma_seq_chars_push(s.blocks, b);
    assert forall|k: Seq<char>| #[trigger] u.by_use.contains_key(k) implies u.by_use[k] < u.blocks.len() && u.blocks[u.by_use[k] as int] is Tool by {
        assert(s.by_use.contains_key(k));
    }
    assert forall|k: Seq<char>| #[trigger] u.by_name.contains_key(k) implies u.by_name[k] < u.blocks.len() && u.blocks[u.by_name[k] as int] is Tool by {
        assert(s.by_name.contains_key(k));
    }
    assert forall|i: int| 0 <= i < u.blocks.len() implies block_ok(#[trigger] u.blocks[i], s.block_cap, s.tool_field_cap) by {
        if i < s.blocks.len() {
            assert(u.blocks[i] == s.blocks[i]);
        }
    }
    lemma_enforce(u);
}

/// Replacing block `i` by a block of the same kind within the caps keeps
/// the count consistent and the indexes valid.
proof fn lemma_update(s: TranscriptV, i: int, b: BlockV)
    requires
        consistent(s),
        blocks_ok(s),
        0 <= i < s.blocks.len(),
        block_ok(b, s.block_cap, s.tool_field_cap),
        s.blocks[i] is Tool <==> b is Tool,
    ensures
        ({
            let u = TranscriptV {
                text_chars: (s.text_chars + block_chars(b) - block_chars(s.blocks[i])) as nat,
                blocks: s.blocks.update(i, b),
                ..s
            };
            &&& consistent(u)
            &&& blocks_ok(u)
            &&& block_chars(s.blocks[i]) <= s.text_chars
        }),
{
    lemma_seq_chars_update(s.blocks, i, b);
    lemma_seq_chars_each(s.blocks, i);
    let nb = s.blocks.update(i, b);
    assert forall|k: Seq<char>| #[trigger] s.by_use.contains_key(k) implies s.by_use[k] < nb.len() && nb[s.by_use[k] as int] is Tool by {
    }
    assert forall|k: Seq<char>| #[trigger] s.by_name.contains_key(k) implies s.by_name[k] < nb.len() && nb[s.by_name[k] as int] is Tool by {
    }
    assert forall|j: int| 0 <= j < nb.len() implies block_ok(#[trigger] nb[j], s.block_cap, s.tool_field_cap) by {
        if j != i {
            assert(nb[j] == s.blocks[j]);
        }
    }
}

proof fn lemma_clip_len(text: Seq<char>, cap: nat, keep_tail: bool)
    ensures
        clip_text(text, cap, keep_tail).len() <= cap,
        clip_text(text, cap, keep_tail).len() <= text.len(),
        clip_text(text, cap, keep_tail).len() + cut(text, cap) == text.len(),
{
}

/// The characters of an event's text fields, with room for the default
/// tool name.
pub open spec fn ev_chars(p: HarnessEvent) -> nat {
    opt_len(opt_view(p.text)) + opt_len(opt_view(p.tool.name)) + 4 + opt_len(opt_view(p.tool.kind))
        + opt_len(opt_view(p.tool.target)) + opt_len(opt_view(p.tool.content_summary))
        + opt_len(opt_view(p.tool.error_summary))
}

/// The room a fold step needs in the counters.
pub open spec fn room(s: TranscriptV, p: HarnessEvent) -> bool {
    &&& s.truncated + ev_chars(p) + s.text_chars + 1 <= usize::MAX
    &&& s.trimmed + s.blocks.len() + 1 <= usize::MAX
    &&& s.agents < usize::MAX
}

/// `opt_view(o) == Some(lit@)`.
fn is_lit(o: &Option<String>, lit: &str) -> (r: bool)
    ensures
        r == (opt_view(*o) == Some(lit@)),
{
    match o {
        Some(s) => *s == String::from_str(lit),
        None => false,
    }
}

fn clone_opt(o: &Option<String>) -> (r: Option<String>)
    ensures
        opt_view(r) == opt_view(*o),
{
    match o {
        Some(s) => Some(s.clone()),
        None => None,
    }
}

/// `prefix` followed by `key`.
fn new_id(prefix: &str, key: &String) -> (r: String)
    ensures
        r@ == prefix@ + key@,
{
    let mut r = String::from_str(prefix);
    r.append(key.as_str());
    r
}

impl Transcript {
    #[verifier::rlimit(40)]
    fn apply_thinking(&mut self, key: &String, p: &HarnessEvent, ts: Option<i64>) -> (r: bool)
        requires
            wf(old(self)@),
            room(old(self)@, *p),
            ts == event_ts(*p),
            ts matches Some(t) ==> -400_000_000_000 <= t <= 400_000_000_000,
        ensures
            (final(self)@, r) == sp_thinking(old(self)@, key@, *p),
            wf(final(self)@),
    {
        let ghost s = self@;
        let text = match &p.text {
            Some(t) => t,
            None => return false,
        };
        let tn = text.as_str().unicode_len();
        if tn == 0 {
            return false;
        }
        let n = self.blocks.len();
        let last: Option<(String, String, Option<i64>)> = if n > 0 {
            match &self.blocks[n - 1] {
                Block::Thinking { id, text, secs } => Some((id.clone(), text.clone(), *secs)),
                _ => None,
            }
        } else {
            None
        };
        proof {
            if n > 0 {
                assert(s.blocks.last() == self.blocks@[n - 1]@);
            }
        }
        match last {
            Some((id, prev, psecs)) => {
                proof {
                    reveal_strlit("\n");
                }
                let mut merged = prev.clone();
                merged.append("\n");
                merged.append(text.as_str());
                proof {
                    lemma_seq_chars_each(s.blocks, n - 1);
                }
                let bounded = self.bound(merged.as_str(), self.block_cap, true);
                let ghost mid = self@;
                let prev_n = prev.as_str().unicode_len();
                let bn = bounded.as_str().unicode_len();
                proof {
                    lemma_clip_len(merged@, s.block_cap, true);
                    lemma_seq_chars_each(s.blocks, n - 1);
                }
                self.text_chars = (self.text_chars - prev_n as u128) + bn as u128;
                let secs = match (self.thinking_from, ts) {
                    (Some(a), Some(b)) => Some(if b - a > 0 { b - a } else { 0 }),
                    _ => None,
                };
                let nsecs = if secs.is_some() { secs } else { psecs };
                let ghost before = self.blocks@;
                let nb = Block::Thinking { id, text: bounded, secs: nsecs };
                proof {
                    lemma_update(mid, n - 1, nb@);
                }
                self.blocks.set(n - 1, nb);
                proof {
                    lemma_blocks_view_update(before, n - 1, nb);
                    let last = s.blocks.last();
                    assert(last->Thinking_text == prev@);
                    assert(last->Thinking_id == nb@->Thinking_id);
                    let sp = sp_bound(s, prev@ + seq!['\n'] + text@, s.block_cap, true);
                    assert(merged@ =~= prev@ + seq!['\n'] + text@);
                    assert(sp.0 == mid);
                    assert(sp.1 == bounded@);
                    let s4 = TranscriptV {
                        text_chars: (mid.text_chars + bounded@.len() - prev@.len()) as nat,
                        blocks: mid.blocks.update(mid.blocks.len() - 1, nb@),
                        ..mid
                    };
                    assert(self@.blocks =~= s4.blocks);
                    assert(self@ == s4);
                    assert(sp_thinking(s, key@, *p).0 == sp_enforce(s4));
                    lemma_enforce(self@);
                }
                self.enforce_budget();
                true
            },
            None => {
                self.thinking_from = ts;
                let tb = self.bound(text.as_str(), self.block_cap, true);
                proof {
                    lemma_clip_len(text@, s.block_cap, true);
                }
                let id = new_id("th-", key);
                let secs = if ts.is_some() { Some(0i64) } else { None };
                let b = Block::Thinking { id, text: tb, secs };
                proof {
                    lemma_append(self@, b@);
                }
                self.append(b);
                true
            },
        }
    }
}

impl Transcript {
    fn apply_final(&mut self, p: &HarnessEvent) -> (r: bool)
        requires
            wf(old(self)@),
        ensures
            (final(self)@, r) == sp_final(old(self)@, *p),
            wf(final(self)@),
    {
        let ghost s = self@;
        self.streaming_msg = None;
        self.pending_flush = None;
        self.finalized = true;
        let has = match &p.text {
            Some(t) => t.as_str().unicode_len() > 0,
            None => false,
        };
        if has {
            let t = match &p.text {
                Some(t) => t,
                None => return true,
            };
            self.final_text = Some(clip(t.as_str(), self.block_cap, false));
            let cand = clone_opt(&self.msg_candidate);
            let ghost mid = self@;
            self.remove_twin(&cand, t.as_str());
            proof {
                let e = sp_remove_twin(mid, opt_view(cand), t@);
                if let Some(c) = opt_view(cand) {
                    lemma_last_index(mid.blocks, c);
                    if let Some(i) = last_index(mid.blocks, c) {
                        lemma_seq_chars_each(mid.blocks, i as int);
                    }
                }
                assert(e.blocks.len() <= mid.blocks.len());
                assert(e.text_chars <= mid.text_chars);
            }
        }
        self.msg_candidate = None;
        true
    }

    fn apply_delta(&mut self, key: &String, text: &String) -> (r: bool)
        requires
            wf(old(self)@),
            old(self)@.truncated + text@.len() + old(self)@.text_chars <= usize::MAX,
            old(self)@.trimmed + old(self)@.blocks.len() + 1 <= usize::MAX,
        ensures
            (final(self)@, r) == sp_delta(old(self)@, key@, text@),
            wf(final(self)@),
    {
        let ghost s = self@;
        if self.finalized {
            return false;
        }
        let n = self.blocks.len();
        let cont: Option<(String, String)> = match &self.streaming_msg {
            Some(sid) => {
                if n > 0 {
                    match &self.blocks[n - 1] {
                        Block::Message { id, text } => if *id == *sid {
                            Some((id.clone(), text.clone()))
                        } else {
                            None
                        },
                        _ => None,
                    }
                } else {
                    None
                }
            },
            None => None,
        };
        proof {
            if n > 0 {
                assert(s.blocks.last() == self.blocks@[n - 1]@);
            }
        }
        match cont {
            Some((id, prev)) => {
                let mut joined = prev.clone();
                joined.append(text.as_str());
                proof {
                    lemma_seq_chars_each(s.blocks, n - 1);
                }
                let bounded = self.bound(joined.as_str(), self.block_cap, false);
                let ghost mid = self@;
                let prev_n = prev.as_str().unicode_len();
                let bn = bounded.as_str().unicode_len();
                proof {
                    lemma_clip_len(joined@, s.block_cap, false);
                    lemma_seq_chars_each(s.blocks, n - 1);
                }
                self.text_chars = (self.text_chars - prev_n as u128) + bn as u128;
                let ghost before = self.blocks@;
                let nb = Block::Message { id, text: bounded };
                proof {
                    lemma_update(mid, n - 1, nb@);
                }
                self.blocks.set(n - 1, nb);
                proof {
                    lemma_blocks_view_update(before, n - 1, nb);
                    let s4 = TranscriptV {
                        text_chars: (mid.text_chars + bounded@.len() - prev@.len()) as nat,
                        blocks: mid.blocks.update(mid.blocks.len() - 1, nb@),
                        ..mid
                    };
                    assert(self@.blocks =~= s4.blocks);
                    assert(self@ == s4);
                    lemma_enforce(self@);
                }
                self.enforce_budget();
            },
            None => {
                let id = new_id("msg-", key);
                let t = self.bound(text.as_str(), self.block_cap, false);
                proof {
                    lemma_clip_len(text@, s.block_cap, false);
                }
                let b = Block::Message { id: id.clone(), text: t };
                proof {
                    lemma_append(self@, b@);
                }
                self.append(b);
                self.streaming_msg = Some(id);
            },
        }
        self.pending_flush = clone_opt(&self.streaming_msg);
        self.msg_candidate = clone_opt(&self.streaming_msg);
        true
    }

    fn apply_complete(&mut self, key: &String, text: &String) -> (r: bool)
        requires
            wf(old(self)@),
            old(self)@.truncated + text@.len() <= usize::MAX,
            old(self)@.trimmed + old(self)@.blocks.len() + 1 <= usize::MAX,
        ensures
            (final(self)@, r) == sp_complete(old(self)@, key@, text@),
            wf(final(self)@),
    {
        let ghost s = self@;
        let target: Option<(usize, String, String)> = match &self.pending_flush {
            Some(pid) => match self.find_last(pid) {
                Some(i) => match &self.blocks[i] {
                    Block::Message { text, .. } => Some((i, pid.clone(), text.clone())),
                    _ => None,
                },
                None => None,
            },
            None => None,
        };
        proof {
            match flush_target(s) {
                Some(i) => {
                    assert(s.blocks[i as int] == self.blocks@[i as int]@);
                },
                None => {},
            }
            match target {
                Some((i, _, _)) => {
                    assert(s.blocks[i as int] == self.blocks@[i as int]@);
                },
                None => {},
            }
        }
        match target {
            Some((i, pid, prev)) => {
                let bounded = self.bound(text.as_str(), self.block_cap, false);
                let ghost mid = self@;
                let prev_n = prev.as_str().unicode_len();
                let bn = bounded.as_str().unicode_len();
                proof {
                    lemma_clip_len(text@, s.block_cap, false);
                    lemma_seq_chars_each(s.blocks, i as int);
                }
                self.text_chars = (self.text_chars - prev_n as u128) + bn as u128;
                let ghost before = self.blocks@;
                let nb = Block::Message { id: pid.clone(), text: bounded };
                proof {
                    lemma_update(mid, i as int, nb@);
                }
                self.blocks.set(i, nb);
                self.pending_flush = None;
                self.streaming_msg = None;
                self.msg_candidate = Some(pid);
                proof {
                    lemma_blocks_view_update(before, i as int, nb);
                    let s4 = TranscriptV {
                        text_chars: (mid.text_chars + bounded@.len() - prev@.len()) as nat,
                        blocks: mid.blocks.update(i as int, nb@),
                        pending: None,
                        streaming: None,
                        candidate: Some(pid@),
                        ..mid
                    };
                    assert(self@.blocks =~= s4.blocks);
                    assert(self@ == s4);
                    lemma_enforce(self@);
                }
                self.enforce_budget();
                true
            },
            None => {
                let id = new_id("msg-", key);
                let t = self.bound(text.as_str(), self.block_cap, false);
                proof {
                    lemma_clip_len(text@, s.block_cap, false);
                }
                let b = Block::Message { id: id.clone(), text: t };
                proof {
                    lemma_append(self@, b@);
                }
                self.append(b);
                self.msg_candidate = Some(id);
                true
            },
        }
    }

    fn apply_message(&mut self, key: &String, p: &HarnessEvent) -> (r: bool)
        requires
            wf(old(self)@),
            room(old(self)@, *p),
        ensures
            (final(self)@, r) == sp_message(old(self)@, key@, *p),
            wf(final(self)@),
    {
        if p.is_final {
            return self.apply_final(p);
        }
        let text = match &p.text {
            Some(t) => t,
            None => return false,
        };
        if text.as_str().unicode_len() == 0 {
            return false;
        }
        if p.delta {
            self.apply_delta(key, text)
        } else {
            self.apply_complete(key, text)
        }
    }
}

/// Whether `t` begins with `p`.
fn text_starts_with(t: &str, p: &str) -> (r: bool)
    ensures
        r == starts_with(t@, p@),
{
    let pn = p.unicode_len();
    let tn = t.unicode_len();
    if tn < pn {
        return false;
    }
    let head = t.substring_char(0, pn);
    String::from_str(head) == String::from_str(p)
}

/// An Agent/Task result that only reports a background launch.
fn detail_launch(summary: &Option<String>) -> (r: bool)
    ensures
        r == launch_note(opt_view(*summary)),
{
    match summary {
        Some(t) => text_starts_with(t.as_str(), "Async agent launched"),
        None => false,
    }
}

/// "type · model" of a subagent, `None` when both are missing or it is empty.
fn sub_join(a: &Option<String>, b: &Option<String>) -> (r: Option<String>)
    ensures
        opt_view(r) == sub_line(opt_view(*a), opt_view(*b)),
{
    let j = match (a, b) {
        (Some(x), Some(y)) => {
            let mut j = x.clone();
            j.append(" · ");
            j.append(y.as_str());
            j
        },
        (Some(x), None) => x.clone(),
        (None, Some(y)) => y.clone(),
        (None, None) => String::new(),
    };
    if j.as_str().unicode_len() == 0 {
        None
    } else {
        Some(j)
    }
}

proof fn lemma_tool_ok(s: TranscriptV, name: Seq<char>, kind: Option<Seq<char>>, target: Option<Seq<char>>, status: ToolStatus, detail: Option<Seq<char>>, exit_code: Option<i64>)
    ensures
        ({
            let t = sp_bounded_tool(s, name, kind, target, status, detail, exit_code).1;
            &&& t.name.len() <= s.tool_field_cap
            &&& opt_len(t.kind) <= s.tool_field_cap
            &&& opt_len(t.target) <= s.tool_field_cap
            &&& opt_len(t.detail) <= s.tool_field_cap
        }),
{
    lemma_clip_len(name, s.tool_field_cap, false);
    if let Some(k) = kind {
        lemma_clip_len(k, s.tool_field_cap, false);
    }
    if let Some(k) = target {
        lemma_clip_len(k, s.tool_field_cap, false);
    }
    if let Some(k) = detail {
        lemma_clip_len(k, s.tool_field_cap, false);
    }
}

impl Transcript {
    fn apply_tool_call(&mut self, key: &String, p: &HarnessEvent) -> (r: bool)
        requires
            wf(old(self)@),
            room(old(self)@, *p),
            old(self)@.cap >= 1,
        ensures
            (final(self)@, r) == sp_tool_call(old(self)@, key@, *p),
            wf(final(self)@),
    {
        let ghost s = self@;
        let tf = &p.tool;
        proof {
            reveal_strlit("tool");
        }
        let name0 = match &tf.name {
            Some(n) => n.clone(),
            None => String::from_str("tool"),
        };
        let mut tool = self.bounded_tool(
            name0,
            clone_opt(&tf.kind),
            clone_opt(&tf.target),
            ToolStatus::Running,
            clone_opt(&tf.content_summary),
            tf.exit_code,
        );
        proof {
            lemma_tool_ok(s, name0@, opt_view(tf.kind), opt_view(tf.target), ToolStatus::Running, opt_view(tf.content_summary), tf.exit_code);
        }
        let special = tool.name == String::from_str("Agent") || tool.name == String::from_str("Task");
        if special {
            tool.note = clone_opt(&p.input_description);
            tool.sub = sub_join(&p.input_subagent_type, &p.input_model);
        }
        let name = tool.name.clone();
        let id = new_id("tool-", key);
        let b = Block::Tool { id, tool };
        let ghost mid = self@;
        proof {
            lemma_append(mid, b@);
        }
        self.append(b);
        let idx = self.blocks.len() - 1;
        let ghost appended = self@;
        match &tf.use_id {
            Some(u) => self.tool_by_use_id.insert(u.clone(), idx),
            None => {},
        }
        self.open_tool_by_name.insert(name, idx);
        proof {
            assert(appended.blocks.last() == b@);
            assert forall|k: Seq<char>| #[trigger] self@.by_use.contains_key(k) implies self@.by_use[k] < self@.blocks.len() && self@.blocks[self@.by_use[k] as int] is Tool by {
                if !appended.by_use.contains_key(k) {
                    assert(self@.by_use[k] == idx);
                } else if self@.by_use[k] == idx {
                } else {
                    assert(self@.by_use[k] == appended.by_use[k]);
                }
            }
            assert forall|k: Seq<char>| #[trigger] self@.by_name.contains_key(k) implies self@.by_name[k] < self@.blocks.len() && self@.blocks[self@.by_name[k] as int] is Tool by {
                if !appended.by_name.contains_key(k) {
                    assert(self@.by_name[k] == idx);
                } else if self@.by_name[k] == idx {
                } else {
                    assert(self@.by_name[k] == appended.by_name[k]);
                }
            }
        }
        true
    }

    /// Fold a result into the tool row at `i`.
    fn finish_tool(&mut self, i: usize, tf: &ToolFields, status: ToolStatus, detail: Option<String>)
        requires
            wf(old(self)@),
            old(self)@.truncated + opt_len(opt_view(tf.content_summary)) + opt_len(opt_view(tf.error_summary)) <= usize::MAX,
            old(self)@.trimmed + old(self)@.blocks.len() + 1 <= usize::MAX,
            old(self)@.agents < usize::MAX,
            i < old(self)@.blocks.len(),
            old(self)@.blocks[i as int] is Tool,
            status == result_status(*tf),
            opt_view(detail) == result_detail(*tf),
        ensures
            final(self)@ == sp_finish(old(self)@, i as nat, *tf),
            wf(final(self)@),
    {
        let ghost s = self@;
        let exit = tf.exit_code;
        let bounded = match detail {
            Some(d) => Some(self.bound(d.as_str(), self.tool_field_cap, false)),
            None => None,
        };
        proof {
            if let Some(d) = result_detail(*tf) {
                lemma_clip_len(d, s.tool_field_cap, false);
            }
        }
        let launched = detail_launch(&tf.content_summary);
        if launched {
            self.agents = self.agents + 1;
        }
        let ghost mid = self@;
        let ghost mid_exec = self.blocks@;
        let mut slot = Block::Message { id: String::new(), text: String::new() };
        self.blocks.set_and_swap(i, &mut slot);
        let ghost taken = slot;
        assert(taken@ == mid.blocks[i as int]);
        let nb = match slot {
            Block::Tool { id, tool } => {
                let old_d = match &tool.detail {
                    Some(x) => x.as_str().unicode_len(),
                    None => 0,
                };
                proof {
                    lemma_seq_chars_each(mid.blocks, i as int);
                }
                let mut t = tool;
                t.status = status;
                t.background = launched;
                match bounded {
                    Some(d) => {
                        let dn = d.as_str().unicode_len();
                        self.text_chars = (self.text_chars - old_d as u128) + dn as u128;
                        t.detail = Some(d);
                    },
                    None => {},
                }
                if exit.is_some() {
                    t.exit_code = exit;
                }
                Block::Tool { id, tool: t }
            },
            other => other,
        };
        proof {
            lemma_update(mid, i as int, nb@);
        }
        self.blocks.set(i, nb);
        proof {
            assert(self.blocks@ =~= mid_exec.update(i as int, nb));
            lemma_blocks_view_update(mid_exec, i as int, nb);
        }
        match &tf.use_id {
            Some(u) => self.tool_by_use_id.remove(u),
            None => {},
        }
        match &tf.name {
            Some(n) => self.open_tool_by_name.remove(n),
            None => {},
        }
        proof {
            lemma_enforce(self@);
        }
        self.enforce_budget();
    }

    fn apply_tool_result(&mut self, key: &String, p: &HarnessEvent) -> (r: bool)
        requires
            wf(old(self)@),
            room(old(self)@, *p),
        ensures
            (final(self)@, r) == sp_tool_result(old(self)@, key@, *p),
            wf(final(self)@),
    {
        let ghost s = self@;
        let tf = &p.tool;
        let found = match &tf.use_id {
            Some(u) => self.tool_by_use_id.get(u),
            None => None,
        };
        let idx = match found {
            Some(i) => Some(i),
            None => match &tf.name {
                Some(n) => self.open_tool_by_name.get(n),
                None => None,
            },
        };
        assert(idx matches Some(i) ==> result_target(s, opt_view(tf.use_id), opt_view(tf.name)) == Some(i as nat));
        assert(idx is None ==> result_target(s, opt_view(tf.use_id), opt_view(tf.name)) is None);
        let status = if is_lit(&tf.status, "error") { ToolStatus::Error } else { ToolStatus::Succeeded };
        let detail = if tf.error_summary.is_some() { clone_opt(&tf.error_summary) } else { clone_opt(&tf.content_summary) };
        let exit = tf.exit_code;
        let target: Option<usize> = match idx {
            Some(i) => if i < self.blocks.len() {
                match &self.blocks[i] {
                    Block::Tool { .. } => Some(i),
                    _ => None,
                }
            } else {
                None
            },
            None => None,
        };
        proof {
            if let Some(i) = idx {
                if i < self.blocks@.len() {
                    assert(s.blocks[i as int] == self.blocks@[i as int]@);
                }
            }
        }
        match target {
            Some(i) => {
                self.finish_tool(i, tf, status, detail);
                true
            },
            None => {
                proof {
                    reveal_strlit("tool");
                }
                let name0 = match &tf.name {
                    Some(n) => n.clone(),
                    None => String::from_str("tool"),
                };
                let tool = self.bounded_tool(name0, clone_opt(&tf.kind), clone_opt(&tf.target), status, detail, exit);
                proof {
                    lemma_tool_ok(s, name0@, opt_view(tf.kind), opt_view(tf.target), status, result_detail(*tf), exit);
                }
                let b = Block::Tool { id: new_id("tool-", key), tool };
                proof {
                    lemma_append(self@, b@);
                }
                self.append(b);
                true
            },
        }
    }
}

/// The inputs a fold step accepts: a well-formed transcript, and for an
/// event that gets folded room in the counters and room for a tool row.
pub open spec fn apply_ok(s: TranscriptV, seq: int, ev: RunEvent) -> bool {
    &&& wf(s)
    &&& (seq > s.last_seq && opt_view(ev.kind) == Some("harness.event"@) && ev.payload is Some) ==> {
        let p = ev.payload.unwrap();
        &&& room(s, p)
        &&& (opt_view(p.kind) == Some("tool_call"@) ==> s.cap >= 1)
    }
}

/// The length of an optional text, widened.
fn opt_len_u128(o: &Option<String>) -> (r: u128)
    ensures
        r == opt_len(opt_view(*o)),
        r <= usize::MAX,
{
    match o {
        Some(t) => t.unicode_len() as u128,
        None => 0,
    }
}

impl Transcript {
    /// Whether `apply` may fold this event: room left in the counters (a
    /// machine limit), and room for a tool row.
    pub fn accepts(&self, seq: i64, event: &RunEvent) -> (r: bool)
        ensures
            wf(self@) ==> (r == apply_ok(self@, seq as int, *event)),
    {
        if seq <= self.last_seq {
            return true;
        }
        let harness = match &event.kind {
            Some(k) => crate::text::same_text(k.as_str(), "harness.event"),
            None => false,
        };
        let p = match &event.payload {
            Some(p) => p,
            None => return true,
        };
        if !harness {
            return true;
        }
        let chars: u128 = opt_len_u128(&p.text) + opt_len_u128(&p.tool.name) + 4 + opt_len_u128(&p.tool.kind)
            + opt_len_u128(&p.tool.target) + opt_len_u128(&p.tool.content_summary) + opt_len_u128(&p.tool.error_summary);
        let room = self.text_chars <= usize::MAX as u128 && (self.truncated_chars as u128) + chars + self.text_chars + 1 <= usize::MAX as u128
            && (self.trimmed as u128) + (self.blocks.len() as u128) + 1 <= usize::MAX as u128 && self.agents < usize::MAX;
        let tool = match &p.kind {
            Some(k) => crate::text::same_text(k.as_str(), "tool_call"),
            None => false,
        };
        room && (!tool || self.cap >= 1)
    }

    /// Fold one event. Returns true when the visible transcript changed.
    pub fn apply(&mut self, seq: i64, event: &RunEvent) -> (changed: bool)
        requires
            apply_ok(old(self)@, seq as int, *event),
        ensures
            (final(self)@, changed) == step(old(self)@, seq as int, *event),
            wf(final(self)@),
    {
        if seq <= self.last_seq {
            return false;  // already folded (replay)
        }
        self.last_seq = seq;
        if !is_lit(&event.kind, "harness.event") {
            return false;
        }
        let p = match &event.payload {
            Some(p) => p,
            None => return false,
        };
        if self.harness.is_none() {
            self.harness = clone_opt(&p.harness_id);
        }
        let ts = match &p.ts {
            Some(t) => parse_iso(t.as_str()),
            None => None,
        };
        let mut key = String::new();
        push_decimal(seq as u64, &mut key);
        proof {
            assert(key@ =~= decimal(seq as nat));
        }
        if is_lit(&p.kind, "started") {
            if self.agents > self.agents_done {
                self.agents_done = self.agents_done + 1;
                return true;
            }
            return false;
        }
        if is_lit(&p.kind, "thinking") {
            return self.apply_thinking(&key, p, ts);
        }
        if is_lit(&p.kind, "message") {
            return self.apply_message(&key, p);
        }
        if is_lit(&p.kind, "tool_call") {
            return self.apply_tool_call(&key, p);
        }
        if is_lit(&p.kind, "tool_result") {
            return self.apply_tool_result(&key, p);
        }
        false
    }
}

impl Default for Transcript {
    /// 200 blocks, 100 000 characters a block, 600 000 in all, 2 048 a tool
    /// field.
    fn default() -> (r: Self)
        ensures
            r@ == fresh(200, 100_000, 600_000, 2_048),
            wf(r@),
    {
        Self::with_caps(200, 100_000, 600_000, 2_048)
    }
}

proof fn lemma_enforce_cursor(s: TranscriptV)
    ensures
        sp_enforce(s).last_seq == s.last_seq,
{
}

proof fn lemma_append_cursor(s: TranscriptV, b: BlockV)
    ensures
        sp_append(s, b).last_seq == s.last_seq,
{
}

/// The four caps a transcript was made with.
pub open spec fn caps_of(s: TranscriptV) -> (nat, nat, nat, nat) {
    (s.cap, s.block_cap, s.total_budget, s.tool_field_cap)
}

proof fn lemma_thinking_cursor(s: TranscriptV, key: Seq<char>, p: HarnessEvent)
    ensures
        sp_thinking(s, key, p).0.last_seq == s.last_seq,
        caps_of(sp_thinking(s, key, p).0) == caps_of(s),
{
}

proof fn lemma_message_cursor(s: TranscriptV, key: Seq<char>, p: HarnessEvent)
    ensures
        sp_message(s, key, p).0.last_seq == s.last_seq,
        caps_of(sp_message(s, key, p).0) == caps_of(s),
{
    let text = opt_view(p.text);
    if p.is_final {
        if has_text(text) {
            let s3 = TranscriptV { streaming: None, pending: None, finalized: true, ..s };
            let s3b = TranscriptV { final_text: Some(clip_text(text.unwrap(), s.block_cap, false)), ..s3 };
            assert(sp_remove_twin(s3b, s3b.candidate, text.unwrap()).last_seq == s.last_seq);
            assert(caps_of(sp_remove_twin(s3b, s3b.candidate, text.unwrap())) == caps_of(s));
        }
    } else if has_text(text) {
        if p.delta {
            assert(sp_delta(s, key, text.unwrap()).0.last_seq == s.last_seq);
            assert(caps_of(sp_delta(s, key, text.unwrap()).0) == caps_of(s));
        } else {
            assert(sp_complete(s, key, text.unwrap()).0.last_seq == s.last_seq);
            assert(caps_of(sp_complete(s, key, text.unwrap()).0) == caps_of(s));
        }
    }
}

proof fn lemma_tool_cursor(s: TranscriptV, key: Seq<char>, p: HarnessEvent)
    ensures
        sp_tool_call(s, key, p).0.last_seq == s.last_seq,
        sp_tool_result(s, key, p).0.last_seq == s.last_seq,
        caps_of(sp_tool_call(s, key, p).0) == caps_of(s),
        caps_of(sp_tool_result(s, key, p).0) == caps_of(s),
{
    let tf = p.tool;
    match result_target(s, opt_view(tf.use_id), opt_view(tf.name)) {
        Some(i) => {
            if i < s.blocks.len() && s.blocks[i as int] is Tool {
                assert(sp_finish(s, i, tf).last_seq == s.last_seq);
                assert(caps_of(sp_finish(s, i, tf)) == caps_of(s));
            }
        },
        None => {},
    }
}

/// Folding moves the resume cursor to the highest seq seen.
pub proof fn law_cursor_is_highest_seq(s: TranscriptV, seq: int, ev: RunEvent)
    ensures
        step(s, seq, ev).0.last_seq == if seq > s.last_seq { seq } else { s.last_seq },
{
    if seq > s.last_seq && opt_view(ev.kind) == Some("harness.event"@) && ev.payload is Some {
        let s1 = TranscriptV { last_seq: seq, ..s };
        let p = ev.payload.unwrap();
        let s2 = if s1.harness is None { TranscriptV { harness: opt_view(p.harness_id), ..s1 } } else { s1 };
        let key = decimal(seq as nat);
        lemma_thinking_cursor(s2, key, p);
        lemma_message_cursor(s2, key, p);
        lemma_tool_cursor(s2, key, p);
    }
}

/// Law: folding keeps the four caps the transcript was made with, so
/// after `with_caps(cap, block_cap, total_budget, tool_field_cap)` and any
/// number of `apply` calls, `law_caps_kept` bounds the blocks by exactly
/// those caps.
pub proof fn law_caps_fixed(s: TranscriptV, seq: int, ev: RunEvent)
    ensures
        caps_of(step(s, seq, ev).0) == caps_of(s),
        caps_of(fresh(s.cap, s.block_cap, s.total_budget, s.tool_field_cap)) == caps_of(s),
{
    if seq > s.last_seq && opt_view(ev.kind) == Some("harness.event"@) && ev.payload is Some {
        let s1 = TranscriptV { last_seq: seq, ..s };
        let p = ev.payload.unwrap();
        let s2 = if s1.harness is None { TranscriptV { harness: opt_view(p.harness_id), ..s1 } } else { s1 };
        let key = decimal(seq as nat);
        lemma_thinking_cursor(s2, key, p);
        lemma_message_cursor(s2, key, p);
        lemma_tool_cursor(s2, key, p);
    }
}

/// The detail a tool result shows: its error summary when it has one,
/// else its content summary, clipped to the field cap.
pub open spec fn shown_detail(tf: ToolFields, cap: nat) -> Option<Seq<char>> {
    match tf.error_summary {
        Some(e) => Some(clip_text(e@, cap, false)),
        None => match tf.content_summary {
            Some(c) => Some(clip_text(c@, cap, false)),
            None => None,
        },
    }
}

/// Law: a tool result folded into its tool row (found by `use_id`, else
/// by name) marks it failed exactly when its status is `error`, and shows
/// its error summary whenever it has one, whatever its content summary; the
/// content summary shows only without an error summary. The row stays at
/// its place, less the oldest blocks the caps dropped (counted in
/// `trimmed`), unless it was among them.
pub proof fn law_tool_result_row(s: TranscriptV, seq: int, ev: RunEvent, i: nat)
    requires
        seq > s.last_seq,
        opt_view(ev.kind) == Some("harness.event"@),
        ev.payload matches Some(p) && opt_view(p.kind) == Some("tool_result"@),
        result_target(s, opt_view(ev.payload.unwrap().tool.use_id), opt_view(ev.payload.unwrap().tool.name)) == Some(i),
        i < s.blocks.len(),
        s.blocks[i as int] is Tool,
    ensures
        ({
            let t = step(s, seq, ev).0;
            let tf = ev.payload.unwrap().tool;
            let d = t.trimmed - s.trimmed;
            &&& t.trimmed >= s.trimmed
            &&& i >= d ==> (t.blocks[i - d] matches BlockV::Tool { tool, .. } && {
                &&& (tf.error_summary matches Some(e) ==> tool.detail == Some(clip_text(e@, s.tool_field_cap, false)))
                &&& (tf.error_summary is None && tf.content_summary is Some ==> tool.detail == shown_detail(tf, s.tool_field_cap))
                &&& (tool.status == ToolStatus::Error) == (opt_view(tf.status) == Some("error"@))
            })
        }),
{
    lemma_tool_kinds();
    let p = ev.payload.unwrap();
    let s1 = TranscriptV { last_seq: seq, ..s };
    let s2 = if s1.harness is None { TranscriptV { harness: opt_view(p.harness_id), ..s1 } } else { s1 };
    assert(result_target(s2, opt_view(p.tool.use_id), opt_view(p.tool.name)) == Some(i));
    let t = sp_finish(s2, i, p.tool);
    assert(step(s, seq, ev).0 == t);
    lemma_enforce_all();
}

/// What enforcing the caps keeps: the blocks from the `d`-th on, for the
/// `d` it counts in `trimmed`; with room for a block, the newest stays.
proof fn lemma_enforce_keeps(s: TranscriptV)
    ensures
        sp_enforce(s).trimmed >= s.trimmed,
        sp_enforce(s).trimmed - s.trimmed <= s.blocks.len(),
        sp_enforce(s).blocks.len() == s.blocks.len() - (sp_enforce(s).trimmed - s.trimmed),
        forall|j: int| sp_enforce(s).trimmed - s.trimmed <= j < s.blocks.len() ==> sp_enforce(s).blocks[j - (sp_enforce(s).trimmed - s.trimmed)] == s.blocks[j],
        s.cap >= 1 && s.blocks.len() >= 1 ==> sp_enforce(s).blocks.len() >= 1 && sp_enforce(s).blocks.last() == s.blocks.last(),
{
    lemma_drop_count(s.blocks, s.cap, s.total_budget);
}

proof fn lemma_enforce_all()
    ensures
        forall|x: TranscriptV| {
            &&& #[trigger] sp_enforce(x).trimmed >= x.trimmed
            &&& sp_enforce(x).trimmed - x.trimmed <= x.blocks.len()
            &&& sp_enforce(x).blocks.len() == x.blocks.len() - (sp_enforce(x).trimmed - x.trimmed)
            &&& forall|j: int| sp_enforce(x).trimmed - x.trimmed <= j < x.blocks.len() ==> sp_enforce(x).blocks[j - (sp_enforce(x).trimmed - x.trimmed)] == x.blocks[j]
            &&& x.cap >= 1 && x.blocks.len() >= 1 ==> sp_enforce(x).blocks.len() >= 1 && sp_enforce(x).blocks.last() == x.blocks.last()
        },
{
    assert forall|x: TranscriptV| {
        &&& #[trigger] sp_enforce(x).trimmed >= x.trimmed
        &&& sp_enforce(x).trimmed - x.trimmed <= x.blocks.len()
        &&& sp_enforce(x).blocks.len() == x.blocks.len() - (sp_enforce(x).trimmed - x.trimmed)
        &&& forall|j: int| sp_enforce(x).trimmed - x.trimmed <= j < x.blocks.len() ==> sp_enforce(x).blocks[j - (sp_enforce(x).trimmed - x.trimmed)] == x.blocks[j]
        &&& x.cap >= 1 && x.blocks.len() >= 1 ==> sp_enforce(x).blocks.len() >= 1 && sp_enforce(x).blocks.last() == x.blocks.last()
    } by {
        lemma_enforce_keeps(x);
    }
}

/// Law: a tool result with no tool row to go to stands as a row of its
/// own, the newest block (given room for a block), showing its error
/// summary whenever it has one, else its content summary.
pub proof fn law_tool_result_alone(s: TranscriptV, seq: int, ev: RunEvent)
    requires
        seq > s.last_seq,
        s.cap >= 1,
        opt_view(ev.kind) == Some("harness.event"@),
        ev.payload matches Some(p) && opt_view(p.kind) == Some("tool_result"@),
        !(result_target(s, opt_view(ev.payload.unwrap().tool.use_id), opt_view(ev.payload.unwrap().tool.name)) matches Some(i)
            && i < s.blocks.len() && s.blocks[i as int] is Tool),
    ensures
        ({
            let t = step(s, seq, ev).0;
            let tf = ev.payload.unwrap().tool;
            &&& t.blocks.len() >= 1
            &&& t.blocks.last() matches BlockV::Tool { tool, .. } && {
                &&& tool.detail == shown_detail(tf, s.tool_field_cap)
                &&& (tool.status == ToolStatus::Error) == (opt_view(tf.status) == Some("error"@))
            }
        }),
{
    lemma_tool_kinds();
    lemma_enforce_all();
    let p = ev.payload.unwrap();
    let tf = p.tool;
    let s1 = TranscriptV { last_seq: seq, ..s };
    let s2 = if s1.harness is None { TranscriptV { harness: opt_view(p.harness_id), ..s1 } } else { s1 };
    let key = decimal(seq as nat);
    assert(result_target(s2, opt_view(tf.use_id), opt_view(tf.name)) == result_target(s, opt_view(tf.use_id), opt_view(tf.name)));
    let (s3, tool) = sp_bounded_tool(s2, tool_or_default(opt_view(tf.name)), opt_view(tf.kind), opt_view(tf.target), result_status(tf), result_detail(tf), tf.exit_code);
    let b = BlockV::Tool { id: "tool-"@ + key, tool };
    assert(opt_clip(result_detail(tf), s.tool_field_cap) == shown_detail(tf, s.tool_field_cap));
    assert(sp_tool_result(s2, key, p) == (sp_append(s3, b), true));
    assert(step(s, seq, ev).0 == sp_append(s3, b));
    let u = TranscriptV {
        streaming: None,
        text_chars: s3.text_chars + block_chars(b),
        blocks: s3.blocks.push(b),
        ..s3
    };
    assert(sp_append(s3, b) == sp_enforce(u));
    assert(u.blocks.last() == b);
    assert(u.cap >= 1 && u.blocks.len() >= 1);
    lemma_enforce_keeps(u);
    assert(sp_enforce(u).blocks.last() == b);
    assert(tool.detail == shown_detail(tf, s.tool_field_cap));
    assert(tool.status == result_status(tf));
}

proof fn lemma_tool_kinds()
    ensures
        "tool_result"@ != "started"@,
        "tool_result"@ != "thinking"@,
        "tool_result"@ != "message"@,
        "tool_result"@ != "tool_call"@,
        "error"@ == seq!['e', 'r', 'r', 'o', 'r'],
{
    reveal_strlit("tool_result");
    reveal_strlit("started");
    reveal_strlit("thinking");
    reveal_strlit("message");
    reveal_strlit("tool_call");
    reveal_strlit("error");
    assert("tool_result"@.len() == 11 && "started"@.len() == 7 && "thinking"@.len() == 8 && "message"@.len() == 7 && "tool_call"@.len() == 9);
}

/// An event at or below the cursor (a replay after a reconnect) changes
/// nothing and reports no change.
pub proof fn law_replay_is_ignored(s: TranscriptV, seq: int, ev: RunEvent)
    requires
        seq <= s.last_seq,
    ensures
        step(s, seq, ev) == (s, false),
{
}

/// Folding the same event twice is folding it once.
pub proof fn law_fold_is_idempotent(s: TranscriptV, seq: int, ev: RunEvent)
    ensures
        step(step(s, seq, ev).0, seq, ev) == (step(s, seq, ev).0, false),
{
    law_cursor_is_highest_seq(s, seq, ev);
}

/// An event that is not a harness event only advances the cursor.
pub proof fn law_other_events_only_advance_cursor(s: TranscriptV, seq: int, ev: RunEvent)
    requires
        seq > s.last_seq,
        opt_view(ev.kind) != Some("harness.event"@) || ev.payload is None,
    ensures
        step(s, seq, ev) == (TranscriptV { last_seq: seq, ..s }, false),
{
}

} // verus!
