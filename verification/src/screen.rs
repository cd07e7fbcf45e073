//! How the terminal client takes the room's events: what each changes in
//! the status it shows, the notice it adds to the transcript (with its
//! tone), the desktop notification it raises, and the blocks it rebuilds
//! when it joins a turn that is already running.
//!
//! Deltas and tool progress go straight to the transcript's own blocks; the
//! events here are the rest.
use vstd::prelude::*;

use crate::sse::StopReason;
use crate::text::{append_chars, chars_of, dec, decimal, string_of};
use crate::tui::{
    format_duration, short_id, spec_format_duration, spec_stop_reason_label, spec_truncate, stop_reason_label,
    truncate, EntryKind,
};

verus! {

/// The colour a notice is shown in.
#[derive(Debug, Clone, Copy, PartialEq, Eq)]
pub enum Tone {
    Muted,
    Warning,
    Error,
}

/// What the status band and the header show.
#[derive(Debug, PartialEq)]
pub struct StatusLine {
    pub busy: bool,
    /// The transcript follows new output.
    pub stick: bool,
    /// Messages waiting in the room's queue.
    pub queue: usize,
    pub model: String,
    pub agent: String,
    /// The system prompt shown must be fetched again.
    pub system_prompt_dirty: bool,
    /// Tokens in the context, and the context's size.
    pub context: Option<(usize, usize)>,
    pub current_leaf: Option<String>,
    pub reasoning_level: String,
}

/// The tool call a running turn is in, as the client shows it: call id,
/// tool name, and the summary of its input.
pub type ActiveCall = (String, String, String);

/// An event of the room, as the client takes it.
#[derive(Debug)]
pub enum ScreenEvent {
    TurnStarted,
    /// A turn ended; `elapsed_ms` is its wall time where the client saw it
    /// start.
    TurnFinished {
        stop_reason: StopReason,
        input_tokens: usize,
        output_tokens: usize,
        cache_read_tokens: usize,
        cache_write_tokens: usize,
        elapsed_ms: Option<u64>,
    },
    UserMessage { client_name: String, content: String, queued: bool },
    QueueUpdated { pending: usize },
    QueueCleared,
    ModelChanged { active_model: String },
    AgentChanged { active_agent: String },
    /// The client joined a running turn: what it has streamed so far.
    CatchUp { thinking: String, thinking_ms: Option<u64>, text: String, active_call: Option<ActiveCall> },
    SyncRequired,
    Error { message: String },
    SessionRenamed { title: String },
    MessagesDeleted { count: usize },
    ActiveBranchChanged { current_leaf_id: String },
    ContextUsage { tokens: usize, context_len: usize },
    ReasoningLevelChanged { level: String },
    /// Running markers, usage increments, workspace changes: nothing the
    /// client shows changes.
    Quiet,
}

/// A block rebuilt when the client joins a running turn.
#[derive(Debug, PartialEq)]
pub struct CatchUpEntry {
    pub kind: EntryKind,
    pub text: String,
    /// Still streaming: shown unfolded.
    pub open: bool,
    pub duration_ms: Option<u64>,
    pub call: Option<ActiveCall>,
}

/// What taking an event adds to the screen.
#[derive(Debug, PartialEq)]
pub struct EventEffect {
    pub notice: Option<(String, Tone)>,
    /// A desktop notification.
    pub notify: Option<String>,
    pub entries: Vec<CatchUpEntry>,
}

/// The status after an event.
pub open spec fn status_after(s: StatusLine, e: ScreenEvent) -> StatusLine {
    match e {
        ScreenEvent::TurnStarted => StatusLine { busy: true, stick: true, ..s },
        ScreenEvent::TurnFinished { .. } => StatusLine { busy: false, ..s },
        ScreenEvent::QueueUpdated { pending } => StatusLine { queue: pending, ..s },
        ScreenEvent::QueueCleared => StatusLine { queue: 0, ..s },
        ScreenEvent::ModelChanged { active_model } => StatusLine {
            model: active_model,
            system_prompt_dirty: true,
            ..s
        },
        ScreenEvent::AgentChanged { active_agent } => StatusLine {
            agent: active_agent,
            system_prompt_dirty: true,
            ..s
        },
        ScreenEvent::CatchUp { .. } => StatusLine { busy: true, ..s },
        ScreenEvent::ActiveBranchChanged { current_leaf_id } => StatusLine {
            current_leaf: Some(current_leaf_id),
            ..s
        },
        ScreenEvent::ContextUsage { tokens, context_len } => StatusLine {
            context: Some((tokens, context_len)),
            ..s
        },
        ScreenEvent::ReasoningLevelChanged { level } => StatusLine { reasoning_level: level, ..s },
        _ => s,
    }
}

/// The line that closes a turn: how it ended, its wall time where known,
/// and its token counts.
pub open spec fn finished_text(
    reason: StopReason,
    input: usize,
    output: usize,
    cache_read: usize,
    cache_write: usize,
    elapsed_ms: Option<u64>,
) -> Seq<char> {
    let elapsed = match elapsed_ms {
        Some(ms) => "耗时 "@ + spec_format_duration(ms as nat) + " · "@,
        None => Seq::empty(),
    };
    "轮次"@ + spec_stop_reason_label(reason) + " · "@ + elapsed + "↑"@ + dec(input as nat) + " ↓"@ + dec(
        output as nat,
    ) + " · 缓存读 "@ + dec(cache_read as nat) + " · 缓存写 "@ + dec(cache_write as nat)
}

/// The first eight bytes of an id where they end on a character boundary,
/// else the whole id.
pub open spec fn short_view(id: Seq<char>) -> Seq<char> {
    let bytes = vstd::utf8::encode_utf8(id);
    if vstd::utf8::is_char_boundary(bytes, 8) {
        vstd::utf8::decode_utf8(bytes.subrange(0, 8))
    } else {
        id
    }
}

/// The notice an event adds, with its tone.
pub open spec fn event_notice(e: ScreenEvent) -> Option<(Seq<char>, Tone)> {
    match e {
        ScreenEvent::TurnFinished {
            stop_reason,
            input_tokens,
            output_tokens,
            cache_read_tokens,
            cache_write_tokens,
            elapsed_ms,
        } => Some(
            (
                finished_text(stop_reason, input_tokens, output_tokens, cache_read_tokens, cache_write_tokens, elapsed_ms),
                if stop_reason == StopReason::Error {
                    Tone::Error
                } else {
                    Tone::Muted
                },
            ),
        ),
        ScreenEvent::UserMessage { client_name, content, queued } => if queued {
            Some((client_name@ + " 的消息已排队: "@ + spec_truncate(content@, 60), Tone::Muted))
        } else {
            None
        },
        ScreenEvent::SyncRequired => Some(("事件流出现缺口，状态可能不完整"@, Tone::Warning)),
        ScreenEvent::Error { message } => Some((message@, Tone::Error)),
        ScreenEvent::SessionRenamed { title } => Some(("会话已重命名为 "@ + title@, Tone::Muted)),
        ScreenEvent::MessagesDeleted { count } => Some(("已删除 "@ + dec(count as nat) + " 条消息"@, Tone::Muted)),
        ScreenEvent::ActiveBranchChanged { current_leaf_id } => Some(
            ("切换到分支 "@ + short_view(current_leaf_id@), Tone::Muted),
        ),
        ScreenEvent::ReasoningLevelChanged { level } => Some(
            (
                if level@.len() == 0 {
                    "推理等级 → 模型默认"@
                } else {
                    "推理等级 → "@ + level@
                },
                Tone::Muted,
            ),
        ),
        _ => None,
    }
}

/// The desktop notification of an event: a turn that ended other than in an
/// error (an error has its own notice).
pub open spec fn event_notify(e: ScreenEvent) -> Option<Seq<char>> {
    match e {
        ScreenEvent::TurnFinished { stop_reason, .. } => if stop_reason == StopReason::Error {
            None
        } else {
            Some("任务完成（"@ + spec_stop_reason_label(stop_reason) + "）"@)
        },
        _ => None,
    }
}

/// A rebuilt block as (kind, text, open, duration, call).
pub open spec fn entry_view(e: CatchUpEntry) -> (EntryKind, Seq<char>, bool, Option<u64>, Option<ActiveCall>) {
    (e.kind, e.text@, e.open, e.duration_ms, e.call)
}

/// The blocks rebuilt on joining a running turn: the thinking so far, with
/// its duration, unfolded while neither a tool runs nor text has come; the
/// text so far, unfolded; and the running tool call, unfolded. Each only
/// where there is one.
pub open spec fn catch_up_blocks(
    thinking: Seq<char>,
    thinking_ms: Option<u64>,
    text: Seq<char>,
    call: Option<ActiveCall>,
) -> Seq<(EntryKind, Seq<char>, bool, Option<u64>, Option<ActiveCall>)> {
    let b0 = if thinking.len() > 0 {
        seq![(EntryKind::Thinking, thinking, call is None && text.len() == 0, thinking_ms, None)]
    } else {
        Seq::empty()
    };
    let b1 = if text.len() > 0 {
        b0.push((EntryKind::Assistant, text, true, None, None))
    } else {
        b0
    };
    match call {
        Some(c) => b1.push((EntryKind::Tool, Seq::empty(), true, None, Some(c))),
        None => b1,
    }
}

/// The blocks of an event: those of a catch-up, else none.
pub open spec fn event_entries(e: ScreenEvent) -> Seq<(EntryKind, Seq<char>, bool, Option<u64>, Option<ActiveCall>)> {
    match e {
        ScreenEvent::CatchUp { thinking, thinking_ms, text, active_call } => catch_up_blocks(
            thinking@,
            thinking_ms,
            text@,
            active_call,
        ),
        _ => Seq::empty(),
    }
}

fn push_str(m: &mut Vec<char>, s: &str)
    ensures
        final(m)@ == old(m)@ + s@,
{
    let t = chars_of(s);
    append_chars(m, t.as_slice());
}

fn push_num(m: &mut Vec<char>, n: usize)
    ensures
        final(m)@ == old(m)@ + dec(n as nat),
{
    let t = decimal(n as u128);
    append_chars(m, t.as_slice());
}

fn finished_notice(
    reason: StopReason,
    input: usize,
    output: usize,
    cache_read: usize,
    cache_write: usize,
    elapsed_ms: Option<u64>,
) -> (r: String)
    ensures
        r@ == finished_text(reason, input, output, cache_read, cache_write, elapsed_ms),
{
    let mut m = chars_of("轮次");
    push_str(&mut m, stop_reason_label(reason));
    push_str(&mut m, " · ");
    let ghost head = m@;
    match elapsed_ms {
        Some(ms) => {
            push_str(&mut m, "耗时 ");
            let d = format_duration(ms);
            push_str(&mut m, d.as_str());
            push_str(&mut m, " · ");
        },
        None => {
            assert(m@ =~= head + Seq::<char>::empty());
        },
    }
    push_str(&mut m, "↑");
    push_num(&mut m, input);
    push_str(&mut m, " ↓");
    push_num(&mut m, output);
    push_str(&mut m, " · 缓存读 ");
    push_num(&mut m, cache_read);
    push_str(&mut m, " · 缓存写 ");
    push_num(&mut m, cache_write);
    string_of(m.as_slice())
}

fn catch_up(thinking: String, thinking_ms: Option<u64>, text: String, active_call: Option<ActiveCall>) -> (r: Vec<
    CatchUpEntry,
>)
    ensures
        r@.map_values(|e: CatchUpEntry| entry_view(e)) == catch_up_blocks(thinking@, thinking_ms, text@, active_call),
{
    let mut out: Vec<CatchUpEntry> = Vec::new();
    let thinking_chars = chars_of(thinking.as_str());
    let text_chars = chars_of(text.as_str());
    let no_call = match &active_call {
        Some(_) => false,
        None => true,
    };
    if thinking_chars.len() > 0 {
        out.push(
            CatchUpEntry {
                kind: EntryKind::Thinking,
                text: thinking,
                open: no_call && text_chars.len() == 0,
                duration_ms: thinking_ms,
                call: None,
            },
        );
    }
    let ghost b0 = out@.map_values(|e: CatchUpEntry| entry_view(e));
    if text_chars.len() > 0 {
        out.push(CatchUpEntry { kind: EntryKind::Assistant, text, open: true, duration_ms: None, call: None });
        assert(out@.map_values(|e: CatchUpEntry| entry_view(e)) =~= b0.push(
            (EntryKind::Assistant, text_chars@, true, None, None),
        ));
    }
    let ghost b1 = out@.map_values(|e: CatchUpEntry| entry_view(e));
    match active_call {
        Some(c) => {
            let ghost cv = c;
            out.push(CatchUpEntry { kind: EntryKind::Tool, text: String::new(), open: true, duration_ms: None, call: Some(c) });
            assert(out@.map_values(|e: CatchUpEntry| entry_view(e)) =~= b1.push(
                (EntryKind::Tool, Seq::<char>::empty(), true, None, Some(cv)),
            ));
        },
        None => {},
    }
    out
}

impl StatusLine {
    /// Takes an event: the status changes as [`status_after`] says, and the
    /// effect holds [`event_notice`], [`event_notify`] and [`event_entries`].
    pub fn apply_event(&mut self, event: ScreenEvent) -> (r: EventEffect)
        requires
            event matches ScreenEvent::UserMessage { content, .. } ==> content@.len() <= usize::MAX / 2,
        ensures
            *final(self) == status_after(*old(self), event),
            match (r.notice, event_notice(event)) {
                (Some((t, tone)), Some((v, vt))) => t@ == v && tone == vt,
                (None, None) => true,
                _ => false,
            },
            match (r.notify, event_notify(event)) {
                (Some(t), Some(v)) => t@ == v,
                (None, None) => true,
                _ => false,
            },
            r.entries@.map_values(|e: CatchUpEntry| entry_view(e)) == event_entries(event),
    {
        let ghost e0 = event;
        let mut effect = EventEffect { notice: None, notify: None, entries: Vec::new() };
        assert(effect.entries@.map_values(|e: CatchUpEntry| entry_view(e)) =~= Seq::<
            (EntryKind, Seq<char>, bool, Option<u64>, Option<ActiveCall>),
        >::empty());
        match event {
            ScreenEvent::TurnStarted => {
                self.busy = true;
                self.stick = true;
            },
            ScreenEvent::TurnFinished {
                stop_reason,
                input_tokens,
                output_tokens,
                cache_read_tokens,
                cache_write_tokens,
                elapsed_ms,
            } => {
                self.busy = false;
                let is_error = match stop_reason {
                    StopReason::Error => true,
                    _ => false,
                };
                let text = finished_notice(
                    stop_reason,
                    input_tokens,
                    output_tokens,
                    cache_read_tokens,
                    cache_write_tokens,
                    elapsed_ms,
                );
                effect.notice = Some((text, if is_error { Tone::Error } else { Tone::Muted }));
                if !is_error {
                    let mut m = chars_of("任务完成（");
                    push_str(&mut m, stop_reason_label(stop_reason));
                    push_str(&mut m, "）");
                    effect.notify = Some(string_of(m.as_slice()));
                }
            },
            ScreenEvent::UserMessage { client_name, content, queued } => {
                if queued {
                    let mut m = chars_of(client_name.as_str());
                    push_str(&mut m, " 的消息已排队: ");
                    let t = truncate(content.as_str(), 60);
                    push_str(&mut m, t.as_str());
                    effect.notice = Some((string_of(m.as_slice()), Tone::Muted));
                }
            },
            ScreenEvent::QueueUpdated { pending } => {
                self.queue = pending;
            },
            ScreenEvent::QueueCleared => {
                self.queue = 0;
            },
            ScreenEvent::ModelChanged { active_model } => {
                self.model = active_model;
                self.system_prompt_dirty = true;
            },
            ScreenEvent::AgentChanged { active_agent } => {
                self.agent = active_agent;
                self.system_prompt_dirty = true;
            },
            ScreenEvent::CatchUp { thinking, thinking_ms, text, active_call } => {
                effect.entries = catch_up(thinking, thinking_ms, text, active_call);
                self.busy = true;
            },
            ScreenEvent::SyncRequired => {
                effect.notice = Some(("事件流出现缺口，状态可能不完整".to_owned(), Tone::Warning));
            },
            ScreenEvent::Error { message } => {
                effect.notice = Some((message, Tone::Error));
            },
            ScreenEvent::SessionRenamed { title } => {
                let mut m = chars_of("会话已重命名为 ");
                push_str(&mut m, title.as_str());
                effect.notice = Some((string_of(m.as_slice()), Tone::Muted));
            },
            ScreenEvent::MessagesDeleted { count } => {
                let mut m = chars_of("已删除 ");
                push_num(&mut m, count);
                push_str(&mut m, " 条消息");
                effect.notice = Some((string_of(m.as_slice()), Tone::Muted));
            },
            ScreenEvent::ActiveBranchChanged { current_leaf_id } => {
                let mut m = chars_of("切换到分支 ");
                push_str(&mut m, short_id(current_leaf_id.as_str()));
                effect.notice = Some((string_of(m.as_slice()), Tone::Muted));
                self.current_leaf = Some(current_leaf_id);
            },
            ScreenEvent::ContextUsage { tokens, context_len } => {
                self.context = Some((tokens, context_len));
            },
            ScreenEvent::ReasoningLevelChanged { level } => {
                let lc = chars_of(level.as_str());
                let text = if lc.len() == 0 {
                    "推理等级 → 模型默认".to_owned()
                } else {
                    let mut m = chars_of("推理等级 → ");
                    append_chars(&mut m, lc.as_slice());
                    string_of(m.as_slice())
                };
                effect.notice = Some((text, Tone::Muted));
                self.reasoning_level = level;
            },
            ScreenEvent::Quiet => {},
        }
        effect
    }
}

} // verus!
