//! The decisions of one round of the agent loop: the model's streamed answer
//! gathered event by event, the assistant message it makes, whether its tool
//! calls run, what each call is answered with, and the message of tool
//! results that goes back to the model.
//!
//! The loop itself (the request, the stream, running a tool, storing a
//! message) is outside work; it hands each event and each tool's outcome to
//! the functions here and does what they return.
use vstd::prelude::*;

use crate::json::{json_view, Json, JsonValue};
use crate::message::{blocks_view, Block, BlockView, ChatMessage, Role};
use crate::session::{new_entry_id, now_millis};
use crate::sse::{ProviderStreamEvent, StopReason};

verus! {

/// Tokens a turn has used so far, as the provider reported them.
#[derive(Debug, Clone, Copy, PartialEq, Eq, Default)]
pub struct TokenUsage {
    pub input_tokens: usize,
    pub output_tokens: usize,
}

/// What the room announces while an answer streams in.
#[derive(Debug, PartialEq)]
pub enum StreamNotice {
    ThinkingDelta(String),
    TextDelta(String),
    Error(String),
}

/// The answer of one request as it streams in.
#[derive(Debug)]
pub struct AnswerDraft {
    pub thinking: String,
    pub text: String,
    /// Call id, tool name, input, in the order the calls came.
    pub tool_calls: Vec<(String, String, JsonValue)>,
    pub stop_reason: StopReason,
    /// The input tokens this request was charged, when the provider said so.
    pub request_input_tokens: usize,
}

/// What an answer draft holds.
pub struct DraftView {
    pub thinking: Seq<char>,
    pub text: Seq<char>,
    pub calls: Seq<(Seq<char>, Seq<char>, Json)>,
    pub stop: StopReason,
    pub request_input: usize,
}

pub open spec fn calls_view(c: Seq<(String, String, JsonValue)>) -> Seq<(Seq<char>, Seq<char>, Json)> {
    Seq::new(c.len(), |i: int| (c[i].0@, c[i].1@, json_view(c[i].2)))
}

impl View for AnswerDraft {
    type V = DraftView;

    open spec fn view(&self) -> DraftView {
        DraftView {
            thinking: self.thinking@,
            text: self.text@,
            calls: calls_view(self.tool_calls@),
            stop: self.stop_reason,
            request_input: self.request_input_tokens,
        }
    }
}

/// The draft before any event.
pub open spec fn empty_draft() -> DraftView {
    DraftView {
        thinking: Seq::empty(),
        text: Seq::empty(),
        calls: Seq::empty(),
        stop: StopReason::EndTurn,
        request_input: 0,
    }
}

/// One event taken into the draft: deltas are appended, tool calls are
/// collected, a reported input count other than zero becomes the request's,
/// the last `Done` sets the stop reason and an error makes it an error.
pub open spec fn draft_step(d: DraftView, e: ProviderStreamEvent) -> DraftView {
    match e {
        ProviderStreamEvent::ThinkingDelta(x) => DraftView { thinking: d.thinking + x@, ..d },
        ProviderStreamEvent::TextDelta(x) => DraftView { text: d.text + x@, ..d },
        ProviderStreamEvent::ToolCall { id, name, input } => DraftView {
            calls: d.calls.push((id@, name@, json_view(input))),
            ..d
        },
        ProviderStreamEvent::Usage { input_tokens, output_tokens } => DraftView {
            request_input: if input_tokens > 0 {
                input_tokens
            } else {
                d.request_input
            },
            ..d
        },
        ProviderStreamEvent::Done { stop_reason } => DraftView { stop: stop_reason, ..d },
        ProviderStreamEvent::Error(_) => DraftView { stop: StopReason::Error, ..d },
    }
}

/// The turn's token count after an event: usage reports add up.
pub open spec fn usage_step(u: TokenUsage, e: ProviderStreamEvent) -> (int, int) {
    match e {
        ProviderStreamEvent::Usage { input_tokens, output_tokens } => (
            u.input_tokens + input_tokens,
            u.output_tokens + output_tokens,
        ),
        _ => (u.input_tokens as int, u.output_tokens as int),
    }
}

/// What is announced for an event: thinking and text deltas and errors, each
/// with its text.
pub open spec fn notice_text(e: ProviderStreamEvent) -> Option<(int, Seq<char>)> {
    match e {
        ProviderStreamEvent::ThinkingDelta(x) => Some((0, x@)),
        ProviderStreamEvent::TextDelta(x) => Some((1, x@)),
        ProviderStreamEvent::Error(x) => Some((2, x@)),
        _ => None,
    }
}

pub open spec fn notice_view(n: Option<StreamNotice>) -> Option<(int, Seq<char>)> {
    match n {
        Some(StreamNotice::ThinkingDelta(x)) => Some((0, x@)),
        Some(StreamNotice::TextDelta(x)) => Some((1, x@)),
        Some(StreamNotice::Error(x)) => Some((2, x@)),
        None => None,
    }
}

impl AnswerDraft {
    /// A draft before any event.
    pub fn new() -> (d: AnswerDraft)
        ensures
            d@ == empty_draft(),
    {
        let d = AnswerDraft {
            thinking: String::new(),
            text: String::new(),
            tool_calls: Vec::new(),
            stop_reason: StopReason::EndTurn,
            request_input_tokens: 0,
        };
        assert(calls_view(d.tool_calls@) =~= Seq::<(Seq<char>, Seq<char>, Json)>::empty());
        d
    }

    /// Takes one event of the stream, as [`draft_step`] and [`usage_step`]
    /// say, and returns what is to be announced for it ([`notice_text`]).
    pub fn apply(&mut self, usage: &mut TokenUsage, event: ProviderStreamEvent) -> (notice: Option<StreamNotice>)
        requires
            usage_step(*old(usage), event).0 <= usize::MAX,
            usage_step(*old(usage), event).1 <= usize::MAX,
        ensures
            final(self)@ == draft_step(old(self)@, event),
            final(usage).input_tokens == usage_step(*old(usage), event).0,
            final(usage).output_tokens == usage_step(*old(usage), event).1,
            notice_view(notice) == notice_text(event),
    {
        let ghost e = event;
        match event {
            ProviderStreamEvent::ThinkingDelta(delta) => {
                let mut t = crate::text::chars_of(self.thinking.as_str());
                let dc = crate::text::chars_of(delta.as_str());
                crate::text::append_chars(&mut t, dc.as_slice());
                self.thinking = crate::text::string_of(t.as_slice());
                Some(StreamNotice::ThinkingDelta(delta))
            },
            ProviderStreamEvent::TextDelta(delta) => {
                let mut t = crate::text::chars_of(self.text.as_str());
                let dc = crate::text::chars_of(delta.as_str());
                crate::text::append_chars(&mut t, dc.as_slice());
                self.text = crate::text::string_of(t.as_slice());
                Some(StreamNotice::TextDelta(delta))
            },
            ProviderStreamEvent::ToolCall { id, name, input } => {
                let ghost before = calls_view(self.tool_calls@);
                let ghost x = (id@, name@, json_view(input));
                self.tool_calls.push((id, name, input));
                assert(calls_view(self.tool_calls@) =~= before.push(x));
                None
            },
            ProviderStreamEvent::Usage { input_tokens, output_tokens } => {
                usage.input_tokens = usage.input_tokens + input_tokens;
                usage.output_tokens = usage.output_tokens + output_tokens;
                if input_tokens > 0 {
                    self.request_input_tokens = input_tokens;
                }
                None
            },
            ProviderStreamEvent::Done { stop_reason } => {
                self.stop_reason = stop_reason;
                None
            },
            ProviderStreamEvent::Error(err) => {
                self.stop_reason = StopReason::Error;
                Some(StreamNotice::Error(err))
            },
        }
    }
}

/// The draft after a whole stream of events, taken one after another.
pub open spec fn draft_after(evs: Seq<ProviderStreamEvent>) -> DraftView
    decreases evs.len(),
{
    if evs.len() == 0 {
        empty_draft()
    } else {
        draft_step(draft_after(evs.drop_last()), evs.last())
    }
}

/// The text deltas of a stream, joined in the order they came.
pub open spec fn streamed_text(evs: Seq<ProviderStreamEvent>) -> Seq<char>
    decreases evs.len(),
{
    if evs.len() == 0 {
        Seq::empty()
    } else {
        streamed_text(evs.drop_last()) + match evs.last() {
            ProviderStreamEvent::TextDelta(x) => x@,
            _ => Seq::empty(),
        }
    }
}

/// The thinking deltas of a stream, joined in the order they came.
pub open spec fn streamed_thinking(evs: Seq<ProviderStreamEvent>) -> Seq<char>
    decreases evs.len(),
{
    if evs.len() == 0 {
        Seq::empty()
    } else {
        streamed_thinking(evs.drop_last()) + match evs.last() {
            ProviderStreamEvent::ThinkingDelta(x) => x@,
            _ => Seq::empty(),
        }
    }
}

/// The tool calls of a stream, in the order they came.
pub open spec fn streamed_calls(evs: Seq<ProviderStreamEvent>) -> Seq<(Seq<char>, Seq<char>, Json)>
    decreases evs.len(),
{
    if evs.len() == 0 {
        Seq::empty()
    } else {
        let t = streamed_calls(evs.drop_last());
        match evs.last() {
            ProviderStreamEvent::ToolCall { id, name, input } => t.push((id@, name@, json_view(input))),
            _ => t,
        }
    }
}

/// Whatever the order of events, the answer holds every text delta and
/// every thinking delta joined in arrival order, and every tool call in
/// arrival order: nothing streamed is lost or reordered.
pub proof fn lemma_draft_keeps_stream(evs: Seq<ProviderStreamEvent>)
    ensures
        draft_after(evs).text == streamed_text(evs),
        draft_after(evs).thinking == streamed_thinking(evs),
        draft_after(evs).calls == streamed_calls(evs),
    decreases evs.len(),
{
    if evs.len() == 0 {
    } else {
        lemma_draft_keeps_stream(evs.drop_last());
        match evs.last() {
            ProviderStreamEvent::TextDelta(x) => {},
            ProviderStreamEvent::ThinkingDelta(x) => {},
            _ => {
                assert(streamed_text(evs) =~= streamed_text(evs.drop_last()));
                assert(streamed_thinking(evs) =~= streamed_thinking(evs.drop_last()));
            },
        }
        match evs.last() {
            ProviderStreamEvent::TextDelta(x) => {
                assert(streamed_thinking(evs) =~= streamed_thinking(evs.drop_last()));
            },
            ProviderStreamEvent::ThinkingDelta(x) => {
                assert(streamed_text(evs) =~= streamed_text(evs.drop_last()));
            },
            _ => {},
        }
    }
}

// ---------------------------------------------------------------------------
// After the answer
// ---------------------------------------------------------------------------

/// The blocks of the assistant message an answer makes: its thinking and its
/// text where they are not empty, then its tool calls in order.
pub open spec fn answer_blocks(d: DraftView) -> Seq<BlockView> {
    let b0: Seq<BlockView> = if d.thinking.len() > 0 {
        seq![BlockView::Thinking(d.thinking)]
    } else {
        Seq::empty()
    };
    let b1 = if d.text.len() > 0 {
        b0.push(BlockView::Text(d.text))
    } else {
        b0
    };
    b1 + Seq::new(d.calls.len(), |i: int| BlockView::ToolUse(d.calls[i].0, d.calls[i].1, d.calls[i].2))
}

/// Tool calls run only when the answer ended for them and the turn was not
/// cancelled.
pub open spec fn runs_tools(d: DraftView, cancelled: bool) -> bool {
    !cancelled && d.stop == StopReason::ToolUse && d.calls.len() > 0
}

/// What each tool call that does not run is answered with.
pub open spec fn unanswered_text(cancelled: bool) -> Seq<char> {
    if cancelled {
        "Tool call cancelled before execution."@
    } else {
        "Tool call not executed: the turn ended before tool execution."@
    }
}

/// What the loop does once an answer has ended.
#[derive(Debug, PartialEq)]
pub enum AfterAnswer {
    /// Run the tool calls, in order, then ask the model again.
    RunTools,
    /// End the turn for this reason. Where tool calls were made, each is
    /// first answered, as an error, with the text given.
    Finish { reason: StopReason, unanswered: Option<String> },
}

/// The stop reason of a turn that ends: cancelled, or why the answer ended.
pub open spec fn finish_reason(d: DraftView, cancelled: bool) -> StopReason {
    if cancelled {
        StopReason::Cancelled
    } else {
        d.stop
    }
}

/// The turn ends with [`finish_reason`]; where calls were made, they are
/// answered with [`unanswered_text`].
pub open spec fn finishes_as(r: AfterAnswer, d: DraftView, cancelled: bool) -> bool {
    match r {
        AfterAnswer::Finish { reason, unanswered } => {
            &&& reason == finish_reason(d, cancelled)
            &&& (d.calls.len() > 0 <==> unanswered is Some)
            &&& (unanswered matches Some(t) ==> t@ == unanswered_text(cancelled))
        },
        AfterAnswer::RunTools => false,
    }
}

impl AnswerDraft {
    /// What follows the answer: its tool calls run (as [`runs_tools`] says),
    /// or the turn ends with [`finish_reason`], each call that does not run
    /// answered with [`unanswered_text`].
    pub fn after_answer(&self, cancelled: bool) -> (r: AfterAnswer)
        ensures
            runs_tools(self@, cancelled) ==> r == AfterAnswer::RunTools,
            !runs_tools(self@, cancelled) ==> finishes_as(r, self@, cancelled),
    {
        let stop_is_tool_use = match self.stop_reason {
            StopReason::ToolUse => true,
            _ => false,
        };
        if !cancelled && stop_is_tool_use && self.tool_calls.len() > 0 {
            return AfterAnswer::RunTools;
        }
        let reason = if cancelled {
            StopReason::Cancelled
        } else {
            self.stop_reason
        };
        let unanswered = if self.tool_calls.len() > 0 {
            if cancelled {
                Some("Tool call cancelled before execution.".to_owned())
            } else {
                Some("Tool call not executed: the turn ended before tool execution.".to_owned())
            }
        } else {
            None
        };
        AfterAnswer::Finish { reason, unanswered }
    }

    /// The blocks of the assistant message, as [`answer_blocks`] says.
    pub fn answer_blocks(&self) -> (r: Vec<Block>)
        ensures
            blocks_view(r@) == answer_blocks(self@),
    {
        let ghost d = self@;
        let mut out: Vec<Block> = Vec::new();
        if !self.thinking.as_str().is_empty() {
            out.push(Block::Thinking { thinking: self.thinking.clone() });
        }
        if !self.text.as_str().is_empty() {
            out.push(Block::Text { text: self.text.clone() });
        }
        let ghost head = blocks_view(out@);
        assert(head =~= if d.thinking.len() > 0 {
            seq![BlockView::Thinking(d.thinking)].add(if d.text.len() > 0 {
                seq![BlockView::Text(d.text)]
            } else {
                Seq::empty()
            })
        } else {
            if d.text.len() > 0 {
                seq![BlockView::Text(d.text)]
            } else {
                Seq::empty()
            }
        });
        let n = out.len();
        let mut i: usize = 0;
        while i < self.tool_calls.len()
            invariant
                i <= self.tool_calls@.len(),
                d == self@,
                n == head.len(),
                out@.len() == n + i,
                forall|k: int| 0 <= k < n ==> #[trigger] out@[k]@ == head[k],
                forall|k: int|
                    0 <= k < i ==> #[trigger] out@[n + k]@ == BlockView::ToolUse(
                        d.calls[k].0,
                        d.calls[k].1,
                        d.calls[k].2,
                    ),
            decreases self.tool_calls@.len() - i,
        {
            let (id, name, input) = &self.tool_calls[i];
            out.push(Block::ToolUse { id: id.clone(), name: name.clone(), input: input.deep_clone() });
            i = i + 1;
        }
        let ghost tail = Seq::new(d.calls.len(), |k: int| BlockView::ToolUse(d.calls[k].0, d.calls[k].1, d.calls[k].2));
        assert(blocks_view(out@) =~= head + tail) by {
            assert forall|k: int| 0 <= k < out@.len() implies blocks_view(out@)[k] == (head + tail)[k] by {
                if k >= n {
                    assert(out@[n + (k - n)]@ == tail[k - n]);
                }
            }
        }
        assert(answer_blocks(d) =~= head + tail);
        out
    }
}

// ---------------------------------------------------------------------------
// Running the tool calls
// ---------------------------------------------------------------------------

/// An image a tool hands back with its output.
#[derive(Debug, Clone, PartialEq, Eq)]
pub struct ToolImage {
    pub mime_type: String,
    pub data: String,
}

/// What a tool hands back: its output text, whether it failed, and the
/// images it attaches.
#[derive(Debug, Clone, PartialEq, Eq)]
pub struct ToolOutput {
    pub output: String,
    pub is_error: bool,
    pub images: Vec<ToolImage>,
}

impl ToolOutput {
    /// A successful output without images.
    pub fn success(output: String) -> (r: ToolOutput)
        ensures
            r.output == output,
            !r.is_error,
            r.images@.len() == 0,
    {
        ToolOutput { output, is_error: false, images: Vec::new() }
    }

    /// A failed output.
    pub fn error(output: String) -> (r: ToolOutput)
        ensures
            r.output == output,
            r.is_error,
            r.images@.len() == 0,
    {
        ToolOutput { output, is_error: true, images: Vec::new() }
    }

    /// A successful output with images.
    pub fn success_with_images(output: String, images: Vec<ToolImage>) -> (r: ToolOutput)
        ensures
            r.output == output,
            !r.is_error,
            r.images == images,
    {
        ToolOutput { output, is_error: false, images }
    }
}

/// How one tool call is answered.
#[derive(Debug, Clone, PartialEq, Eq)]
pub struct ToolOutcome {
    pub call_id: String,
    pub output: String,
    pub is_error: bool,
    pub images: Vec<ToolImage>,
}

/// An outcome as text: the call id, the output, whether it is an error and
/// the images as (type, data).
pub open spec fn outcome_view(o: ToolOutcome) -> (Seq<char>, Seq<char>, bool, Seq<(Seq<char>, Seq<char>)>) {
    (o.call_id@, o.output@, o.is_error, Seq::new(o.images@.len(), |i: int| (o.images@[i].mime_type@, o.images@[i].data@)))
}

/// What a call that is not run after a cancellation is answered with.
pub open spec fn skipped_text() -> Seq<char> {
    "Tool call cancelled."@
}

/// The tool calls of an answer on their way through: the results so far,
/// in call order, and whether a tool reported the turn cancelled.
#[derive(Debug)]
pub struct ToolBatch {
    pub call_ids: Vec<String>,
    pub results: Vec<ToolOutcome>,
    pub cancelled: bool,
}

impl ToolBatch {
    /// Each result answers the call at its place; no call has more than one.
    pub open spec fn wf(&self) -> bool {
        &&& self.results@.len() <= self.call_ids@.len()
        &&& forall|i: int| 0 <= i < self.results@.len() ==> (#[trigger] self.results@[i]).call_id@ == self.call_ids@[i]@
    }

    /// A batch of calls with no result yet.
    pub fn new(call_ids: Vec<String>) -> (b: ToolBatch)
        ensures
            b.wf(),
            b.call_ids == call_ids,
            b.results@.len() == 0,
            !b.cancelled,
    {
        ToolBatch { call_ids, results: Vec::new(), cancelled: false }
    }

    /// The index of the call to run next, or `None` when every call has its
    /// result. Once a tool has reported the turn cancelled, the calls left
    /// are not run: each is answered, as an error, with [`skipped_text`].
    pub fn next_call(&mut self) -> (r: Option<usize>)
        requires
            old(self).wf(),
        ensures
            final(self).wf(),
            final(self).call_ids == old(self).call_ids,
            final(self).cancelled == old(self).cancelled,
            final(self).results@.len() >= old(self).results@.len(),
            forall|i: int| 0 <= i < old(self).results@.len() ==> final(self).results@[i] == old(self).results@[i],
            old(self).cancelled ==> r is None && final(self).results@.len() == final(self).call_ids@.len()
                && forall|i: int|
                old(self).results@.len() <= i < final(self).results@.len() ==> (#[trigger] final(self).results@[i]).output@
                    == skipped_text() && final(self).results@[i].is_error && final(self).results@[i].images@.len() == 0,
            !old(self).cancelled ==> final(self).results == old(self).results && (r matches Some(k) ==> k
                == old(self).results@.len() && k < old(self).call_ids@.len()) && (r is None ==> old(self).results@.len()
                == old(self).call_ids@.len()),
    {
        if self.cancelled {
            let ghost start = self.results@;
            while self.results.len() < self.call_ids.len()
                invariant
                    self.cancelled,
                    self.wf(),
                    self.call_ids == old(self).call_ids,
                    self.results@.len() >= start.len(),
                    start == old(self).results@,
                    forall|i: int| 0 <= i < start.len() ==> self.results@[i] == start[i],
                    forall|i: int|
                        start.len() <= i < self.results@.len() ==> (#[trigger] self.results@[i]).output@
                            == skipped_text() && self.results@[i].is_error && self.results@[i].images@.len() == 0,
                decreases self.call_ids@.len() - self.results@.len(),
            {
                let k = self.results.len();
                let id = self.call_ids[k].clone();
                self.results.push(
                    ToolOutcome { call_id: id, output: "Tool call cancelled.".to_owned(), is_error: true, images: Vec::new() },
                );
            }
            return None;
        }
        if self.results.len() < self.call_ids.len() {
            Some(self.results.len())
        } else {
            None
        }
    }

    /// Records what the call that ran answered, and whether its tool
    /// reported the turn cancelled.
    pub fn record(&mut self, output: String, is_error: bool, images: Vec<ToolImage>, was_cancelled: bool)
        requires
            old(self).wf(),
            old(self).results@.len() < old(self).call_ids@.len(),
        ensures
            final(self).wf(),
            final(self).call_ids == old(self).call_ids,
            final(self).cancelled == was_cancelled,
            final(self).results@.len() == old(self).results@.len() + 1,
            forall|i: int| 0 <= i < old(self).results@.len() ==> final(self).results@[i] == old(self).results@[i],
            final(self).results@.last().output == output,
            final(self).results@.last().is_error == is_error,
            final(self).results@.last().images == images,
    {
        let k = self.results.len();
        let id = self.call_ids[k].clone();
        self.results.push(ToolOutcome { call_id: id, output, is_error, images });
        self.cancelled = was_cancelled;
    }
}

/// Every call of a batch that did not run answered with the same error text.
pub fn unanswered_results(call_ids: &Vec<String>, text: &str) -> (r: Vec<ToolOutcome>)
    ensures
        r@.len() == call_ids@.len(),
        forall|i: int|
            0 <= i < r@.len() ==> outcome_view(#[trigger] r@[i]) == (
                call_ids@[i]@,
                text@,
                true,
                Seq::<(Seq<char>, Seq<char>)>::empty(),
            ),
{
    let mut out: Vec<ToolOutcome> = Vec::new();
    let mut i: usize = 0;
    while i < call_ids.len()
        invariant
            i <= call_ids@.len(),
            out@.len() == i,
            forall|k: int|
                0 <= k < i ==> outcome_view(#[trigger] out@[k]) == (
                    call_ids@[k]@,
                    text@,
                    true,
                    Seq::<(Seq<char>, Seq<char>)>::empty(),
                ),
        decreases call_ids@.len() - i,
    {
        let o = ToolOutcome { call_id: call_ids[i].clone(), output: text.to_owned(), is_error: true, images: Vec::new() };
        assert(outcome_view(o).3 =~= Seq::<(Seq<char>, Seq<char>)>::empty());
        out.push(o);
        i = i + 1;
    }
    out
}

// ---------------------------------------------------------------------------
// The message of tool results
// ---------------------------------------------------------------------------

/// The blocks that answer tool calls: each result, followed by the images
/// its tool handed back.
pub open spec fn result_blocks(rs: Seq<ToolOutcome>) -> Seq<BlockView>
    decreases rs.len(),
{
    if rs.len() == 0 {
        Seq::empty()
    } else {
        let o = outcome_view(rs.last());
        result_blocks(rs.drop_last()) + seq![BlockView::ToolResult(o.0, o.1, o.2)] + Seq::new(
            o.3.len(),
            |i: int| BlockView::Image(o.3[i].0, o.3[i].1),
        )
    }
}

fn push_outcome_blocks(out: &mut Vec<Block>, o: ToolOutcome)
    ensures
        blocks_view(final(out)@) == blocks_view(old(out)@) + seq![
            BlockView::ToolResult(outcome_view(o).0, outcome_view(o).1, outcome_view(o).2),
        ] + Seq::new(outcome_view(o).3.len(), |i: int| BlockView::Image(outcome_view(o).3[i].0, outcome_view(o).3[i].1)),
{
    let ghost ov = outcome_view(o);
    let ghost start = blocks_view(out@);
    let ToolOutcome { call_id, output, is_error, images } = o;
    out.push(Block::ToolResult { tool_use_id: call_id, content: output, is_error });
    let ghost head = blocks_view(out@);
    assert(head =~= start + seq![BlockView::ToolResult(ov.0, ov.1, ov.2)]);
    let ghost imgs = Seq::new(ov.3.len(), |i: int| BlockView::Image(ov.3[i].0, ov.3[i].1));
    let mut i: usize = 0;
    assert(head + imgs.take(0) =~= head);
    while i < images.len()
        invariant
            i <= images@.len(),
            ov.3.len() == images@.len(),
            forall|k: int| 0 <= k < images@.len() ==> ov.3[k] == (#[trigger] images@[k].mime_type@, images@[k].data@),
            imgs == Seq::new(ov.3.len(), |i: int| BlockView::Image(ov.3[i].0, ov.3[i].1)),
            blocks_view(out@) == head + imgs.take(i as int),
        decreases images@.len() - i,
    {
        let ghost before = blocks_view(out@);
        out.push(Block::Image { mime_type: images[i].mime_type.clone(), data: images[i].data.clone() });
        assert(blocks_view(out@) =~= before.push(BlockView::Image(images@[i as int].mime_type@, images@[i as int].data@)));
        assert(imgs.take(i + 1) =~= imgs.take(i as int).push(imgs[i as int]));
        i = i + 1;
    }
    assert(imgs.take(i as int) =~= imgs);
}

/// The blocks that answer tool calls, as [`result_blocks`] says.
pub fn tool_result_blocks(results: Vec<ToolOutcome>) -> (r: Vec<Block>)
    ensures
        blocks_view(r@) == result_blocks(results@),
{
    let ghost rs = results@;
    let mut out: Vec<Block> = Vec::new();
    let mut rest = results;
    let mut taken: Vec<ToolOutcome> = Vec::new();
    // Reverse, so that popping hands the results out in order.
    while rest.len() > 0
        invariant
            rest@.len() + taken@.len() == rs.len(),
            forall|k: int| 0 <= k < rest@.len() ==> rest@[k] == rs[k],
            forall|k: int| 0 <= k < taken@.len() ==> taken@[k] == rs[rs.len() - 1 - k],
        decreases rest@.len(),
    {
        let x = rest.pop().unwrap();
        taken.push(x);
    }
    let n = taken.len();
    let mut i: usize = 0;
    assert(rs.take(0) =~= Seq::<ToolOutcome>::empty());
    assert(blocks_view(out@) =~= Seq::<BlockView>::empty());
    while i < n
        invariant
            i <= n,
            n == rs.len(),
            taken@.len() == n - i,
            forall|k: int| 0 <= k < taken@.len() ==> taken@[k] == rs[n - 1 - k],
            blocks_view(out@) == result_blocks(rs.take(i as int)),
        decreases n - i,
    {
        let o = taken.pop().unwrap();
        assert(o == rs[i as int]);
        assert(rs.take(i + 1).drop_last() =~= rs.take(i as int));
        push_outcome_blocks(&mut out, o);
        i = i + 1;
    }
    assert(rs.take(n as int) =~= rs);
    out
}

/// The user message that answers a batch of tool calls: under the assistant
/// message that made them, its blocks as [`result_blocks`] says; `None` when
/// there is nothing to answer. Its id is fresh and its time is now; of those,
/// only the id's length is stated.
pub fn tool_results_message(parent_id: &str, results: Vec<ToolOutcome>) -> (r: Option<ChatMessage>)
    ensures
        results@.len() == 0 <==> r is None,
        r matches Some(m) ==> m@.role == Role::User && m@.parent_id == Some(parent_id@) && m@.content == result_blocks(
            results@,
        ) && m@.id.len() == 36,
{
    if results.len() == 0 {
        return None;
    }
    let content = tool_result_blocks(results);
    Some(
        ChatMessage {
            id: new_entry_id(),
            parent_id: Some(parent_id.to_owned()),
            role: Role::User,
            content,
            created_at: now_millis(),
        },
    )
}

// ---------------------------------------------------------------------------
// Every call answered
// ---------------------------------------------------------------------------

/// The call ids of the tool calls among some blocks, in order.
pub open spec fn tool_use_ids(bs: Seq<BlockView>) -> Seq<Seq<char>>
    decreases bs.len(),
{
    if bs.len() == 0 {
        Seq::empty()
    } else {
        let t = tool_use_ids(bs.drop_last());
        match bs.last() {
            BlockView::ToolUse(id, _, _) => t.push(id),
            _ => t,
        }
    }
}

/// The call ids that the tool results among some blocks answer, in order.
pub open spec fn tool_result_ids(bs: Seq<BlockView>) -> Seq<Seq<char>>
    decreases bs.len(),
{
    if bs.len() == 0 {
        Seq::empty()
    } else {
        let t = tool_result_ids(bs.drop_last());
        match bs.last() {
            BlockView::ToolResult(id, _, _) => t.push(id),
            _ => t,
        }
    }
}

proof fn lemma_ids_concat(a: Seq<BlockView>, b: Seq<BlockView>)
    ensures
        tool_use_ids(a + b) == tool_use_ids(a) + tool_use_ids(b),
        tool_result_ids(a + b) == tool_result_ids(a) + tool_result_ids(b),
    decreases b.len(),
{
    if b.len() == 0 {
        assert(a + b =~= a);
        assert(tool_use_ids(a) + tool_use_ids(b) =~= tool_use_ids(a));
        assert(tool_result_ids(a) + tool_result_ids(b) =~= tool_result_ids(a));
    } else {
        lemma_ids_concat(a, b.drop_last());
        assert((a + b).drop_last() =~= a + b.drop_last());
        assert((a + b).last() == b.last());
        match b.last() {
            BlockView::ToolUse(id, _, _) => {
                assert(tool_use_ids(a) + tool_use_ids(b) =~= (tool_use_ids(a) + tool_use_ids(b.drop_last())).push(id));
                assert(tool_result_ids(a) + tool_result_ids(b) =~= tool_result_ids(a) + tool_result_ids(b.drop_last()));
            },
            BlockView::ToolResult(id, _, _) => {
                assert(tool_result_ids(a) + tool_result_ids(b) =~= (tool_result_ids(a) + tool_result_ids(b.drop_last())).push(
                    id,
                ));
                assert(tool_use_ids(a) + tool_use_ids(b) =~= tool_use_ids(a) + tool_use_ids(b.drop_last()));
            },
            _ => {
                assert(tool_use_ids(a) + tool_use_ids(b) =~= tool_use_ids(a) + tool_use_ids(b.drop_last()));
                assert(tool_result_ids(a) + tool_result_ids(b) =~= tool_result_ids(a) + tool_result_ids(b.drop_last()));
            },
        }
    }
}

proof fn lemma_images_have_no_ids(imgs: Seq<(Seq<char>, Seq<char>)>)
    ensures
        tool_use_ids(Seq::new(imgs.len(), |i: int| BlockView::Image(imgs[i].0, imgs[i].1))).len() == 0,
        tool_result_ids(Seq::new(imgs.len(), |i: int| BlockView::Image(imgs[i].0, imgs[i].1))).len() == 0,
    decreases imgs.len(),
{
    let s = Seq::new(imgs.len(), |i: int| BlockView::Image(imgs[i].0, imgs[i].1));
    if imgs.len() > 0 {
        lemma_images_have_no_ids(imgs.drop_last());
        assert(s.drop_last() =~= Seq::new(imgs.drop_last().len(), |i: int| BlockView::Image(imgs.drop_last()[i].0, imgs.drop_last()[i].1)));
    }
}

proof fn lemma_result_ids(rs: Seq<ToolOutcome>)
    ensures
        tool_result_ids(result_blocks(rs)) == Seq::new(rs.len(), |i: int| rs[i].call_id@),
        tool_use_ids(result_blocks(rs)).len() == 0,
    decreases rs.len(),
{
    if rs.len() > 0 {
        lemma_result_ids(rs.drop_last());
        let o = outcome_view(rs.last());
        let imgs = Seq::new(o.3.len(), |i: int| BlockView::Image(o.3[i].0, o.3[i].1));
        let one = seq![BlockView::ToolResult(o.0, o.1, o.2)];
        lemma_ids_concat(result_blocks(rs.drop_last()), one);
        lemma_ids_concat(result_blocks(rs.drop_last()) + one, imgs);
        lemma_images_have_no_ids(o.3);
        assert(tool_result_ids(one) =~= seq![o.0]) by {
            reveal_with_fuel(tool_result_ids, 2);
            assert(one.drop_last() =~= Seq::<BlockView>::empty());
        }
        assert(tool_use_ids(one) =~= Seq::<Seq<char>>::empty()) by {
            reveal_with_fuel(tool_use_ids, 2);
            assert(one.drop_last() =~= Seq::<BlockView>::empty());
        }
        assert(Seq::new(rs.len(), |i: int| rs[i].call_id@) =~= Seq::new(
            rs.drop_last().len(),
            |i: int| rs.drop_last()[i].call_id@,
        ).push(o.0));
    }
}

proof fn lemma_calls_ids(calls: Seq<(Seq<char>, Seq<char>, Json)>)
    ensures
        tool_use_ids(Seq::new(calls.len(), |i: int| BlockView::ToolUse(calls[i].0, calls[i].1, calls[i].2)))
            == Seq::new(calls.len(), |i: int| calls[i].0),
    decreases calls.len(),
{
    let s = Seq::new(calls.len(), |i: int| BlockView::ToolUse(calls[i].0, calls[i].1, calls[i].2));
    if calls.len() > 0 {
        let c = calls.drop_last();
        lemma_calls_ids(c);
        assert(s.drop_last() =~= Seq::new(c.len(), |i: int| BlockView::ToolUse(c[i].0, c[i].1, c[i].2)));
        assert(Seq::new(calls.len(), |i: int| calls[i].0) =~= Seq::new(c.len(), |i: int| c[i].0).push(calls.last().0));
    }
}

/// Every tool call of an answer is answered, once and in order: where each
/// result carries the id of the call at its place (as a [`ToolBatch`] that
/// has run to its end, and [`unanswered_results`], give them), the message
/// of results answers exactly the calls of the assistant message.
pub proof fn lemma_results_answer_calls(d: DraftView, rs: Seq<ToolOutcome>)
    requires
        rs.len() == d.calls.len(),
        forall|i: int| 0 <= i < rs.len() ==> (#[trigger] rs[i]).call_id@ == d.calls[i].0,
    ensures
        tool_result_ids(result_blocks(rs)) == tool_use_ids(answer_blocks(d)),
{
    let b0: Seq<BlockView> = if d.thinking.len() > 0 {
        seq![BlockView::Thinking(d.thinking)]
    } else {
        Seq::empty()
    };
    let b1 = if d.text.len() > 0 {
        b0.push(BlockView::Text(d.text))
    } else {
        b0
    };
    let tail = Seq::new(d.calls.len(), |i: int| BlockView::ToolUse(d.calls[i].0, d.calls[i].1, d.calls[i].2));
    lemma_ids_concat(b1, tail);
    assert(tool_use_ids(b1).len() == 0) by {
        reveal_with_fuel(tool_use_ids, 3);
        if d.thinking.len() > 0 {
            assert(b0.drop_last() =~= Seq::<BlockView>::empty());
        }
        if d.text.len() > 0 {
            assert(b1.drop_last() =~= b0);
        }
    }
    lemma_calls_ids(d.calls);
    lemma_result_ids(rs);
    assert(tool_use_ids(answer_blocks(d)) =~= Seq::new(d.calls.len(), |i: int| d.calls[i].0));
    assert(tool_result_ids(result_blocks(rs)) =~= Seq::new(d.calls.len(), |i: int| d.calls[i].0));
}

/// The error of a turn whose request could not be sent.
pub fn provider_error(error: &str) -> (r: String)
    ensures
        r@ == "Provider error: "@ + error@,
{
    let mut m = crate::text::chars_of("Provider error: ");
    let e = crate::text::chars_of(error);
    crate::text::append_chars(&mut m, e.as_slice());
    crate::text::string_of(m.as_slice())
}

} // verus!
