//! The streamed answers of model providers: server-sent-event parsers.
//!
//! A provider answers with a stream of byte chunks. A parser keeps the text it
//! has not consumed yet, and turns every complete event block (text ended by a
//! blank line) into [`ProviderStreamEvent`]s. Each parser is a state machine:
//! `feed` takes one chunk and returns the events it completes, `finish` the
//! events owed when the stream ends; the `parse_*_sse` functions run one over a
//! whole stream.
//!
//! What a parser emits is stated by spec functions over the state's view, the
//! lines of each block and the parsed JSON of each payload ([`json_parse`]).
use vstd::prelude::*;

use crate::hunks::lemma_find_from_bounds;
use crate::json::{
    json_at, json_get, json_items, json_parse, json_str, json_u64, opt_get, opt_str, opt_u64,
    parse_json, JsonValue,
};
use crate::text::{
    append_chars, chars_of, find_from, find_from_exec, join, lines_view, strip_prefix,
    strip_prefix_exec, string_of, trim, trim_vec,
};
use crate::tools::{lossy_text, text_lines, text_lines_exec, utf8_lossy};

verus! {

// ---------------------------------------------------------------------------
// Events
// ---------------------------------------------------------------------------

/// Why a model ended its answer.
#[derive(Debug, Clone, Copy, PartialEq, Eq)]
pub enum StopReason {
    EndTurn,
    ToolUse,
    MaxTokens,
    Cancelled,
    Error,
}

/// One event of a model's streamed answer.
#[derive(Debug, PartialEq)]
pub enum ProviderStreamEvent {
    ThinkingDelta(String),
    TextDelta(String),
    ToolCall { id: String, name: String, input: JsonValue },
    Usage { input_tokens: usize, output_tokens: usize },
    Done { stop_reason: StopReason },
    Error(String),
}

/// What a tool call's input is made from.
pub enum ToolInput {
    /// Arguments sent as JSON text: their parse, or an object that reports
    /// the parse error (`_parse_error`) beside the raw text (`_raw`).
    Text(Seq<char>),
    /// A value sent as it is.
    Value(JsonValue),
    /// No arguments: an empty object.
    EmptyObject,
}

/// What an event says.
pub enum EventSpec {
    Thinking(Seq<char>),
    Text(Seq<char>),
    ToolCall(Seq<char>, Seq<char>, ToolInput),
    Usage(usize, usize),
    Done(StopReason),
    Error(Seq<char>),
}

/// The object that stands for arguments that are not valid JSON.
pub open spec fn error_object(v: JsonValue, message: Seq<char>, raw: Seq<char>) -> bool {
    match v {
        JsonValue::Object(es) => {
            &&& es@.len() == 2
            &&& es@[0].0@ == "_parse_error"@
            &&& json_str(es@[0].1) == Some(message)
            &&& es@[1].0@ == "_raw"@
            &&& json_str(es@[1].1) == Some(raw)
        },
        _ => false,
    }
}

pub open spec fn input_meets(v: JsonValue, input: ToolInput) -> bool {
    match input {
        ToolInput::Text(t) => match json_parse(t) {
            Ok(p) => v == p,
            Err(e) => error_object(v, e, t),
        },
        ToolInput::Value(p) => v == p,
        ToolInput::EmptyObject => v matches JsonValue::Object(es) && es@.len() == 0,
    }
}

pub open spec fn event_meets(e: ProviderStreamEvent, s: EventSpec) -> bool {
    match s {
        EventSpec::Thinking(t) => e matches ProviderStreamEvent::ThinkingDelta(x) && x@ == t,
        EventSpec::Text(t) => e matches ProviderStreamEvent::TextDelta(x) && x@ == t,
        EventSpec::ToolCall(id, name, input) => e matches ProviderStreamEvent::ToolCall {
            id: i,
            name: n,
            input: v,
        } && i@ == id && n@ == name && input_meets(v, input),
        EventSpec::Usage(a, b) => e matches ProviderStreamEvent::Usage {
            input_tokens: x,
            output_tokens: y,
        } && x == a && y == b,
        EventSpec::Done(r) => e matches ProviderStreamEvent::Done { stop_reason: x } && x == r,
        EventSpec::Error(t) => e matches ProviderStreamEvent::Error(x) && x@ == t,
    }
}

/// The events say, one for one, what the specs say.
pub open spec fn events_meet(es: Seq<ProviderStreamEvent>, ss: Seq<EventSpec>) -> bool {
    es.len() == ss.len() && forall|i: int| 0 <= i < es.len() ==> event_meets(#[trigger] es[i], ss[i])
}

/// `after` is `before` followed by events that meet `ss`.
pub open spec fn appended(
    before: Seq<ProviderStreamEvent>,
    after: Seq<ProviderStreamEvent>,
    ss: Seq<EventSpec>,
) -> bool {
    &&& after.len() == before.len() + ss.len()
    &&& after.take(before.len() as int) == before
    &&& events_meet(after.skip(before.len() as int), ss)
}

proof fn lemma_appended_from_empty(out: Seq<ProviderStreamEvent>, ss: Seq<EventSpec>)
    requires
        appended(Seq::empty(), out, ss),
    ensures
        events_meet(out, ss),
{
    assert(out.skip(0) =~= out);
}

proof fn lemma_appended_trans(
    a: Seq<ProviderStreamEvent>,
    b: Seq<ProviderStreamEvent>,
    c: Seq<ProviderStreamEvent>,
    s1: Seq<EventSpec>,
    s2: Seq<EventSpec>,
)
    requires
        appended(a, b, s1),
        appended(b, c, s2),
    ensures
        appended(a, c, s1 + s2),
{
    assert(c.take(a.len() as int) =~= a) by {
        assert(c.take(b.len() as int).take(a.len() as int) =~= c.take(a.len() as int));
    }
    let t = c.skip(a.len() as int);
    let s = s1 + s2;
    assert forall|i: int| 0 <= i < t.len() implies event_meets(#[trigger] t[i], s[i]) by {
        if i < s1.len() {
            assert(t[i] == b.skip(a.len() as int)[i]);
        } else {
            assert(t[i] == c.skip(b.len() as int)[i - s1.len()]);
        }
    }
}

proof fn lemma_appended_none(a: Seq<ProviderStreamEvent>)
    ensures
        appended(a, a, Seq::empty()),
{
    assert(a.take(a.len() as int) =~= a);
}

fn push_event(out: &mut Vec<ProviderStreamEvent>, e: ProviderStreamEvent, Ghost(s): Ghost<EventSpec>)
    requires
        event_meets(e, s),
    ensures
        appended(old(out)@, final(out)@, seq![s]),
{
    let ghost before = out@;
    out.push(e);
    assert(out@.take(before.len() as int) =~= before);
    assert(out@.skip(before.len() as int) =~= seq![e]);
}

fn append_events(out: &mut Vec<ProviderStreamEvent>, evs: Vec<ProviderStreamEvent>, Ghost(ss): Ghost<Seq<EventSpec>>)
    requires
        events_meet(evs@, ss),
    ensures
        appended(old(out)@, final(out)@, ss),
{
    let ghost before = out@;
    let mut evs = evs;
    out.append(&mut evs);
    assert(out@.take(before.len() as int) =~= before);
    assert forall|k: int| 0 <= k < ss.len() implies event_meets(
        #[trigger] out@.skip(before.len() as int)[k],
        ss[k],
    ) by {
        assert(out@.skip(before.len() as int)[k] == out@[before.len() + k]);
    }
}

/// Text compared with a string literal.
fn is_text(t: &[char], lit: &str) -> (b: bool)
    ensures
        b == (t@ == lit@),
{
    let l = chars_of(lit);
    crate::text::eq_chars(t, l.as_slice())
}

/// The input of a tool call whose arguments came as JSON text.
fn tool_input(args: &[char]) -> (r: JsonValue)
    ensures
        input_meets(r, ToolInput::Text(args@)),
{
    let text = string_of(args);
    match parse_json(text.as_str()) {
        Ok(v) => v,
        Err(e) => {
            let mut es: Vec<(String, JsonValue)> = Vec::new();
            es.push(("_parse_error".to_owned(), JsonValue::Str(e)));
            es.push(("_raw".to_owned(), JsonValue::Str(text)));
            JsonValue::Object(es)
        },
    }
}

// ---------------------------------------------------------------------------
// Blocks and lines
// ---------------------------------------------------------------------------

/// The text that ends an event block.
pub open spec fn block_end() -> Seq<char> {
    seq!['\n', '\n']
}

/// The complete blocks at the front of a buffer, each ended by a blank line,
/// and the unfinished rest.
pub open spec fn frames(buf: Seq<char>) -> (Seq<Seq<char>>, Seq<char>)
    decreases buf.len(),
{
    match find_from(buf, block_end(), 0) {
        Some(p) => {
            proof {
                lemma_find_from_bounds(buf, block_end(), 0);
            }
            let rest = frames(buf.skip(p + 2));
            (seq![buf.take(p)] + rest.0, rest.1)
        },
        None => (Seq::empty(), buf),
    }
}

/// The payload of a `data:` line: what follows the prefix, trimmed.
pub open spec fn data_of(line: Seq<char>) -> Option<Seq<char>> {
    match strip_prefix(line, "data:"@) {
        Some(d) => Some(trim(d)),
        None => None,
    }
}

fn data_of_exec(line: &[char]) -> (r: Option<Vec<char>>)
    ensures
        match r {
            Some(d) => data_of(line@) == Some(d@),
            None => data_of(line@) is None,
        },
{
    let prefix = chars_of("data:");
    match strip_prefix_exec(line, prefix.as_slice()) {
        Some(d) => Some(trim_vec(d.as_slice())),
        None => None,
    }
}

/// A looked-up element at an index of a looked-up value.
pub open spec fn opt_at(o: Option<JsonValue>, i: int) -> Option<JsonValue> {
    match o {
        Some(v) => json_at(v, i),
        None => None,
    }
}

pub open spec fn opt_items(o: Option<JsonValue>) -> Option<Seq<JsonValue>> {
    match o {
        Some(v) => json_items(v),
        None => None,
    }
}

/// A token count: the number, or zero where there is none.
pub open spec fn count_or_zero(o: Option<JsonValue>) -> usize {
    match opt_u64(o) {
        Some(n) => n as usize,
        None => 0,
    }
}

fn count_or_zero_exec(o: Option<&JsonValue>) -> (n: usize)
    ensures
        n == count_or_zero(crate::json::opt_deref(o)),
{
    match o {
        Some(v) => match v.as_u64() {
            Some(n) => n as usize,
            None => 0,
        },
        None => 0,
    }
}

fn str_of(o: Option<&JsonValue>) -> (r: Option<Vec<char>>)
    ensures
        match r {
            Some(s) => opt_str(crate::json::opt_deref(o)) == Some(s@),
            None => opt_str(crate::json::opt_deref(o)) is None,
        },
{
    match o {
        Some(v) => match v.as_str() {
            Some(s) => Some(chars_of(s)),
            None => None,
        },
        None => None,
    }
}

// ---------------------------------------------------------------------------
// OpenAI chat completions
// ---------------------------------------------------------------------------

/// A tool call being assembled from streamed pieces.
pub struct CallPieces {
    index: usize,
    id: Vec<char>,
    name: Vec<char>,
    args: Vec<char>,
}

pub struct CallView {
    pub index: usize,
    pub id: Seq<char>,
    pub name: Seq<char>,
    pub args: Seq<char>,
}

impl View for CallPieces {
    type V = CallView;

    closed spec fn view(&self) -> CallView {
        CallView { index: self.index, id: self.id@, name: self.name@, args: self.args@ }
    }
}

pub open spec fn calls_view(v: Seq<CallPieces>) -> Seq<CallView> {
    Seq::new(v.len(), |i: int| v[i]@)
}

/// Position of the call with this index, searching from `i`.
pub open spec fn call_position(calls: Seq<CallView>, index: usize, i: int) -> Option<int>
    decreases calls.len() - i,
{
    if i < 0 || i >= calls.len() {
        None
    } else if calls[i].index == index {
        Some(i)
    } else {
        call_position(calls, index, i + 1)
    }
}

/// Where a call with this index goes: before the first call with a larger one.
pub open spec fn insert_position(calls: Seq<CallView>, index: usize, i: int) -> int
    decreases calls.len() - i,
{
    if i < 0 || i >= calls.len() {
        calls.len() as int
    } else if calls[i].index > index {
        i
    } else {
        insert_position(calls, index, i + 1)
    }
}

/// The calls with one for this index (a new, empty one where there was none),
/// and its position.
pub open spec fn with_slot(calls: Seq<CallView>, index: usize) -> (Seq<CallView>, int) {
    match call_position(calls, index, 0) {
        Some(p) => (calls, p),
        None => {
            let q = insert_position(calls, index, 0);
            (
                calls.insert(
                    q,
                    CallView { index, id: Seq::empty(), name: Seq::empty(), args: Seq::empty() },
                ),
                q,
            )
        },
    }
}

/// The index that a streamed tool-call piece names (0 where it names none).
pub open spec fn piece_index(item: JsonValue) -> usize {
    match opt_u64(json_get(item, "index"@)) {
        Some(n) => n as usize,
        None => 0,
    }
}

/// A call with one streamed piece applied: a new id replaces the old, name and
/// argument text are appended.
pub open spec fn apply_piece(c: CallView, item: JsonValue) -> CallView {
    let func = json_get(item, "function"@);
    CallView {
        index: c.index,
        id: match opt_str(json_get(item, "id"@)) {
            Some(s) => s,
            None => c.id,
        },
        name: match opt_str(opt_get(func, "name"@)) {
            Some(s) => c.name + s,
            None => c.name,
        },
        args: match opt_str(opt_get(func, "arguments"@)) {
            Some(s) => c.args + s,
            None => c.args,
        },
    }
}

pub open spec fn upsert_call(calls: Seq<CallView>, item: JsonValue) -> Seq<CallView> {
    let (c, p) = with_slot(calls, piece_index(item));
    c.update(p, apply_piece(c[p], item))
}

pub open spec fn upsert_calls(calls: Seq<CallView>, items: Seq<JsonValue>) -> Seq<CallView>
    decreases items.len(),
{
    if items.len() == 0 {
        calls
    } else {
        upsert_calls(upsert_call(calls, items[0]), items.drop_first())
    }
}

/// The tool calls handed out, in order.
pub open spec fn flush_calls(calls: Seq<CallView>) -> Seq<EventSpec> {
    Seq::new(
        calls.len(),
        |i: int| EventSpec::ToolCall(calls[i].id, calls[i].name, ToolInput::Text(calls[i].args)),
    )
}

/// The texts of the `reasoning_details` entries that have one.
pub open spec fn detail_texts(items: Seq<JsonValue>) -> Seq<Seq<char>>
    decreases items.len(),
{
    if items.len() == 0 {
        Seq::empty()
    } else {
        let rest = detail_texts(items.drop_last());
        match opt_str(json_get(items.last(), "text"@)) {
            Some(t) => rest.push(t),
            None => rest,
        }
    }
}

/// The reasoning text of a completion delta: `reasoning_content`, else
/// `reasoning` (each only when not empty), else the texts of
/// `reasoning_details` joined, when there is at least one.
pub open spec fn spec_reasoning_delta(delta: JsonValue) -> Option<Seq<char>> {
    let a = opt_str(json_get(delta, "reasoning_content"@));
    let b = opt_str(json_get(delta, "reasoning"@));
    if a is Some && a->0.len() > 0 {
        a
    } else if b is Some && b->0.len() > 0 {
        b
    } else {
        match opt_items(json_get(delta, "reasoning_details"@)) {
            Some(items) => if detail_texts(items).len() == 0 {
                None
            } else {
                Some(join(detail_texts(items), Seq::empty()))
            },
            None => None,
        }
    }
}

/// The reasoning text of a completion delta, as [`spec_reasoning_delta`] says.
pub fn extract_reasoning_delta(delta: &JsonValue) -> (r: Option<String>)
    ensures
        crate::hunks::opt_string_view(r) == spec_reasoning_delta(*delta),
{
    let a = str_of(delta.get("reasoning_content"));
    if let Some(t) = a {
        if t.len() > 0 {
            return Some(string_of(t.as_slice()));
        }
    }
    let b = str_of(delta.get("reasoning"));
    if let Some(t) = b {
        if t.len() > 0 {
            return Some(string_of(t.as_slice()));
        }
    }
    let details = delta.get("reasoning_details");
    let items = match details {
        Some(d) => match d.as_array() {
            Some(items) => items,
            None => {
                return None;
            },
        },
        None => {
            return None;
        },
    };
    let mut texts: Vec<Vec<char>> = Vec::new();
    let mut i: usize = 0;
    while i < items.len()
        invariant
            i <= items@.len(),
            lines_view(texts@) == detail_texts(items@.take(i as int)),
        decreases items@.len() - i,
    {
        let ghost before = lines_view(texts@);
        assert(items@.take(i + 1).drop_last() =~= items@.take(i as int));
        match str_of(items[i].get("text")) {
            Some(t) => {
                let ghost tv = t@;
                texts.push(t);
                assert(lines_view(texts@) =~= before.push(tv));
            },
            None => {},
        }
        i = i + 1;
    }
    assert(items@.take(items@.len() as int) =~= items@);
    if texts.len() == 0 {
        return None;
    }
    let none: Vec<char> = Vec::new();
    let joined = crate::text::join_exec(&texts, none.as_slice());
    Some(string_of(joined.as_slice()))
}

/// What a completion stream has told so far.
pub struct OpenAiSse {
    buffer: Vec<char>,
    calls: Vec<CallPieces>,
    done_sent: bool,
    finished: bool,
}

pub struct OpenAiCore {
    pub calls: Seq<CallView>,
    pub done_sent: bool,
    pub finished: bool,
}

pub struct OpenAiState {
    pub buffer: Seq<char>,
    pub core: OpenAiCore,
}

impl View for OpenAiSse {
    type V = OpenAiState;

    closed spec fn view(&self) -> OpenAiState {
        OpenAiState {
            buffer: self.buffer@,
            core: OpenAiCore {
                calls: calls_view(self.calls@),
                done_sent: self.done_sent,
                finished: self.finished,
            },
        }
    }
}

pub open spec fn finish_stop(reason: Seq<char>) -> StopReason {
    if reason == "tool_calls"@ {
        StopReason::ToolUse
    } else if reason == "length"@ {
        StopReason::MaxTokens
    } else {
        StopReason::EndTurn
    }
}

/// One `delta` of a completion chunk.
pub open spec fn oa_delta(c: OpenAiCore, d: JsonValue) -> (OpenAiCore, Seq<EventSpec>) {
    let th = match spec_reasoning_delta(d) {
        Some(t) => seq![EventSpec::Thinking(t)],
        None => Seq::empty(),
    };
    let tx = match opt_str(json_get(d, "content"@)) {
        Some(t) => if t.len() > 0 {
            seq![EventSpec::Text(t)]
        } else {
            Seq::empty()
        },
        None => Seq::empty(),
    };
    let calls = match opt_items(json_get(d, "tool_calls"@)) {
        Some(items) => upsert_calls(c.calls, items),
        None => c.calls,
    };
    (OpenAiCore { calls, ..c }, th + tx)
}

/// One parsed completion chunk: usage, then the first choice's delta, then its
/// finish reason (which hands out the assembled tool calls and ends the turn).
pub open spec fn oa_value(c: OpenAiCore, val: JsonValue) -> (OpenAiCore, Seq<EventSpec>) {
    let usage = match json_get(val, "usage"@) {
        Some(u) => seq![
            EventSpec::Usage(
                count_or_zero(json_get(u, "prompt_tokens"@)),
                count_or_zero(json_get(u, "completion_tokens"@)),
            ),
        ],
        None => Seq::empty(),
    };
    match opt_at(json_get(val, "choices"@), 0) {
        None => (c, usage),
        Some(choice) => {
            let (c1, e1) = match json_get(choice, "delta"@) {
                Some(d) => oa_delta(c, d),
                None => (c, Seq::empty()),
            };
            match opt_str(json_get(choice, "finish_reason"@)) {
                Some(fr) => (
                    OpenAiCore { calls: Seq::empty(), done_sent: true, ..c1 },
                    usage + e1 + flush_calls(c1.calls).push(EventSpec::Done(finish_stop(fr))),
                ),
                None => (c1, usage + e1),
            }
        },
    }
}

/// One line of a completion stream.
pub open spec fn oa_line(c: OpenAiCore, line: Seq<char>) -> (OpenAiCore, Seq<EventSpec>) {
    match data_of(trim(line)) {
        None => (c, Seq::empty()),
        Some(data) => if data == "[DONE]"@ {
            if c.done_sent {
                (OpenAiCore { finished: true, ..c }, Seq::empty())
            } else {
                (
                    OpenAiCore { calls: Seq::empty(), finished: true, ..c },
                    flush_calls(c.calls).push(
                        EventSpec::Done(
                            if c.calls.len() > 0 {
                                StopReason::ToolUse
                            } else {
                                StopReason::EndTurn
                            },
                        ),
                    ),
                )
            }
        } else {
            match json_parse(data) {
                Ok(val) => oa_value(c, val),
                Err(_) => (c, Seq::empty()),
            }
        },
    }
}

pub open spec fn oa_lines(c: OpenAiCore, lines: Seq<Seq<char>>) -> (OpenAiCore, Seq<EventSpec>)
    decreases lines.len(),
{
    if lines.len() == 0 || c.finished {
        (c, Seq::empty())
    } else {
        let (c1, e1) = oa_line(c, lines[0]);
        let (c2, e2) = oa_lines(c1, lines.drop_first());
        (c2, e1 + e2)
    }
}

pub open spec fn oa_frames(c: OpenAiCore, fs: Seq<Seq<char>>) -> (OpenAiCore, Seq<EventSpec>)
    decreases fs.len(),
{
    if fs.len() == 0 || c.finished {
        (c, Seq::empty())
    } else {
        let (c1, e1) = oa_lines(c, text_lines(fs[0]));
        let (c2, e2) = oa_frames(c1, fs.drop_first());
        (c2, e1 + e2)
    }
}

/// One chunk of a completion stream. Once `[DONE]` is read the stream is over
/// and nothing more is read.
pub open spec fn oa_feed(st: OpenAiState, chunk: Seq<u8>) -> (OpenAiState, Seq<EventSpec>) {
    if st.core.finished {
        (st, Seq::empty())
    } else {
        let (fs, rest) = frames(st.buffer + utf8_lossy(chunk));
        let (c, evs) = oa_frames(st.core, fs);
        (OpenAiState { buffer: if c.finished { Seq::empty() } else { rest }, core: c }, evs)
    }
}

/// A completion stream before any chunk.
pub open spec fn oa_initial() -> OpenAiState {
    OpenAiState {
        buffer: Seq::empty(),
        core: OpenAiCore { calls: Seq::empty(), done_sent: false, finished: false },
    }
}

/// The chunks of a stream, each as bytes or as the text of a transport error.
pub open spec fn chunks_view(items: Seq<Result<Vec<u8>, String>>) -> Seq<Result<Seq<u8>, Seq<char>>> {
    Seq::new(
        items.len(),
        |i: int|
            match items[i] {
                Ok(c) => Ok(c@),
                Err(e) => Err(e@),
            },
    )
}

/// A whole completion stream: a transport error is reported and ends it, as
/// does `[DONE]`.
pub open spec fn oa_stream(st: OpenAiState, items: Seq<Result<Seq<u8>, Seq<char>>>) -> Seq<
    EventSpec,
>
    decreases items.len(),
{
    if items.len() == 0 {
        Seq::empty()
    } else {
        match items[0] {
            Err(e) => seq![EventSpec::Error(e)],
            Ok(c) => {
                let (s1, e1) = oa_feed(st, c);
                if s1.core.finished {
                    e1
                } else {
                    e1 + oa_stream(s1, items.drop_first())
                }
            },
        }
    }
}

proof fn lemma_call_position_bounds(calls: Seq<CallView>, index: usize, i: int)
    ensures
        call_position(calls, index, i) matches Some(p) ==> i <= p < calls.len() && calls[p].index
            == index,
    decreases calls.len() - i,
{
    if !(i < 0 || i >= calls.len()) && calls[i].index != index {
        lemma_call_position_bounds(calls, index, i + 1);
    }
}

proof fn lemma_insert_position_bounds(calls: Seq<CallView>, index: usize, i: int)
    requires
        0 <= i,
    ensures
        0 <= insert_position(calls, index, i) <= calls.len(),
    decreases calls.len() - i,
{
    if !(i < 0 || i >= calls.len()) && !(calls[i].index > index) {
        lemma_insert_position_bounds(calls, index, i + 1);
    }
}

fn call_position_exec(calls: &Vec<CallPieces>, index: usize) -> (r: Option<usize>)
    ensures
        r matches Some(p) ==> call_position(calls_view(calls@), index, 0) == Some(p as int),
        r is None ==> call_position(calls_view(calls@), index, 0) is None,
{
    let ghost cv = calls_view(calls@);
    let mut i: usize = 0;
    while i < calls.len()
        invariant
            i <= calls@.len(),
            cv == calls_view(calls@),
            call_position(cv, index, 0) == call_position(cv, index, i as int),
        decreases calls@.len() - i,
    {
        assert(cv[i as int].index == calls@[i as int].index);
        if calls[i].index == index {
            return Some(i);
        }
        i = i + 1;
    }
    None
}

fn insert_position_exec(calls: &Vec<CallPieces>, index: usize) -> (q: usize)
    ensures
        q == insert_position(calls_view(calls@), index, 0),
{
    let ghost cv = calls_view(calls@);
    let mut i: usize = 0;
    while i < calls.len()
        invariant
            i <= calls@.len(),
            cv == calls_view(calls@),
            insert_position(cv, index, 0) == insert_position(cv, index, i as int),
        decreases calls@.len() - i,
    {
        assert(cv[i as int].index == calls@[i as int].index);
        if calls[i].index > index {
            return i;
        }
        i = i + 1;
    }
    i
}

fn upsert_call_exec(calls: &mut Vec<CallPieces>, item: &JsonValue)
    ensures
        calls_view(final(calls)@) == upsert_call(calls_view(old(calls)@), *item),
{
    let ghost c0 = calls_view(calls@);
    let index: usize = match item.get("index") {
        Some(v) => match v.as_u64() {
            Some(n) => n as usize,
            None => 0,
        },
        None => 0,
    };
    assert(index == piece_index(*item));
    let ghost slot = with_slot(c0, index);
    let p = match call_position_exec(calls, index) {
        Some(p) => p,
        None => {
            let q = insert_position_exec(calls, index);
            proof {
                lemma_insert_position_bounds(c0, index, 0);
            }
            let fresh = CallPieces { index, id: Vec::new(), name: Vec::new(), args: Vec::new() };
            let ghost fv = fresh@;
            calls.insert(q, fresh);
            assert(calls_view(calls@) =~= c0.insert(q as int, fv));
            q
        },
    };
    proof {
        lemma_call_position_bounds(c0, index, 0);
        lemma_insert_position_bounds(c0, index, 0);
    }
    assert(calls_view(calls@) == slot.0 && p == slot.1);
    let ghost mid = calls_view(calls@);
    let mut c = calls.remove(p);
    assert(c@ == mid[p as int]);
    match str_of(item.get("id")) {
        Some(id) => {
            c.id = id;
        },
        None => {},
    }
    match item.get("function") {
        Some(f) => {
            match str_of(f.get("name")) {
                Some(n) => {
                    append_chars(&mut c.name, n.as_slice());
                },
                None => {},
            }
            match str_of(f.get("arguments")) {
                Some(a) => {
                    append_chars(&mut c.args, a.as_slice());
                },
                None => {},
            }
        },
        None => {},
    }
    assert(c@ == apply_piece(mid[p as int], *item));
    let ghost cv = c@;
    let ghost removed = calls@;
    calls.insert(p, c);
    assert(calls_view(calls@) =~= mid.update(p as int, cv));
}

fn flush_calls_exec(calls: &mut Vec<CallPieces>, out: &mut Vec<ProviderStreamEvent>)
    ensures
        final(calls)@.len() == 0,
        appended(old(out)@, final(out)@, flush_calls(calls_view(old(calls)@))),
{
    let ghost cv = calls_view(calls@);
    let ghost start = out@;
    let ghost all = flush_calls(cv);
    let mut i: usize = 0;
    proof {
        lemma_appended_none(start);
        assert(all.take(0) =~= Seq::<EventSpec>::empty());
    }
    while i < calls.len()
        invariant
            i <= calls@.len(),
            cv == calls_view(calls@),
            all == flush_calls(cv),
            appended(start, out@, all.take(i as int)),
        decreases calls@.len() - i,
    {
        let c = &calls[i];
        assert(c@ == cv[i as int]);
        let ev = ProviderStreamEvent::ToolCall {
            id: string_of(c.id.as_slice()),
            name: string_of(c.name.as_slice()),
            input: tool_input(c.args.as_slice()),
        };
        let ghost mid = out@;
        push_event(out, ev, Ghost(all[i as int]));
        proof {
            lemma_appended_trans(start, mid, out@, all.take(i as int), seq![all[i as int]]);
            assert(all.take(i as int) + seq![all[i as int]] =~= all.take(i + 1));
        }
        i = i + 1;
    }
    assert(all.take(i as int) =~= all);
    *calls = Vec::new();
}

fn finish_stop_exec(reason: &[char]) -> (r: StopReason)
    ensures
        r == finish_stop(reason@),
{
    let tc = chars_of("tool_calls");
    let len = chars_of("length");
    if crate::text::eq_chars(reason, tc.as_slice()) {
        StopReason::ToolUse
    } else if crate::text::eq_chars(reason, len.as_slice()) {
        StopReason::MaxTokens
    } else {
        StopReason::EndTurn
    }
}

impl OpenAiSse {
    /// A parser that has read nothing.
    pub fn new() -> (p: Self)
        ensures
            p@ == oa_initial(),
    {
        let p = OpenAiSse { buffer: Vec::new(), calls: Vec::new(), done_sent: false, finished: false };
        assert(calls_view(p.calls@) =~= Seq::<CallView>::empty());
        p
    }

    /// Whether the stream has ended (`[DONE]` was read).
    pub fn is_finished(&self) -> (b: bool)
        ensures
            b == self@.core.finished,
    {
        self.finished
    }

    fn delta_exec(&mut self, d: &JsonValue, out: &mut Vec<ProviderStreamEvent>)
        ensures
            final(self)@ == (OpenAiState {
                buffer: old(self)@.buffer,
                core: oa_delta(old(self)@.core, *d).0,
            }),
            appended(old(out)@, final(out)@, oa_delta(old(self)@.core, *d).1),
    {
        let ghost s0 = out@;
        let ghost th: Seq<EventSpec> = match spec_reasoning_delta(*d) {
            Some(t) => seq![EventSpec::Thinking(t)],
            None => Seq::empty(),
        };
        match extract_reasoning_delta(d) {
            Some(t) => {
                let ghost tv = t@;
                push_event(out, ProviderStreamEvent::ThinkingDelta(t), Ghost(EventSpec::Thinking(tv)));
            },
            None => {
                proof {
                    lemma_appended_none(s0);
                }
            },
        }
        let ghost s1 = out@;
        let ghost tx: Seq<EventSpec> = match opt_str(json_get(*d, "content"@)) {
            Some(t) => if t.len() > 0 {
                seq![EventSpec::Text(t)]
            } else {
                Seq::empty()
            },
            None => Seq::empty(),
        };
        let mut pushed = false;
        match str_of(d.get("content")) {
            Some(t) => {
                if t.len() > 0 {
                    let ghost tv = t@;
                    push_event(
                        out,
                        ProviderStreamEvent::TextDelta(string_of(t.as_slice())),
                        Ghost(EventSpec::Text(tv)),
                    );
                    pushed = true;
                }
            },
            None => {},
        }
        if !pushed {
            proof {
                lemma_appended_none(s1);
            }
        }
        proof {
            lemma_appended_trans(s0, s1, out@, th, tx);
        }
        match d.get("tool_calls") {
            Some(tc) => match tc.as_array() {
                Some(items) => {
                    let ghost c0 = calls_view(self.calls@);
                    let mut i: usize = 0;
                    assert(items@.skip(0) =~= items@);
                    while i < items.len()
                        invariant
                            i <= items@.len(),
                            upsert_calls(c0, items@) == upsert_calls(
                                calls_view(self.calls@),
                                items@.skip(i as int),
                            ),
                            self.buffer@ == old(self).buffer@,
                            self.done_sent == old(self).done_sent,
                            self.finished == old(self).finished,
                        decreases items@.len() - i,
                    {
                        assert(items@.skip(i as int).drop_first() =~= items@.skip(i + 1));
                        upsert_call_exec(&mut self.calls, &items[i]);
                        i = i + 1;
                    }
                    assert(items@.skip(i as int) =~= Seq::<JsonValue>::empty());
                },
                None => {},
            },
            None => {},
        }
    }

    /// Takes one payload of the stream, already parsed, as [`oa_value`]
    /// says: the events it gives, and the state after it.
    pub fn take_json(&mut self, val: &JsonValue) -> (out: Vec<ProviderStreamEvent>)
        ensures
            final(self)@ == (OpenAiState { buffer: old(self)@.buffer, core: oa_value(old(self)@.core, *val).0 }),
            events_meet(out@, oa_value(old(self)@.core, *val).1),
    {
        let mut out: Vec<ProviderStreamEvent> = Vec::new();
        self.value_exec(val, &mut out);
        proof {
            lemma_appended_from_empty(out@, oa_value(old(self)@.core, *val).1);
        }
        out
    }

    fn value_exec(&mut self, val: &JsonValue, out: &mut Vec<ProviderStreamEvent>)
        ensures
            final(self)@ == (OpenAiState {
                buffer: old(self)@.buffer,
                core: oa_value(old(self)@.core, *val).0,
            }),
            appended(old(out)@, final(out)@, oa_value(old(self)@.core, *val).1),
    {
        let ghost s0 = out@;
        match val.get("usage") {
            Some(u) => {
                let a = count_or_zero_exec(u.get("prompt_tokens"));
                let b = count_or_zero_exec(u.get("completion_tokens"));
                push_event(
                    out,
                    ProviderStreamEvent::Usage { input_tokens: a, output_tokens: b },
                    Ghost(EventSpec::Usage(a, b)),
                );
            },
            None => {
                proof {
                    lemma_appended_none(s0);
                }
            },
        }
        let ghost s1 = out@;
        let choice = match val.get("choices") {
            Some(cs) => cs.get_index(0),
            None => None,
        };
        match choice {
            None => {
                proof {
                    lemma_appended_none(s1);
                    lemma_appended_trans(s0, s1, out@, oa_value(old(self)@.core, *val).1, Seq::empty());
                    assert(oa_value(old(self)@.core, *val).1 + Seq::<EventSpec>::empty() =~= oa_value(old(self)@.core, *val).1);
                }
            },
            Some(ch) => {
                let ghost c0 = self@.core;
                match ch.get("delta") {
                    Some(d) => {
                        self.delta_exec(d, out);
                    },
                    None => {
                        proof {
                            lemma_appended_none(s1);
                        }
                    },
                }
                let ghost e1: Seq<EventSpec> = match json_get(*ch, "delta"@) {
                    Some(d) => oa_delta(c0, d).1,
                    None => Seq::empty(),
                };
                proof {
                    lemma_appended_trans(s0, s1, out@, oa_value(c0, *val).1.take(s1.len() - s0.len()), e1);
                }
                let ghost s2 = out@;
                match str_of(ch.get("finish_reason")) {
                    Some(fr) => {
                        let stop = finish_stop_exec(fr.as_slice());
                        let ghost calls1 = calls_view(self.calls@);
                        flush_calls_exec(&mut self.calls, out);
                        self.done_sent = true;
                        let ghost s3 = out@;
                        push_event(out, ProviderStreamEvent::Done { stop_reason: stop }, Ghost(EventSpec::Done(stop)));
                        proof {
                            lemma_appended_trans(s2, s3, out@, flush_calls(calls1), seq![EventSpec::Done(stop)]);
                            lemma_appended_trans(s0, s2, out@, oa_value(c0, *val).1.take(s2.len() - s0.len()), flush_calls(calls1) + seq![EventSpec::Done(stop)]);
                            assert(calls_view(self.calls@) =~= Seq::<CallView>::empty());
                        }
                    },
                    None => {},
                }
            },
        }
    }
    fn line_exec(&mut self, line: &[char], out: &mut Vec<ProviderStreamEvent>)
        ensures
            final(self)@ == (OpenAiState {
                buffer: old(self)@.buffer,
                core: oa_line(old(self)@.core, line@).0,
            }),
            appended(old(out)@, final(out)@, oa_line(old(self)@.core, line@).1),
    {
        let ghost s0 = out@;
        let t = trim_vec(line);
        match data_of_exec(t.as_slice()) {
            None => {
                proof {
                    lemma_appended_none(s0);
                }
            },
            Some(data) => {
                let done = chars_of("[DONE]");
                if crate::text::eq_chars(data.as_slice(), done.as_slice()) {
                    if self.done_sent {
                        self.finished = true;
                        proof {
                            lemma_appended_none(s0);
                        }
                    } else {
                        let had = self.calls.len() > 0;
                        let ghost calls0 = calls_view(self.calls@);
                        flush_calls_exec(&mut self.calls, out);
                        let stop = if had {
                            StopReason::ToolUse
                        } else {
                            StopReason::EndTurn
                        };
                        let ghost s1 = out@;
                        push_event(out, ProviderStreamEvent::Done { stop_reason: stop }, Ghost(EventSpec::Done(stop)));
                        self.finished = true;
                        proof {
                            lemma_appended_trans(s0, s1, out@, flush_calls(calls0), seq![EventSpec::Done(stop)]);
                            assert(calls_view(self.calls@) =~= Seq::<CallView>::empty());
                        }
                    }
                } else {
                    let text = string_of(data.as_slice());
                    match parse_json(text.as_str()) {
                        Ok(val) => {
                            self.value_exec(&val, out);
                        },
                        Err(_) => {
                            proof {
                                lemma_appended_none(s0);
                            }
                        },
                    }
                }
            },
        }
    }

    fn frame_exec(&mut self, block: &[char], out: &mut Vec<ProviderStreamEvent>)
        ensures
            final(self)@ == (OpenAiState {
                buffer: old(self)@.buffer,
                core: oa_lines(old(self)@.core, text_lines(block@)).0,
            }),
            appended(old(out)@, final(out)@, oa_lines(old(self)@.core, text_lines(block@)).1),
    {
        let lines = text_lines_exec(block);
        let ghost lv = lines_view(lines@);
        let ghost c0 = self@.core;
        let ghost s0 = out@;
        let ghost mut acc: Seq<EventSpec> = Seq::empty();
        let mut i: usize = 0;
        proof {
            lemma_appended_none(s0);
            assert(lv.skip(0) =~= lv);
        }
        while i < lines.len() && !self.finished
            invariant
                i <= lines@.len(),
                lv == lines_view(lines@),
                self@.buffer == old(self)@.buffer,
                oa_lines(c0, lv) == (
                    oa_lines(self@.core, lv.skip(i as int)).0,
                    acc + oa_lines(self@.core, lv.skip(i as int)).1,
                ),
                appended(s0, out@, acc),
            decreases lines@.len() - i,
        {
            let ghost cur = self@.core;
            let ghost mid = out@;
            assert(lv.skip(i as int)[0] == lines@[i as int]@);
            assert(lv.skip(i as int).drop_first() =~= lv.skip(i + 1));
            self.line_exec(lines[i].as_slice(), out);
            proof {
                let e1 = oa_line(cur, lv[i as int]).1;
                lemma_appended_trans(s0, mid, out@, acc, e1);
                assert(acc + oa_lines(cur, lv.skip(i as int)).1 =~= (acc + e1) + oa_lines(
                    self@.core,
                    lv.skip(i + 1),
                ).1);
                acc = acc + e1;
            }
            i = i + 1;
        }
        proof {
            if i == lines.len() {
                assert(lv.skip(i as int) =~= Seq::<Seq<char>>::empty());
            }
            assert(acc + Seq::<EventSpec>::empty() =~= acc);
        }
    }

    /// Reads one chunk of the stream and returns the events it completes.
    pub fn feed(&mut self, chunk: &[u8]) -> (out: Vec<ProviderStreamEvent>)
        ensures
            final(self)@ == oa_feed(old(self)@, chunk@).0,
            events_meet(out@, oa_feed(old(self)@, chunk@).1),
    {
        let mut out: Vec<ProviderStreamEvent> = Vec::new();
        if self.finished {
            return out;
        }
        let text = lossy_text(chunk);
        let mut buf: Vec<char> = Vec::new();
        std::mem::swap(&mut buf, &mut self.buffer);
        let tv = chars_of(text.as_str());
        append_chars(&mut buf, tv.as_slice());
        let ghost b0 = buf@;
        let ghost all = frames(b0);
        let ghost c0 = self@.core;
        let ghost mut rem: Seq<Seq<char>> = all.0;
        let ghost mut acc: Seq<EventSpec> = Seq::empty();
        let sep = chars_of("\n\n");
        proof {
            reveal_strlit("\n\n");
            assert(sep@ =~= block_end());
            lemma_appended_none(out@);
        }
        loop
            invariant
                sep@ == block_end(),
                frames(buf@) == (rem, all.1),
                oa_frames(c0, all.0) == (
                    oa_frames(self@.core, rem).0,
                    acc + oa_frames(self@.core, rem).1,
                ),
                appended(Seq::empty(), out@, acc),
                !self@.core.finished,
                all == frames(b0),
                b0 == old(self)@.buffer + utf8_lossy(chunk@),
                !old(self)@.core.finished,
                c0 == old(self)@.core,
            ensures
                rem.len() == 0,
                buf@ == all.1,
                oa_frames(c0, all.0) == (
                    oa_frames(self@.core, rem).0,
                    acc + oa_frames(self@.core, rem).1,
                ),
                appended(Seq::empty(), out@, acc),
                !self@.core.finished,
            decreases buf@.len(),
        {
            match find_from_exec(buf.as_slice(), sep.as_slice(), 0) {
                None => {
                    assert(frames(buf@) == (Seq::<Seq<char>>::empty(), buf@));
                    break ;
                },
                Some(p) => {
                    proof {
                        lemma_find_from_bounds(buf@, block_end(), 0);
                    }
                    let n = buf.len();
                    assert(p + 2 <= n);
                    let block = vstd::slice::slice_to_vec(&buf[0..p]);
                    let next = vstd::slice::slice_to_vec(&buf[p + 2..n]);
                    proof {
                        assert(block@ =~= buf@.take(p as int));
                        assert(next@ =~= buf@.skip(p + 2));
                    }
                    let ghost cur = self@.core;
                    let ghost mid = out@;
                    self.frame_exec(block.as_slice(), &mut out);
                    proof {
                        let e1 = oa_lines(cur, text_lines(block@)).1;
                        lemma_appended_trans(Seq::empty(), mid, out@, acc, e1);
                        assert(rem.drop_first() =~= frames(next@).0);
                        assert(rem[0] == block@);
                        assert(acc + oa_frames(cur, rem).1 =~= (acc + e1) + oa_frames(
                            self@.core,
                            rem.drop_first(),
                        ).1);
                        acc = acc + e1;
                        rem = rem.drop_first();
                    }
                    buf = next;
                    if self.finished {
                        self.buffer = Vec::new();
                        proof {
                            assert(acc + Seq::<EventSpec>::empty() =~= acc);
                            assert(out@.skip(0) =~= out@);
                            assert(self@.buffer =~= Seq::<char>::empty());
                        }
                        return out;
                    }
                },
            }
        }
        self.buffer = buf;
        proof {
            assert(acc + Seq::<EventSpec>::empty() =~= acc);
            assert(out@.skip(0) =~= out@);
        }
        out
    }
}

/// Runs a completion stream parser over a whole stream, as [`oa_stream`] says.
pub fn parse_openai_sse(items: &Vec<Result<Vec<u8>, String>>) -> (r: Vec<ProviderStreamEvent>)
    ensures
        events_meet(r@, oa_stream(oa_initial(), chunks_view(items@))),
{
    let ghost iv = chunks_view(items@);
    let mut parser = OpenAiSse::new();
    let mut out: Vec<ProviderStreamEvent> = Vec::new();
    let ghost mut acc: Seq<EventSpec> = Seq::empty();
    let mut i: usize = 0;
    proof {
        lemma_appended_none(out@);
        assert(iv.skip(0) =~= iv);
    }
    while i < items.len()
        invariant
            i <= items@.len(),
            iv == chunks_view(items@),
            !parser@.core.finished,
            oa_stream(oa_initial(), iv) == acc + oa_stream(parser@, iv.skip(i as int)),
            appended(Seq::empty(), out@, acc),
        decreases items@.len() - i,
    {
        assert(iv.skip(i as int)[0] == iv[i as int]);
        assert(iv.skip(i as int).drop_first() =~= iv.skip(i + 1));
        let ghost mid = out@;
        let ghost st = parser@;
        match &items[i] {
            Err(e) => {
                let ghost ev = e@;
                push_event(&mut out, ProviderStreamEvent::Error(e.clone()), Ghost(EventSpec::Error(ev)));
                proof {
                    lemma_appended_trans(Seq::empty(), mid, out@, acc, seq![EventSpec::Error(ev)]);
                    assert(out@.skip(0) =~= out@);
                }
                return out;
            },
            Ok(c) => {
                let mut evs = parser.feed(c.as_slice());
                let ghost e1 = oa_feed(st, c@).1;
                out.append(&mut evs);
                assert(appended(mid, out@, e1)) by {
                    assert(out@.take(mid.len() as int) =~= mid);
                    assert(out@.skip(mid.len() as int).len() == e1.len());
                    assert forall|k: int| 0 <= k < e1.len() implies event_meets(
                        #[trigger] out@.skip(mid.len() as int)[k],
                        e1[k],
                    ) by {
                        assert(out@.skip(mid.len() as int)[k] == out@[mid.len() + k]);
                    }
                }
                proof {
                    lemma_appended_trans(Seq::empty(), mid, out@, acc, e1);
                    acc = acc + e1;
                }
                if parser.is_finished() {
                    proof {
                        assert(out@.skip(0) =~= out@);
                    }
                    return out;
                }
            },
        }
        i = i + 1;
    }
    proof {
        assert(iv.skip(i as int) =~= Seq::<Result<Seq<u8>, Seq<char>>>::empty());
        assert(acc + Seq::<EventSpec>::empty() =~= acc);
        assert(out@.skip(0) =~= out@);
    }
    out
}

// ---------------------------------------------------------------------------
// OpenAI Responses
// ---------------------------------------------------------------------------

/// What a Responses stream has told so far.
pub struct ResponsesSse {
    buffer: Vec<char>,
    call: Option<(Vec<char>, Vec<char>, Vec<char>)>,
    saw_done: bool,
}

pub struct ResponsesCore {
    /// The function call being streamed: its id, name and argument text.
    pub call: Option<(Seq<char>, Seq<char>, Seq<char>)>,
    /// Whether `response.completed` was read.
    pub saw_done: bool,
}

pub struct ResponsesState {
    pub buffer: Seq<char>,
    pub core: ResponsesCore,
}

pub open spec fn call3_view(c: Option<(Vec<char>, Vec<char>, Vec<char>)>) -> Option<(Seq<char>, Seq<char>, Seq<char>)> {
    match c {
        Some(t) => Some((t.0@, t.1@, t.2@)),
        None => None,
    }
}

impl View for ResponsesSse {
    type V = ResponsesState;

    closed spec fn view(&self) -> ResponsesState {
        ResponsesState {
            buffer: self.buffer@,
            core: ResponsesCore { call: call3_view(self.call), saw_done: self.saw_done },
        }
    }
}

pub open spec fn rs_initial() -> ResponsesState {
    ResponsesState { buffer: Seq::empty(), core: ResponsesCore { call: None, saw_done: false } }
}

pub open spec fn or_empty(o: Option<Seq<char>>) -> Seq<char> {
    match o {
        Some(s) => s,
        None => Seq::empty(),
    }
}

/// A string at a path of keys, or the empty text.
pub open spec fn str_at(v: JsonValue, keys: Seq<Seq<char>>) -> Seq<char> {
    match crate::json::json_path(v, keys) {
        Some(x) => or_empty(json_str(x)),
        None => Seq::empty(),
    }
}

/// One parsed Responses event, chosen by its `type`.
pub open spec fn rs_value(c: ResponsesCore, val: JsonValue) -> (ResponsesCore, Seq<EventSpec>) {
    let ty = or_empty(opt_str(json_get(val, "type"@)));
    let delta = opt_str(json_get(val, "delta"@));
    if ty == "response.output_text.delta"@ {
        (c, match delta { Some(d) => seq![EventSpec::Text(d)], None => Seq::empty() })
    } else if ty == "response.reasoning_summary_text.delta"@ || ty == "response.reasoning_text.delta"@ {
        (c, match delta { Some(d) => seq![EventSpec::Thinking(d)], None => Seq::empty() })
    } else if ty == "response.output_item.added"@ {
        if opt_str(opt_get(json_get(val, "item"@), "type"@)) == Some("function_call"@) {
            (
                ResponsesCore {
                    call: Some(
                        (
                            str_at(val, seq!["item"@, "call_id"@]),
                            str_at(val, seq!["item"@, "name"@]),
                            Seq::empty(),
                        ),
                    ),
                    ..c
                },
                Seq::empty(),
            )
        } else {
            (c, Seq::empty())
        }
    } else if ty == "response.function_call_arguments.delta"@ {
        match (c.call, delta) {
            (Some((id, name, args)), Some(d)) => (
                ResponsesCore { call: Some((id, name, args + d)), ..c },
                Seq::empty(),
            ),
            _ => (c, Seq::empty()),
        }
    } else if ty == "response.function_call_arguments.done"@ {
        match c.call {
            Some((id, name, args)) => {
                let final_args = match opt_str(json_get(val, "arguments"@)) {
                    Some(a) => a,
                    None => args,
                };
                (
                    ResponsesCore { call: None, ..c },
                    seq![EventSpec::ToolCall(id, name, ToolInput::Text(final_args))],
                )
            },
            None => (c, Seq::empty()),
        }
    } else if ty == "response.completed"@ {
        let usage = match crate::json::json_path(val, seq!["response"@, "usage"@]) {
            Some(u) => seq![
                EventSpec::Usage(
                    count_or_zero(json_get(u, "input_tokens"@)),
                    count_or_zero(json_get(u, "output_tokens"@)),
                ),
            ],
            None => Seq::empty(),
        };
        let stop = match opt_str(
            crate::json::json_path(val, seq!["response"@, "incomplete_details"@, "reason"@]),
        ) {
            Some(r) => if r == "max_output_tokens"@ {
                StopReason::MaxTokens
            } else {
                StopReason::EndTurn
            },
            None => StopReason::EndTurn,
        };
        (ResponsesCore { saw_done: true, ..c }, usage.push(EventSpec::Done(stop)))
    } else if ty == "response.failed"@ || ty == "error"@ {
        let m = match crate::json::json_path(val, seq!["response"@, "error"@, "message"@]) {
            Some(x) => Some(x),
            None => json_get(val, "message"@),
        };
        (
            c,
            seq![
                EventSpec::Error(
                    match opt_str(m) {
                        Some(t) => t,
                        None => "unknown Responses API error"@,
                    },
                ),
            ],
        )
    } else {
        (c, Seq::empty())
    }
}

pub open spec fn rs_line(c: ResponsesCore, line: Seq<char>) -> (ResponsesCore, Seq<EventSpec>) {
    match data_of(trim(line)) {
        None => (c, Seq::empty()),
        Some(data) => match json_parse(data) {
            Ok(val) => rs_value(c, val),
            Err(_) => (c, Seq::empty()),
        },
    }
}

pub open spec fn rs_lines(c: ResponsesCore, lines: Seq<Seq<char>>) -> (ResponsesCore, Seq<EventSpec>)
    decreases lines.len(),
{
    if lines.len() == 0 {
        (c, Seq::empty())
    } else {
        let (c1, e1) = rs_line(c, lines[0]);
        let (c2, e2) = rs_lines(c1, lines.drop_first());
        (c2, e1 + e2)
    }
}

pub open spec fn rs_frames(c: ResponsesCore, fs: Seq<Seq<char>>) -> (ResponsesCore, Seq<EventSpec>)
    decreases fs.len(),
{
    if fs.len() == 0 {
        (c, Seq::empty())
    } else {
        let (c1, e1) = rs_lines(c, text_lines(fs[0]));
        let (c2, e2) = rs_frames(c1, fs.drop_first());
        (c2, e1 + e2)
    }
}

/// One chunk of a Responses stream.
pub open spec fn rs_feed(st: ResponsesState, chunk: Seq<u8>) -> (ResponsesState, Seq<EventSpec>) {
    let (fs, rest) = frames(st.buffer + utf8_lossy(chunk));
    let (c, evs) = rs_frames(st.core, fs);
    (ResponsesState { buffer: rest, core: c }, evs)
}

/// The end of a Responses stream: a stream cut off before `response.completed`
/// still ends the turn.
pub open spec fn rs_finish(st: ResponsesState) -> Seq<EventSpec> {
    if st.core.saw_done {
        Seq::empty()
    } else {
        seq![EventSpec::Done(StopReason::EndTurn)]
    }
}

pub open spec fn rs_stream(st: ResponsesState, items: Seq<Result<Seq<u8>, Seq<char>>>) -> Seq<EventSpec>
    decreases items.len(),
{
    if items.len() == 0 {
        rs_finish(st)
    } else {
        match items[0] {
            Err(e) => seq![EventSpec::Error(e)],
            Ok(c) => {
                let (s1, e1) = rs_feed(st, c);
                e1 + rs_stream(s1, items.drop_first())
            },
        }
    }
}

fn path_str(val: &JsonValue, keys: &[&str]) -> (r: Vec<char>)
    ensures
        r@ == str_at(*val, crate::json::keys_view(keys@)),
{
    match val.path(keys) {
        Some(x) => match x.as_str() {
            Some(s) => chars_of(s),
            None => Vec::new(),
        },
        None => Vec::new(),
    }
}

impl ResponsesSse {
    /// A parser that has read nothing.
    pub fn new() -> (p: Self)
        ensures
            p@ == rs_initial(),
    {
        ResponsesSse { buffer: Vec::new(), call: None, saw_done: false }
    }

    /// Takes one payload of the stream, already parsed, as [`rs_value`]
    /// says: the events it gives, and the state after it.
    pub fn take_json(&mut self, val: &JsonValue) -> (out: Vec<ProviderStreamEvent>)
        ensures
            final(self)@ == (ResponsesState { buffer: old(self)@.buffer, core: rs_value(old(self)@.core, *val).0 }),
            events_meet(out@, rs_value(old(self)@.core, *val).1),
    {
        let mut out: Vec<ProviderStreamEvent> = Vec::new();
        self.value_exec(val, &mut out);
        proof {
            lemma_appended_from_empty(out@, rs_value(old(self)@.core, *val).1);
        }
        out
    }

    fn value_exec(&mut self, val: &JsonValue, out: &mut Vec<ProviderStreamEvent>)
        ensures
            final(self)@ == (ResponsesState {
                buffer: old(self)@.buffer,
                core: rs_value(old(self)@.core, *val).0,
            }),
            appended(old(out)@, final(out)@, rs_value(old(self)@.core, *val).1),
    {
        let ghost s0 = out@;
        proof {
            lemma_appended_none(s0);
        }
        let ty = match str_of(val.get("type")) {
            Some(t) => t,
            None => Vec::new(),
        };
        let delta = str_of(val.get("delta"));
        if is_text(ty.as_slice(), "response.output_text.delta") {
            match delta {
                Some(d) => {
                    let ghost dv = d@;
                    push_event(out, ProviderStreamEvent::TextDelta(string_of(d.as_slice())), Ghost(EventSpec::Text(dv)));
                },
                None => {},
            }
        } else if is_text(ty.as_slice(), "response.reasoning_summary_text.delta") || is_text(
            ty.as_slice(),
            "response.reasoning_text.delta",
        ) {
            match delta {
                Some(d) => {
                    let ghost dv = d@;
                    push_event(out, ProviderStreamEvent::ThinkingDelta(string_of(d.as_slice())), Ghost(EventSpec::Thinking(dv)));
                },
                None => {},
            }
        } else if is_text(ty.as_slice(), "response.output_item.added") {
            let is_call = match val.get("item") {
                Some(item) => match str_of(item.get("type")) {
                    Some(t) => is_text(t.as_slice(), "function_call"),
                    None => false,
                },
                None => false,
            };
            if is_call {
                let id = path_str(val, &["item", "call_id"]);
                let name = path_str(val, &["item", "name"]);
                proof {
                    assert(crate::json::keys_view(seq!["item", "call_id"]) =~= seq!["item"@, "call_id"@]);
                    assert(crate::json::keys_view(seq!["item", "name"]) =~= seq!["item"@, "name"@]);
                }
                self.call = Some((id, name, Vec::new()));
            }
        } else if is_text(ty.as_slice(), "response.function_call_arguments.delta") {
            match delta {
                Some(d) => match self.call.take() {
                    Some((id, name, args)) => {
                        let mut args = args;
                        append_chars(&mut args, d.as_slice());
                        self.call = Some((id, name, args));
                    },
                    None => {},
                },
                None => {},
            }
        } else if is_text(ty.as_slice(), "response.function_call_arguments.done") {
            match self.call.take() {
                Some((id, name, args)) => {
                    let final_args = match str_of(val.get("arguments")) {
                        Some(a) => a,
                        None => args,
                    };
                    let ghost ev = EventSpec::ToolCall(id@, name@, ToolInput::Text(final_args@));
                    let input = tool_input(final_args.as_slice());
                    push_event(
                        out,
                        ProviderStreamEvent::ToolCall {
                            id: string_of(id.as_slice()),
                            name: string_of(name.as_slice()),
                            input,
                        },
                        Ghost(ev),
                    );
                },
                None => {},
            }
        } else if is_text(ty.as_slice(), "response.completed") {
            self.saw_done = true;
            proof {
                assert(crate::json::keys_view(seq!["response", "usage"]) =~= seq!["response"@, "usage"@]);
                assert(crate::json::keys_view(seq!["response", "incomplete_details", "reason"])
                    =~= seq!["response"@, "incomplete_details"@, "reason"@]);
            }
            match val.path(&["response", "usage"]) {
                Some(u) => {
                    let a = count_or_zero_exec(u.get("input_tokens"));
                    let b = count_or_zero_exec(u.get("output_tokens"));
                    push_event(
                        out,
                        ProviderStreamEvent::Usage { input_tokens: a, output_tokens: b },
                        Ghost(EventSpec::Usage(a, b)),
                    );
                },
                None => {},
            }
            let ghost s1 = out@;
            let stop = match str_of(val.path(&["response", "incomplete_details", "reason"])) {
                Some(r) => if is_text(r.as_slice(), "max_output_tokens") {
                    StopReason::MaxTokens
                } else {
                    StopReason::EndTurn
                },
                None => StopReason::EndTurn,
            };
            push_event(out, ProviderStreamEvent::Done { stop_reason: stop }, Ghost(EventSpec::Done(stop)));
            proof {
                let usage = rs_value(old(self)@.core, *val).1.drop_last();
                lemma_appended_trans(s0, s1, out@, usage, seq![EventSpec::Done(stop)]);
                assert(usage + seq![EventSpec::Done(stop)] =~= rs_value(old(self)@.core, *val).1);
            }
        } else if is_text(ty.as_slice(), "response.failed") || is_text(ty.as_slice(), "error") {
            proof {
                assert(crate::json::keys_view(seq!["response", "error", "message"]) =~= seq![
                    "response"@,
                    "error"@,
                    "message"@,
                ]);
            }
            let m = match val.path(&["response", "error", "message"]) {
                Some(x) => Some(x),
                None => val.get("message"),
            };
            let msg = match str_of(m) {
                Some(t) => t,
                None => chars_of("unknown Responses API error"),
            };
            let ghost mv = msg@;
            push_event(out, ProviderStreamEvent::Error(string_of(msg.as_slice())), Ghost(EventSpec::Error(mv)));
        }
    }
    fn line_exec(&mut self, line: &[char], out: &mut Vec<ProviderStreamEvent>)
        ensures
            final(self)@ == (ResponsesState {
                buffer: old(self)@.buffer,
                core: rs_line(old(self)@.core, line@).0,
            }),
            appended(old(out)@, final(out)@, rs_line(old(self)@.core, line@).1),
    {
        let ghost s0 = out@;
        proof {
            lemma_appended_none(s0);
        }
        let t = trim_vec(line);
        match data_of_exec(t.as_slice()) {
            None => {},
            Some(data) => {
                let text = string_of(data.as_slice());
                match parse_json(text.as_str()) {
                    Ok(val) => {
                        self.value_exec(&val, out);
                    },
                    Err(_) => {},
                }
            },
        }
    }

    fn frame_exec(&mut self, block: &[char], out: &mut Vec<ProviderStreamEvent>)
        ensures
            final(self)@ == (ResponsesState {
                buffer: old(self)@.buffer,
                core: rs_lines(old(self)@.core, text_lines(block@)).0,
            }),
            appended(old(out)@, final(out)@, rs_lines(old(self)@.core, text_lines(block@)).1),
    {
        let lines = text_lines_exec(block);
        let ghost lv = lines_view(lines@);
        let ghost c0 = self@.core;
        let ghost s0 = out@;
        let ghost mut acc: Seq<EventSpec> = Seq::empty();
        let mut i: usize = 0;
        proof {
            lemma_appended_none(s0);
            assert(lv.skip(0) =~= lv);
        }
        while i < lines.len()
            invariant
                i <= lines@.len(),
                lv == lines_view(lines@),
                self@.buffer == old(self)@.buffer,
                rs_lines(c0, lv) == (
                    rs_lines(self@.core, lv.skip(i as int)).0,
                    acc + rs_lines(self@.core, lv.skip(i as int)).1,
                ),
                appended(s0, out@, acc),
            decreases lines@.len() - i,
        {
            let ghost cur = self@.core;
            let ghost mid = out@;
            assert(lv.skip(i as int)[0] == lines@[i as int]@);
            assert(lv.skip(i as int).drop_first() =~= lv.skip(i + 1));
            self.line_exec(lines[i].as_slice(), out);
            proof {
                let e1 = rs_line(cur, lv[i as int]).1;
                lemma_appended_trans(s0, mid, out@, acc, e1);
                assert(acc + rs_lines(cur, lv.skip(i as int)).1 =~= (acc + e1) + rs_lines(
                    self@.core,
                    lv.skip(i + 1),
                ).1);
                acc = acc + e1;
            }
            i = i + 1;
        }
        proof {
            assert(lv.skip(i as int) =~= Seq::<Seq<char>>::empty());
            assert(acc + Seq::<EventSpec>::empty() =~= acc);
        }
    }

    /// Reads one chunk of the stream and returns the events it completes.
    pub fn feed(&mut self, chunk: &[u8]) -> (out: Vec<ProviderStreamEvent>)
        ensures
            final(self)@ == rs_feed(old(self)@, chunk@).0,
            events_meet(out@, rs_feed(old(self)@, chunk@).1),
    {
        let mut out: Vec<ProviderStreamEvent> = Vec::new();
        let text = lossy_text(chunk);
        let mut buf: Vec<char> = Vec::new();
        std::mem::swap(&mut buf, &mut self.buffer);
        let tv = chars_of(text.as_str());
        append_chars(&mut buf, tv.as_slice());
        let ghost b0 = buf@;
        let ghost all = frames(b0);
        let ghost c0 = self@.core;
        let ghost mut rem: Seq<Seq<char>> = all.0;
        let ghost mut acc: Seq<EventSpec> = Seq::empty();
        let sep = chars_of("\n\n");
        proof {
            reveal_strlit("\n\n");
            assert(sep@ =~= block_end());
            lemma_appended_none(out@);
        }
        loop
            invariant
                sep@ == block_end(),
                frames(buf@) == (rem, all.1),
                rs_frames(c0, all.0) == (
                    rs_frames(self@.core, rem).0,
                    acc + rs_frames(self@.core, rem).1,
                ),
                appended(Seq::empty(), out@, acc),
                all == frames(b0),
                b0 == old(self)@.buffer + utf8_lossy(chunk@),
                c0 == old(self)@.core,
            ensures
                rem.len() == 0,
                buf@ == all.1,
                rs_frames(c0, all.0) == (
                    rs_frames(self@.core, rem).0,
                    acc + rs_frames(self@.core, rem).1,
                ),
                appended(Seq::empty(), out@, acc),
            decreases buf@.len(),
        {
            match find_from_exec(buf.as_slice(), sep.as_slice(), 0) {
                None => {
                    assert(frames(buf@) == (Seq::<Seq<char>>::empty(), buf@));
                    break ;
                },
                Some(p) => {
                    proof {
                        lemma_find_from_bounds(buf@, block_end(), 0);
                    }
                    let n = buf.len();
                    assert(p + 2 <= n);
                    let block = vstd::slice::slice_to_vec(&buf[0..p]);
                    let next = vstd::slice::slice_to_vec(&buf[p + 2..n]);
                    proof {
                        assert(block@ =~= buf@.take(p as int));
                        assert(next@ =~= buf@.skip(p + 2));
                    }
                    let ghost cur = self@.core;
                    let ghost mid = out@;
                    self.frame_exec(block.as_slice(), &mut out);
                    proof {
                        let e1 = rs_lines(cur, text_lines(block@)).1;
                        lemma_appended_trans(Seq::empty(), mid, out@, acc, e1);
                        assert(rem.drop_first() =~= frames(next@).0);
                        assert(rem[0] == block@);
                        assert(acc + rs_frames(cur, rem).1 =~= (acc + e1) + rs_frames(
                            self@.core,
                            rem.drop_first(),
                        ).1);
                        acc = acc + e1;
                        rem = rem.drop_first();
                    }
                    buf = next;
                },
            }
        }
        self.buffer = buf;
        proof {
            assert(acc + Seq::<EventSpec>::empty() =~= acc);
            assert(out@.skip(0) =~= out@);
        }
        out
    }

    /// The events owed when the stream ends.
    pub fn finish(&self) -> (out: Vec<ProviderStreamEvent>)
        ensures
            events_meet(out@, rs_finish(self@)),
    {
        let mut out: Vec<ProviderStreamEvent> = Vec::new();
        if !self.saw_done {
            out.push(ProviderStreamEvent::Done { stop_reason: StopReason::EndTurn });
        }
        out
    }
}

/// Runs a Responses stream parser over a whole stream, as [`rs_stream`] says.
pub fn parse_responses_sse(items: &Vec<Result<Vec<u8>, String>>) -> (r: Vec<ProviderStreamEvent>)
    ensures
        events_meet(r@, rs_stream(rs_initial(), chunks_view(items@))),
{
    let ghost iv = chunks_view(items@);
    let mut parser = ResponsesSse::new();
    let mut out: Vec<ProviderStreamEvent> = Vec::new();
    let ghost mut acc: Seq<EventSpec> = Seq::empty();
    let mut i: usize = 0;
    proof {
        lemma_appended_none(out@);
        assert(iv.skip(0) =~= iv);
    }
    while i < items.len()
        invariant
            i <= items@.len(),
            iv == chunks_view(items@),
            rs_stream(rs_initial(), iv) == acc + rs_stream(parser@, iv.skip(i as int)),
            appended(Seq::empty(), out@, acc),
        decreases items@.len() - i,
    {
        assert(iv.skip(i as int)[0] == iv[i as int]);
        assert(iv.skip(i as int).drop_first() =~= iv.skip(i + 1));
        let ghost mid = out@;
        let ghost st = parser@;
        match &items[i] {
            Err(e) => {
                let ghost ev = e@;
                push_event(&mut out, ProviderStreamEvent::Error(e.clone()), Ghost(EventSpec::Error(ev)));
                proof {
                    lemma_appended_trans(Seq::empty(), mid, out@, acc, seq![EventSpec::Error(ev)]);
                    assert(out@.skip(0) =~= out@);
                }
                return out;
            },
            Ok(c) => {
                let evs = parser.feed(c.as_slice());
                let ghost e1 = rs_feed(st, c@).1;
                append_events(&mut out, evs, Ghost(e1));
                proof {
                    lemma_appended_trans(Seq::empty(), mid, out@, acc, e1);
                    assert(acc + rs_stream(st, iv.skip(i as int)) =~= (acc + e1) + rs_stream(
                        parser@,
                        iv.skip(i + 1),
                    ));
                    acc = acc + e1;
                }
            },
        }
        i = i + 1;
    }
    let ghost mid = out@;
    let tail = parser.finish();
    append_events(&mut out, tail, Ghost(rs_finish(parser@)));
    proof {
        assert(iv.skip(i as int) =~= Seq::<Result<Seq<u8>, Seq<char>>>::empty());
        lemma_appended_trans(Seq::empty(), mid, out@, acc, rs_finish(parser@));
        assert(out@.skip(0) =~= out@);
    }
    out
}

// ---------------------------------------------------------------------------
// Anthropic messages
// ---------------------------------------------------------------------------

/// What an Anthropic stream has told so far.
pub struct AnthropicSse {
    buffer: Vec<char>,
    tool_id: Vec<char>,
    tool_name: Vec<char>,
    tool_args: Vec<char>,
    stop: StopReason,
}

pub struct AnthropicCore {
    /// The tool-use block being streamed (an empty id when there is none).
    pub tool_id: Seq<char>,
    pub tool_name: Seq<char>,
    pub tool_args: Seq<char>,
    /// The stop reason that `message_stop` will report.
    pub stop: StopReason,
}

pub struct AnthropicState {
    pub buffer: Seq<char>,
    pub core: AnthropicCore,
}

impl View for AnthropicSse {
    type V = AnthropicState;

    closed spec fn view(&self) -> AnthropicState {
        AnthropicState {
            buffer: self.buffer@,
            core: AnthropicCore {
                tool_id: self.tool_id@,
                tool_name: self.tool_name@,
                tool_args: self.tool_args@,
                stop: self.stop,
            },
        }
    }
}

pub open spec fn an_initial() -> AnthropicState {
    AnthropicState {
        buffer: Seq::empty(),
        core: AnthropicCore {
            tool_id: Seq::empty(),
            tool_name: Seq::empty(),
            tool_args: Seq::empty(),
            stop: StopReason::EndTurn,
        },
    }
}

/// The `event:` and `data:` values of a block's lines (the last of each wins).
pub open spec fn scan_block(lines: Seq<Seq<char>>) -> (Seq<char>, Seq<char>)
    decreases lines.len(),
{
    if lines.len() == 0 {
        (Seq::empty(), Seq::empty())
    } else {
        let (e, d) = scan_block(lines.drop_last());
        let l = lines.last();
        match strip_prefix(l, "event:"@) {
            Some(x) => (trim(x), d),
            None => match strip_prefix(l, "data:"@) {
                Some(x) => (e, trim(x)),
                None => (e, d),
            },
        }
    }
}

pub open spec fn message_stop_reason(sr: Seq<char>) -> StopReason {
    if sr == "tool_use"@ {
        StopReason::ToolUse
    } else if sr == "max_tokens"@ {
        StopReason::MaxTokens
    } else {
        StopReason::EndTurn
    }
}

/// One Anthropic event of the given type with its parsed data.
pub open spec fn an_value(c: AnthropicCore, ty: Seq<char>, val: JsonValue) -> (AnthropicCore, Seq<EventSpec>) {
    if ty == "message_start"@ {
        (
            c,
            match opt_get(json_get(val, "message"@), "usage"@) {
                Some(u) => seq![EventSpec::Usage(count_or_zero(json_get(u, "input_tokens"@)), 0)],
                None => Seq::empty(),
            },
        )
    } else if ty == "content_block_start"@ {
        match json_get(val, "content_block"@) {
            Some(cb) => if or_empty(opt_str(json_get(cb, "type"@))) == "tool_use"@ {
                (
                    AnthropicCore {
                        tool_id: or_empty(opt_str(json_get(cb, "id"@))),
                        tool_name: or_empty(opt_str(json_get(cb, "name"@))),
                        tool_args: Seq::empty(),
                        ..c
                    },
                    Seq::empty(),
                )
            } else {
                (c, Seq::empty())
            },
            None => (c, Seq::empty()),
        }
    } else if ty == "content_block_delta"@ {
        match json_get(val, "delta"@) {
            Some(d) => {
                let dt = or_empty(opt_str(json_get(d, "type"@)));
                if dt == "text_delta"@ {
                    (
                        c,
                        match opt_str(json_get(d, "text"@)) {
                            Some(t) => seq![EventSpec::Text(t)],
                            None => Seq::empty(),
                        },
                    )
                } else if dt == "thinking_delta"@ {
                    (
                        c,
                        match opt_str(json_get(d, "thinking"@)) {
                            Some(t) => seq![EventSpec::Thinking(t)],
                            None => Seq::empty(),
                        },
                    )
                } else if dt == "input_json_delta"@ {
                    match opt_str(json_get(d, "partial_json"@)) {
                        Some(p) => (AnthropicCore { tool_args: c.tool_args + p, ..c }, Seq::empty()),
                        None => (c, Seq::empty()),
                    }
                } else {
                    (c, Seq::empty())
                }
            },
            None => (c, Seq::empty()),
        }
    } else if ty == "content_block_stop"@ {
        if c.tool_id.len() > 0 {
            (
                AnthropicCore {
                    tool_id: Seq::empty(),
                    tool_name: Seq::empty(),
                    tool_args: Seq::empty(),
                    ..c
                },
                seq![EventSpec::ToolCall(c.tool_id, c.tool_name, ToolInput::Text(c.tool_args))],
            )
        } else {
            (c, Seq::empty())
        }
    } else if ty == "message_delta"@ {
        let c1 = match opt_str(crate::json::json_path(val, seq!["delta"@, "stop_reason"@])) {
            Some(sr) => AnthropicCore { stop: message_stop_reason(sr), ..c },
            None => c,
        };
        (
            c1,
            match json_get(val, "usage"@) {
                Some(u) => seq![EventSpec::Usage(0, count_or_zero(json_get(u, "output_tokens"@)))],
                None => Seq::empty(),
            },
        )
    } else if ty == "message_stop"@ {
        (c, seq![EventSpec::Done(c.stop)])
    } else {
        (c, Seq::empty())
    }
}

/// Only a `message_delta` changes the stop reason an Anthropic stream will
/// end with.
pub proof fn lemma_anthropic_stop_kept(c: AnthropicCore, ty: Seq<char>, val: JsonValue)
    requires
        ty != "message_delta"@,
    ensures
        an_value(c, ty, val).0.stop == c.stop,
{
}

/// A `message_delta` without a stop reason keeps the one the stream had.
pub proof fn lemma_anthropic_delta_without_reason(c: AnthropicCore, delta: JsonValue)
    requires
        opt_str(crate::json::json_path(delta, seq!["delta"@, "stop_reason"@])) is None,
    ensures
        an_value(c, "message_delta"@, delta).0.stop == c.stop,
{
    reveal_strlit("message_delta");
    reveal_strlit("message_start");
    reveal_strlit("content_block_start");
    reveal_strlit("content_block_delta");
    reveal_strlit("content_block_stop");
    assert("message_delta"@ != "message_start"@) by {
        assert("message_delta"@[8] != "message_start"@[8]);
    }
    assert("message_delta"@ != "content_block_start"@) by {
        assert("message_delta"@[0] != "content_block_start"@[0]);
    }
    assert("message_delta"@ != "content_block_delta"@) by {
        assert("message_delta"@[0] != "content_block_delta"@[0]);
    }
    assert("message_delta"@ != "content_block_stop"@) by {
        assert("message_delta"@[0] != "content_block_stop"@[0]);
    }
}

/// An Anthropic `message_delta` whose `delta.stop_reason` is `sr` makes the
/// closing `message_stop` end the stream with: `ToolUse` for `tool_use`,
/// `MaxTokens` for `max_tokens` (an answer cut by the output limit), and
/// `EndTurn` for anything else; the `message_stop` gives that `Done` and
/// nothing more.
pub proof fn lemma_anthropic_stop_reason(c: AnthropicCore, delta: JsonValue, stop: JsonValue, sr: Seq<char>)
    requires
        opt_str(crate::json::json_path(delta, seq!["delta"@, "stop_reason"@])) == Some(sr),
    ensures
        an_value(an_value(c, "message_delta"@, delta).0, "message_stop"@, stop).1 == seq![
            EventSpec::Done(
                if sr == "tool_use"@ {
                    StopReason::ToolUse
                } else if sr == "max_tokens"@ {
                    StopReason::MaxTokens
                } else {
                    StopReason::EndTurn
                },
            ),
        ],
{
    reveal_strlit("message_delta");
    reveal_strlit("message_stop");
    reveal_strlit("message_start");
    reveal_strlit("content_block_start");
    reveal_strlit("content_block_delta");
    reveal_strlit("content_block_stop");
    reveal_strlit("tool_use");
    reveal_strlit("max_tokens");
    assert("message_delta"@ != "message_start"@) by {
        assert("message_delta"@[8] != "message_start"@[8]);
    }
    assert("message_delta"@ != "content_block_start"@) by {
        assert("message_delta"@[0] != "content_block_start"@[0]);
    }
    assert("message_delta"@ != "content_block_delta"@) by {
        assert("message_delta"@[0] != "content_block_delta"@[0]);
    }
    assert("message_delta"@ != "content_block_stop"@) by {
        assert("message_delta"@[0] != "content_block_stop"@[0]);
    }
    assert("message_stop"@ != "message_start"@) by {
        assert("message_stop"@[10] != "message_start"@[10]);
    }
    assert("message_stop"@ != "content_block_start"@) by {
        assert("message_stop"@[0] != "content_block_start"@[0]);
    }
    assert("message_stop"@ != "content_block_delta"@) by {
        assert("message_stop"@[0] != "content_block_delta"@[0]);
    }
    assert("message_stop"@ != "content_block_stop"@) by {
        assert("message_stop"@[0] != "content_block_stop"@[0]);
    }
    assert("message_stop"@ != "message_delta"@) by {
        assert("message_stop"@[8] != "message_delta"@[8]);
    }
    let c1 = an_value(c, "message_delta"@, delta).0;
    assert(c1.stop == message_stop_reason(sr));
}

/// One Anthropic event block; one without data, or with data that is not
/// JSON, is skipped.
pub open spec fn an_frame(c: AnthropicCore, block: Seq<char>) -> (AnthropicCore, Seq<EventSpec>) {
    let (ty, data) = scan_block(text_lines(block));
    if data.len() == 0 {
        (c, Seq::empty())
    } else {
        match json_parse(data) {
            Ok(val) => an_value(c, ty, val),
            Err(_) => (c, Seq::empty()),
        }
    }
}

pub open spec fn an_frames(c: AnthropicCore, fs: Seq<Seq<char>>) -> (AnthropicCore, Seq<EventSpec>)
    decreases fs.len(),
{
    if fs.len() == 0 {
        (c, Seq::empty())
    } else {
        let (c1, e1) = an_frame(c, fs[0]);
        let (c2, e2) = an_frames(c1, fs.drop_first());
        (c2, e1 + e2)
    }
}

/// One chunk of an Anthropic stream.
pub open spec fn an_feed(st: AnthropicState, chunk: Seq<u8>) -> (AnthropicState, Seq<EventSpec>) {
    let (fs, rest) = frames(st.buffer + utf8_lossy(chunk));
    let (c, evs) = an_frames(st.core, fs);
    (AnthropicState { buffer: rest, core: c }, evs)
}

pub open spec fn an_stream(st: AnthropicState, items: Seq<Result<Seq<u8>, Seq<char>>>) -> Seq<EventSpec>
    decreases items.len(),
{
    if items.len() == 0 {
        Seq::empty()
    } else {
        match items[0] {
            Err(e) => seq![EventSpec::Error(e)],
            Ok(c) => {
                let (s1, e1) = an_feed(st, c);
                e1 + an_stream(s1, items.drop_first())
            },
        }
    }
}

fn or_empty_exec(o: Option<Vec<char>>) -> (r: Vec<char>)
    ensures
        r@ == or_empty(match o {
            Some(v) => Some(v@),
            None => None,
        }),
{
    match o {
        Some(v) => v,
        None => Vec::new(),
    }
}

impl AnthropicSse {
    /// A parser that has read nothing.
    pub fn new() -> (p: Self)
        ensures
            p@ == an_initial(),
    {
        AnthropicSse {
            buffer: Vec::new(),
            tool_id: Vec::new(),
            tool_name: Vec::new(),
            tool_args: Vec::new(),
            stop: StopReason::EndTurn,
        }
    }

    /// Takes one payload of the stream, already parsed, with its event
    /// type, as [`an_value`] says: the events it gives, and the state after it.
    pub fn take_json(&mut self, event_type: &str, val: &JsonValue) -> (out: Vec<ProviderStreamEvent>)
        ensures
            final(self)@ == (AnthropicState {
                buffer: old(self)@.buffer,
                core: an_value(old(self)@.core, event_type@, *val).0,
            }),
            events_meet(out@, an_value(old(self)@.core, event_type@, *val).1),
    {
        let mut out: Vec<ProviderStreamEvent> = Vec::new();
        let ty = chars_of(event_type);
        self.value_exec(ty.as_slice(), val, &mut out);
        proof {
            lemma_appended_from_empty(out@, an_value(old(self)@.core, event_type@, *val).1);
        }
        out
    }

    fn value_exec(&mut self, ty: &[char], val: &JsonValue, out: &mut Vec<ProviderStreamEvent>)
        ensures
            final(self)@ == (AnthropicState {
                buffer: old(self)@.buffer,
                core: an_value(old(self)@.core, ty@, *val).0,
            }),
            appended(old(out)@, final(out)@, an_value(old(self)@.core, ty@, *val).1),
    {
        let ghost s0 = out@;
        proof {
            lemma_appended_none(s0);
        }
        if is_text(ty, "message_start") {
            let usage = match val.get("message") {
                Some(m) => m.get("usage"),
                None => None,
            };
            match usage {
                Some(u) => {
                    let a = count_or_zero_exec(u.get("input_tokens"));
                    push_event(out, ProviderStreamEvent::Usage { input_tokens: a, output_tokens: 0 }, Ghost(EventSpec::Usage(a, 0)));
                },
                None => {},
            }
        } else if is_text(ty, "content_block_start") {
            match val.get("content_block") {
                Some(cb) => {
                    let kind = or_empty_exec(str_of(cb.get("type")));
                    if is_text(kind.as_slice(), "tool_use") {
                        self.tool_id = or_empty_exec(str_of(cb.get("id")));
                        self.tool_name = or_empty_exec(str_of(cb.get("name")));
                        self.tool_args = Vec::new();
                    }
                },
                None => {},
            }
        } else if is_text(ty, "content_block_delta") {
            match val.get("delta") {
                Some(d) => {
                    let dt = or_empty_exec(str_of(d.get("type")));
                    if is_text(dt.as_slice(), "text_delta") {
                        match str_of(d.get("text")) {
                            Some(t) => {
                                let ghost tv = t@;
                                push_event(out, ProviderStreamEvent::TextDelta(string_of(t.as_slice())), Ghost(EventSpec::Text(tv)));
                            },
                            None => {},
                        }
                    } else if is_text(dt.as_slice(), "thinking_delta") {
                        match str_of(d.get("thinking")) {
                            Some(t) => {
                                let ghost tv = t@;
                                push_event(out, ProviderStreamEvent::ThinkingDelta(string_of(t.as_slice())), Ghost(EventSpec::Thinking(tv)));
                            },
                            None => {},
                        }
                    } else if is_text(dt.as_slice(), "input_json_delta") {
                        match str_of(d.get("partial_json")) {
                            Some(p) => {
                                append_chars(&mut self.tool_args, p.as_slice());
                            },
                            None => {},
                        }
                    }
                },
                None => {},
            }
        } else if is_text(ty, "content_block_stop") {
            if self.tool_id.len() > 0 {
                let ghost ev = EventSpec::ToolCall(self.tool_id@, self.tool_name@, ToolInput::Text(self.tool_args@));
                let input = tool_input(self.tool_args.as_slice());
                let e = ProviderStreamEvent::ToolCall {
                    id: string_of(self.tool_id.as_slice()),
                    name: string_of(self.tool_name.as_slice()),
                    input,
                };
                push_event(out, e, Ghost(ev));
                self.tool_id = Vec::new();
                self.tool_name = Vec::new();
                self.tool_args = Vec::new();
            }
        } else if is_text(ty, "message_delta") {
            proof {
                assert(crate::json::keys_view(seq!["delta", "stop_reason"]) =~= seq!["delta"@, "stop_reason"@]);
            }
            match str_of(val.path(&["delta", "stop_reason"])) {
                Some(sr) => {
                    self.stop = if is_text(sr.as_slice(), "tool_use") {
                        StopReason::ToolUse
                    } else if is_text(sr.as_slice(), "max_tokens") {
                        StopReason::MaxTokens
                    } else {
                        StopReason::EndTurn
                    };
                },
                None => {},
            }
            match val.get("usage") {
                Some(u) => {
                    let b = count_or_zero_exec(u.get("output_tokens"));
                    push_event(out, ProviderStreamEvent::Usage { input_tokens: 0, output_tokens: b }, Ghost(EventSpec::Usage(0, b)));
                },
                None => {},
            }
        } else if is_text(ty, "message_stop") {
            push_event(out, ProviderStreamEvent::Done { stop_reason: self.stop }, Ghost(EventSpec::Done(self.stop)));
        }
    }

    fn frame_exec(&mut self, block: &[char], out: &mut Vec<ProviderStreamEvent>)
        ensures
            final(self)@ == (AnthropicState {
                buffer: old(self)@.buffer,
                core: an_frame(old(self)@.core, block@).0,
            }),
            appended(old(out)@, final(out)@, an_frame(old(self)@.core, block@).1),
    {
        let ghost s0 = out@;
        proof {
            lemma_appended_none(s0);
        }
        let lines = text_lines_exec(block);
        let ghost lv = lines_view(lines@);
        let ev_prefix = chars_of("event:");
        let data_prefix = chars_of("data:");
        let mut ty: Vec<char> = Vec::new();
        let mut data: Vec<char> = Vec::new();
        let mut i: usize = 0;
        assert(lv.take(0) =~= Seq::<Seq<char>>::empty());
        while i < lines.len()
            invariant
                i <= lines@.len(),
                lv == lines_view(lines@),
                ev_prefix@ == "event:"@,
                data_prefix@ == "data:"@,
                (ty@, data@) == scan_block(lv.take(i as int)),
            decreases lines@.len() - i,
        {
            assert(lv.take(i + 1).drop_last() =~= lv.take(i as int));
            assert(lv.take(i + 1).last() == lines@[i as int]@);
            let l = lines[i].as_slice();
            match strip_prefix_exec(l, ev_prefix.as_slice()) {
                Some(x) => {
                    ty = trim_vec(x.as_slice());
                },
                None => match strip_prefix_exec(l, data_prefix.as_slice()) {
                    Some(x) => {
                        data = trim_vec(x.as_slice());
                    },
                    None => {},
                },
            }
            i = i + 1;
        }
        assert(lv.take(i as int) =~= lv);
        if data.len() == 0 {
            return;
        }
        let text = string_of(data.as_slice());
        match parse_json(text.as_str()) {
            Ok(val) => {
                self.value_exec(ty.as_slice(), &val, out);
            },
            Err(_) => {},
        }
    }

    /// Reads one chunk of the stream and returns the events it completes.
    pub fn feed(&mut self, chunk: &[u8]) -> (out: Vec<ProviderStreamEvent>)
        ensures
            final(self)@ == an_feed(old(self)@, chunk@).0,
            events_meet(out@, an_feed(old(self)@, chunk@).1),
    {
        let mut out: Vec<ProviderStreamEvent> = Vec::new();
        let text = lossy_text(chunk);
        let mut buf: Vec<char> = Vec::new();
        std::mem::swap(&mut buf, &mut self.buffer);
        let tv = chars_of(text.as_str());
        append_chars(&mut buf, tv.as_slice());
        let ghost b0 = buf@;
        let ghost all = frames(b0);
        let ghost c0 = self@.core;
        let ghost mut rem: Seq<Seq<char>> = all.0;
        let ghost mut acc: Seq<EventSpec> = Seq::empty();
        let sep = chars_of("\n\n");
        proof {
            reveal_strlit("\n\n");
            assert(sep@ =~= block_end());
            lemma_appended_none(out@);
        }
        loop
            invariant
                sep@ == block_end(),
                frames(buf@) == (rem, all.1),
                an_frames(c0, all.0) == (
                    an_frames(self@.core, rem).0,
                    acc + an_frames(self@.core, rem).1,
                ),
                appended(Seq::empty(), out@, acc),
                all == frames(b0),
                b0 == old(self)@.buffer + utf8_lossy(chunk@),
                c0 == old(self)@.core,
            ensures
                rem.len() == 0,
                buf@ == all.1,
                an_frames(c0, all.0) == (
                    an_frames(self@.core, rem).0,
                    acc + an_frames(self@.core, rem).1,
                ),
                appended(Seq::empty(), out@, acc),
            decreases buf@.len(),
        {
            match find_from_exec(buf.as_slice(), sep.as_slice(), 0) {
                None => {
                    assert(frames(buf@) == (Seq::<Seq<char>>::empty(), buf@));
                    break ;
                },
                Some(p) => {
                    proof {
                        lemma_find_from_bounds(buf@, block_end(), 0);
                    }
                    let n = buf.len();
                    assert(p + 2 <= n);
                    let block = vstd::slice::slice_to_vec(&buf[0..p]);
                    let next = vstd::slice::slice_to_vec(&buf[p + 2..n]);
                    proof {
                        assert(block@ =~= buf@.take(p as int));
                        assert(next@ =~= buf@.skip(p + 2));
                    }
                    let ghost cur = self@.core;
                    let ghost mid = out@;
                    self.frame_exec(block.as_slice(), &mut out);
                    proof {
                        let e1 = an_frame(cur, block@).1;
                        lemma_appended_trans(Seq::empty(), mid, out@, acc, e1);
                        assert(rem.drop_first() =~= frames(next@).0);
                        assert(rem[0] == block@);
                        assert(acc + an_frames(cur, rem).1 =~= (acc + e1) + an_frames(
                            self@.core,
                            rem.drop_first(),
                        ).1);
                        acc = acc + e1;
                        rem = rem.drop_first();
                    }
                    buf = next;
                },
            }
        }
        self.buffer = buf;
        proof {
            assert(acc + Seq::<EventSpec>::empty() =~= acc);
            assert(out@.skip(0) =~= out@);
        }
        out
    }
}

/// Runs an Anthropic stream parser over a whole stream, as [`an_stream`] says.
pub fn parse_anthropic_sse(items: &Vec<Result<Vec<u8>, String>>) -> (r: Vec<ProviderStreamEvent>)
    ensures
        events_meet(r@, an_stream(an_initial(), chunks_view(items@))),
{
    let ghost iv = chunks_view(items@);
    let mut parser = AnthropicSse::new();
    let mut out: Vec<ProviderStreamEvent> = Vec::new();
    let ghost mut acc: Seq<EventSpec> = Seq::empty();
    let mut i: usize = 0;
    proof {
        lemma_appended_none(out@);
        assert(iv.skip(0) =~= iv);
    }
    while i < items.len()
        invariant
            i <= items@.len(),
            iv == chunks_view(items@),
            an_stream(an_initial(), iv) == acc + an_stream(parser@, iv.skip(i as int)),
            appended(Seq::empty(), out@, acc),
        decreases items@.len() - i,
    {
        assert(iv.skip(i as int)[0] == iv[i as int]);
        assert(iv.skip(i as int).drop_first() =~= iv.skip(i + 1));
        let ghost mid = out@;
        let ghost st = parser@;
        match &items[i] {
            Err(e) => {
                let ghost ev = e@;
                push_event(&mut out, ProviderStreamEvent::Error(e.clone()), Ghost(EventSpec::Error(ev)));
                proof {
                    lemma_appended_trans(Seq::empty(), mid, out@, acc, seq![EventSpec::Error(ev)]);
                    assert(out@.skip(0) =~= out@);
                }
                return out;
            },
            Ok(c) => {
                let evs = parser.feed(c.as_slice());
                let ghost e1 = an_feed(st, c@).1;
                append_events(&mut out, evs, Ghost(e1));
                proof {
                    lemma_appended_trans(Seq::empty(), mid, out@, acc, e1);
                    assert(acc + an_stream(st, iv.skip(i as int)) =~= (acc + e1) + an_stream(
                        parser@,
                        iv.skip(i + 1),
                    ));
                    acc = acc + e1;
                }
            },
        }
        i = i + 1;
    }
    proof {
        assert(iv.skip(i as int) =~= Seq::<Result<Seq<u8>, Seq<char>>>::empty());
        assert(acc + Seq::<EventSpec>::empty() =~= acc);
        assert(out@.skip(0) =~= out@);
    }
    out
}

// ---------------------------------------------------------------------------
// Google Gemini
// ---------------------------------------------------------------------------

/// What a Gemini stream has told so far.
pub struct GeminiSse {
    buffer: Vec<char>,
    calls: usize,
}

pub struct GeminiState {
    pub buffer: Seq<char>,
    /// How many function calls were handed out (counting with wrap-around).
    pub calls: usize,
}

impl View for GeminiSse {
    type V = GeminiState;

    closed spec fn view(&self) -> GeminiState {
        GeminiState { buffer: self.buffer@, calls: self.calls }
    }
}

pub open spec fn gm_initial() -> GeminiState {
    GeminiState { buffer: Seq::empty(), calls: 0 }
}

/// The id given to the `n`-th function call: Gemini sends none.
pub open spec fn gm_call_id(n: usize) -> Seq<char> {
    "gemini_call_"@ + crate::text::dec(n as nat)
}

/// One part of a candidate: its text (when not empty), then its function call
/// (when it names a function).
pub open spec fn gm_part(n: usize, part: JsonValue) -> (usize, Seq<EventSpec>) {
    let t = match opt_str(json_get(part, "text"@)) {
        Some(t) => if t.len() > 0 {
            seq![EventSpec::Text(t)]
        } else {
            Seq::empty()
        },
        None => Seq::empty(),
    };
    match json_get(part, "functionCall"@) {
        None => (n, t),
        Some(call) => {
            let name = or_empty(opt_str(json_get(call, "name"@)));
            if name.len() == 0 {
                (n, t)
            } else {
                let n1 = n.wrapping_add(1);
                (
                    n1,
                    t.push(
                        EventSpec::ToolCall(
                            gm_call_id(n1),
                            name,
                            match json_get(call, "args"@) {
                                Some(a) => ToolInput::Value(a),
                                None => ToolInput::EmptyObject,
                            },
                        ),
                    ),
                )
            }
        },
    }
}

pub open spec fn gm_parts(n: usize, parts: Seq<JsonValue>) -> (usize, Seq<EventSpec>)
    decreases parts.len(),
{
    if parts.len() == 0 {
        (n, Seq::empty())
    } else {
        let (n1, e1) = gm_part(n, parts[0]);
        let (n2, e2) = gm_parts(n1, parts.drop_first());
        (n2, e1 + e2)
    }
}

pub open spec fn gm_cand(n: usize, cand: JsonValue) -> (usize, Seq<EventSpec>) {
    match opt_items(opt_get(json_get(cand, "content"@), "parts"@)) {
        Some(parts) => gm_parts(n, parts),
        None => (n, Seq::empty()),
    }
}

pub open spec fn gm_cands(n: usize, cands: Seq<JsonValue>) -> (usize, Seq<EventSpec>)
    decreases cands.len(),
{
    if cands.len() == 0 {
        (n, Seq::empty())
    } else {
        let (n1, e1) = gm_cand(n, cands[0]);
        let (n2, e2) = gm_cands(n1, cands.drop_first());
        (n2, e1 + e2)
    }
}

/// One parsed Gemini chunk: the candidates' parts, then the usage.
pub open spec fn gm_value(n: usize, val: JsonValue) -> (usize, Seq<EventSpec>) {
    let (n1, e1) = match opt_items(json_get(val, "candidates"@)) {
        Some(cs) => gm_cands(n, cs),
        None => (n, Seq::empty()),
    };
    let usage = match json_get(val, "usageMetadata"@) {
        Some(u) => seq![
            EventSpec::Usage(
                count_or_zero(json_get(u, "promptTokenCount"@)),
                count_or_zero(json_get(u, "candidatesTokenCount"@)),
            ),
        ],
        None => Seq::empty(),
    };
    (n1, e1 + usage)
}

pub open spec fn gm_line(n: usize, line: Seq<char>) -> (usize, Seq<EventSpec>) {
    match data_of(line) {
        None => (n, Seq::empty()),
        Some(data) => match json_parse(data) {
            Ok(val) => gm_value(n, val),
            Err(_) => (n, Seq::empty()),
        },
    }
}

pub open spec fn gm_lines(n: usize, lines: Seq<Seq<char>>) -> (usize, Seq<EventSpec>)
    decreases lines.len(),
{
    if lines.len() == 0 {
        (n, Seq::empty())
    } else {
        let (n1, e1) = gm_line(n, lines[0]);
        let (n2, e2) = gm_lines(n1, lines.drop_first());
        (n2, e1 + e2)
    }
}

pub open spec fn gm_frames(n: usize, fs: Seq<Seq<char>>) -> (usize, Seq<EventSpec>)
    decreases fs.len(),
{
    if fs.len() == 0 {
        (n, Seq::empty())
    } else {
        let (n1, e1) = gm_lines(n, text_lines(fs[0]));
        let (n2, e2) = gm_frames(n1, fs.drop_first());
        (n2, e1 + e2)
    }
}

/// One chunk of a Gemini stream.
pub open spec fn gm_feed(st: GeminiState, chunk: Seq<u8>) -> (GeminiState, Seq<EventSpec>) {
    let (fs, rest) = frames(st.buffer + utf8_lossy(chunk));
    let (n, evs) = gm_frames(st.calls, fs);
    (GeminiState { buffer: rest, calls: n }, evs)
}

/// The end of a Gemini stream: the turn ends, for tool use when a function
/// was called.
pub open spec fn gm_finish(st: GeminiState) -> Seq<EventSpec> {
    seq![
        EventSpec::Done(
            if st.calls > 0 {
                StopReason::ToolUse
            } else {
                StopReason::EndTurn
            },
        ),
    ]
}

pub open spec fn gm_stream(st: GeminiState, items: Seq<Result<Seq<u8>, Seq<char>>>) -> Seq<EventSpec>
    decreases items.len(),
{
    if items.len() == 0 {
        gm_finish(st)
    } else {
        match items[0] {
            Err(e) => seq![EventSpec::Error(e)],
            Ok(c) => {
                let (s1, e1) = gm_feed(st, c);
                e1 + gm_stream(s1, items.drop_first())
            },
        }
    }
}

impl GeminiSse {
    /// A parser that has read nothing.
    pub fn new() -> (p: Self)
        ensures
            p@ == gm_initial(),
    {
        GeminiSse { buffer: Vec::new(), calls: 0 }
    }

    fn part_exec(&mut self, part: JsonValue, out: &mut Vec<ProviderStreamEvent>)
        ensures
            final(self)@ == (GeminiState { buffer: old(self)@.buffer, calls: gm_part(old(self)@.calls, part).0 }),
            appended(old(out)@, final(out)@, gm_part(old(self)@.calls, part).1),
    {
        let ghost s0 = out@;
        let ghost pv = part;
        let mut pushed = false;
        match str_of(part.get("text")) {
            Some(t) => {
                if t.len() > 0 {
                    let ghost tv = t@;
                    push_event(out, ProviderStreamEvent::TextDelta(string_of(t.as_slice())), Ghost(EventSpec::Text(tv)));
                    pushed = true;
                }
            },
            None => {},
        }
        if !pushed {
            proof {
                lemma_appended_none(s0);
            }
        }
        let ghost s1 = out@;
        match part.take_field("functionCall") {
            None => {},
            Some(call) => {
                let ghost cv = call;
                let name = or_empty_exec(str_of(call.get("name")));
                if name.len() > 0 {
                    let n1 = self.calls.wrapping_add(1);
                    self.calls = n1;
                    let ghost input_spec = match json_get(cv, "args"@) {
                        Some(a) => ToolInput::Value(a),
                        None => ToolInput::EmptyObject,
                    };
                    let input = match call.take_field("args") {
                        Some(a) => a,
                        None => JsonValue::Object(Vec::new()),
                    };
                    let mut id = chars_of("gemini_call_");
                    let digits = crate::text::decimal(n1 as u128);
                    append_chars(&mut id, digits.as_slice());
                    let ghost ev = EventSpec::ToolCall(gm_call_id(n1), name@, input_spec);
                    push_event(
                        out,
                        ProviderStreamEvent::ToolCall {
                            id: string_of(id.as_slice()),
                            name: string_of(name.as_slice()),
                            input,
                        },
                        Ghost(ev),
                    );
                    proof {
                        lemma_appended_trans(s0, s1, out@, gm_part(old(self)@.calls, pv).1.drop_last(), seq![ev]);
                        assert(gm_part(old(self)@.calls, pv).1.drop_last() + seq![ev] =~= gm_part(old(self)@.calls, pv).1);
                    }
                }
            },
        }
    }

    fn parts_exec(&mut self, parts: Vec<JsonValue>, out: &mut Vec<ProviderStreamEvent>)
        ensures
            final(self)@ == (GeminiState { buffer: old(self)@.buffer, calls: gm_parts(old(self)@.calls, parts@).0 }),
            appended(old(out)@, final(out)@, gm_parts(old(self)@.calls, parts@).1),
    {
        let ghost all = parts@;
        let ghost n0 = self.calls;
        let ghost s0 = out@;
        let ghost mut acc: Seq<EventSpec> = Seq::empty();
        let ghost mut k: int = 0;
        let mut rest = parts;
        proof {
            lemma_appended_none(s0);
            assert(all.skip(0) =~= all);
        }
        while rest.len() > 0
            invariant
                0 <= k <= all.len(),
                rest@ == all.skip(k),
                self@.buffer == old(self)@.buffer,
                gm_parts(n0, all) == (
                    gm_parts(self.calls, all.skip(k)).0,
                    acc + gm_parts(self.calls, all.skip(k)).1,
                ),
                appended(s0, out@, acc),
                n0 == old(self)@.calls,
            decreases rest@.len(),
        {
            let ghost cur = self.calls;
            let ghost mid = out@;
            let part = rest.remove(0);
            proof {
                assert(part == all[k]);
                assert(all.skip(k).drop_first() =~= all.skip(k + 1));
            }
            let ghost pv = part;
            self.part_exec(part, out);
            proof {
                let e1 = gm_part(cur, pv).1;
                lemma_appended_trans(s0, mid, out@, acc, e1);
                assert(acc + gm_parts(cur, all.skip(k)).1 =~= (acc + e1) + gm_parts(self.calls, all.skip(k + 1)).1);
                acc = acc + e1;
                k = k + 1;
                assert(rest@ =~= all.skip(k));
            }
        }
        proof {
            assert(all.skip(k) =~= Seq::<JsonValue>::empty());
            assert(acc + Seq::<EventSpec>::empty() =~= acc);
        }
    }

    fn cand_exec(&mut self, cand: JsonValue, out: &mut Vec<ProviderStreamEvent>)
        ensures
            final(self)@ == (GeminiState { buffer: old(self)@.buffer, calls: gm_cand(old(self)@.calls, cand).0 }),
            appended(old(out)@, final(out)@, gm_cand(old(self)@.calls, cand).1),
    {
        let ghost s0 = out@;
        proof {
            lemma_appended_none(s0);
        }
        match cand.take_field("content") {
            Some(content) => match content.take_field("parts") {
                Some(pv) => match pv.into_items() {
                    Some(parts) => {
                        self.parts_exec(parts, out);
                    },
                    None => {},
                },
                None => {},
            },
            None => {},
        }
    }

    /// Takes one payload of the stream, already parsed, as [`gm_value`]
    /// says: the events it gives, and the state after it.
    pub fn take_json(&mut self, val: JsonValue) -> (out: Vec<ProviderStreamEvent>)
        ensures
            final(self)@ == (GeminiState { buffer: old(self)@.buffer, calls: gm_value(old(self)@.calls, val).0 }),
            events_meet(out@, gm_value(old(self)@.calls, val).1),
    {
        let mut out: Vec<ProviderStreamEvent> = Vec::new();
        let ghost v = val;
        let ghost c0 = self@.calls;
        self.value_exec(val, &mut out);
        proof {
            lemma_appended_from_empty(out@, gm_value(c0, v).1);
        }
        out
    }

    fn value_exec(&mut self, val: JsonValue, out: &mut Vec<ProviderStreamEvent>)
        ensures
            final(self)@ == (GeminiState { buffer: old(self)@.buffer, calls: gm_value(old(self)@.calls, val).0 }),
            appended(old(out)@, final(out)@, gm_value(old(self)@.calls, val).1),
    {
        let ghost s0 = out@;
        let ghost vv = val;
        let ghost n0 = self.calls;
        let usage = match val.get("usageMetadata") {
            Some(u) => Some((count_or_zero_exec(u.get("promptTokenCount")), count_or_zero_exec(u.get("candidatesTokenCount")))),
            None => None,
        };
        let ghost mut e1: Seq<EventSpec> = Seq::empty();
        proof {
            lemma_appended_none(s0);
        }
        match val.take_field("candidates") {
            Some(cv) => match cv.into_items() {
                Some(cands) => {
                    let ghost all = cands@;
                    let ghost mut k: int = 0;
                    let mut rest = cands;
                    proof {
                        assert(all.skip(0) =~= all);
                    }
                    while rest.len() > 0
                        invariant
                            0 <= k <= all.len(),
                            rest@ == all.skip(k),
                            self@.buffer == old(self)@.buffer,
                            gm_cands(n0, all) == (
                                gm_cands(self.calls, all.skip(k)).0,
                                e1 + gm_cands(self.calls, all.skip(k)).1,
                            ),
                            appended(s0, out@, e1),
                            n0 == old(self)@.calls,
                        decreases rest@.len(),
                    {
                        let ghost cur = self.calls;
                        let ghost mid = out@;
                        let cand = rest.remove(0);
                        proof {
                            assert(cand == all[k]);
                            assert(all.skip(k).drop_first() =~= all.skip(k + 1));
                        }
                        let ghost candv = cand;
                        self.cand_exec(cand, out);
                        proof {
                            let e = gm_cand(cur, candv).1;
                            lemma_appended_trans(s0, mid, out@, e1, e);
                            assert(e1 + gm_cands(cur, all.skip(k)).1 =~= (e1 + e) + gm_cands(self.calls, all.skip(k + 1)).1);
                            e1 = e1 + e;
                            k = k + 1;
                            assert(rest@ =~= all.skip(k));
                        }
                    }
                    proof {
                        assert(all.skip(k) =~= Seq::<JsonValue>::empty());
                        assert(e1 + Seq::<EventSpec>::empty() =~= e1);
                    }
                },
                None => {},
            },
            None => {},
        }
        let ghost s1 = out@;
        match usage {
            Some((a, b)) => {
                push_event(out, ProviderStreamEvent::Usage { input_tokens: a, output_tokens: b }, Ghost(EventSpec::Usage(a, b)));
            },
            None => {
                proof {
                    lemma_appended_none(s1);
                }
            },
        }
        proof {
            lemma_appended_trans(s0, s1, out@, e1, gm_value(n0, vv).1.skip(e1.len() as int));
            assert(e1 + gm_value(n0, vv).1.skip(e1.len() as int) =~= gm_value(n0, vv).1);
        }
    }
    fn line_exec(&mut self, line: &[char], out: &mut Vec<ProviderStreamEvent>)
        ensures
            final(self)@ == (GeminiState { buffer: old(self)@.buffer, calls: gm_line(old(self)@.calls, line@).0 }),
            appended(old(out)@, final(out)@, gm_line(old(self)@.calls, line@).1),
    {
        let ghost s0 = out@;
        proof {
            lemma_appended_none(s0);
        }
        match data_of_exec(line) {
            None => {},
            Some(data) => {
                let text = string_of(data.as_slice());
                match parse_json(text.as_str()) {
                    Ok(val) => {
                        self.value_exec(val, out);
                    },
                    Err(_) => {},
                }
            },
        }
    }

    fn frame_exec(&mut self, block: &[char], out: &mut Vec<ProviderStreamEvent>)
        ensures
            final(self)@ == (GeminiState {
                buffer: old(self)@.buffer,
                calls: gm_lines(old(self)@.calls, text_lines(block@)).0,
            }),
            appended(old(out)@, final(out)@, gm_lines(old(self)@.calls, text_lines(block@)).1),
    {
        let lines = text_lines_exec(block);
        let ghost lv = lines_view(lines@);
        let ghost n0 = self.calls;
        let ghost s0 = out@;
        let ghost mut acc: Seq<EventSpec> = Seq::empty();
        let mut i: usize = 0;
        proof {
            lemma_appended_none(s0);
            assert(lv.skip(0) =~= lv);
        }
        while i < lines.len()
            invariant
                i <= lines@.len(),
                lv == lines_view(lines@),
                self@.buffer == old(self)@.buffer,
                n0 == old(self)@.calls,
                gm_lines(n0, lv) == (
                    gm_lines(self.calls, lv.skip(i as int)).0,
                    acc + gm_lines(self.calls, lv.skip(i as int)).1,
                ),
                appended(s0, out@, acc),
            decreases lines@.len() - i,
        {
            let ghost cur = self.calls;
            let ghost mid = out@;
            assert(lv.skip(i as int)[0] == lines@[i as int]@);
            assert(lv.skip(i as int).drop_first() =~= lv.skip(i + 1));
            self.line_exec(lines[i].as_slice(), out);
            proof {
                let e1 = gm_line(cur, lv[i as int]).1;
                lemma_appended_trans(s0, mid, out@, acc, e1);
                assert(acc + gm_lines(cur, lv.skip(i as int)).1 =~= (acc + e1) + gm_lines(
                    self.calls,
                    lv.skip(i + 1),
                ).1);
                acc = acc + e1;
            }
            i = i + 1;
        }
        proof {
            assert(lv.skip(i as int) =~= Seq::<Seq<char>>::empty());
            assert(acc + Seq::<EventSpec>::empty() =~= acc);
        }
    }

    /// Reads one chunk of the stream and returns the events it completes.
    pub fn feed(&mut self, chunk: &[u8]) -> (out: Vec<ProviderStreamEvent>)
        ensures
            final(self)@ == gm_feed(old(self)@, chunk@).0,
            events_meet(out@, gm_feed(old(self)@, chunk@).1),
    {
        let mut out: Vec<ProviderStreamEvent> = Vec::new();
        let text = lossy_text(chunk);
        let mut buf: Vec<char> = Vec::new();
        std::mem::swap(&mut buf, &mut self.buffer);
        let tv = chars_of(text.as_str());
        append_chars(&mut buf, tv.as_slice());
        let ghost b0 = buf@;
        let ghost all = frames(b0);
        let ghost n0 = self.calls;
        let ghost mut rem: Seq<Seq<char>> = all.0;
        let ghost mut acc: Seq<EventSpec> = Seq::empty();
        let sep = chars_of("\n\n");
        proof {
            reveal_strlit("\n\n");
            assert(sep@ =~= block_end());
            lemma_appended_none(out@);
        }
        loop
            invariant
                sep@ == block_end(),
                frames(buf@) == (rem, all.1),
                gm_frames(n0, all.0) == (
                    gm_frames(self.calls, rem).0,
                    acc + gm_frames(self.calls, rem).1,
                ),
                appended(Seq::empty(), out@, acc),
                all == frames(b0),
                b0 == old(self)@.buffer + utf8_lossy(chunk@),
                n0 == old(self)@.calls,
            ensures
                rem.len() == 0,
                buf@ == all.1,
                gm_frames(n0, all.0) == (
                    gm_frames(self.calls, rem).0,
                    acc + gm_frames(self.calls, rem).1,
                ),
                appended(Seq::empty(), out@, acc),
            decreases buf@.len(),
        {
            match find_from_exec(buf.as_slice(), sep.as_slice(), 0) {
                None => {
                    assert(frames(buf@) == (Seq::<Seq<char>>::empty(), buf@));
                    break ;
                },
                Some(p) => {
                    proof {
                        lemma_find_from_bounds(buf@, block_end(), 0);
                    }
                    let n = buf.len();
                    assert(p + 2 <= n);
                    let block = vstd::slice::slice_to_vec(&buf[0..p]);
                    let next = vstd::slice::slice_to_vec(&buf[p + 2..n]);
                    proof {
                        assert(block@ =~= buf@.take(p as int));
                        assert(next@ =~= buf@.skip(p + 2));
                    }
                    let ghost cur = self.calls;
                    let ghost mid = out@;
                    self.frame_exec(block.as_slice(), &mut out);
                    proof {
                        let e1 = gm_lines(cur, text_lines(block@)).1;
                        lemma_appended_trans(Seq::empty(), mid, out@, acc, e1);
                        assert(rem.drop_first() =~= frames(next@).0);
                        assert(rem[0] == block@);
                        assert(acc + gm_frames(cur, rem).1 =~= (acc + e1) + gm_frames(
                            self.calls,
                            rem.drop_first(),
                        ).1);
                        acc = acc + e1;
                        rem = rem.drop_first();
                    }
                    buf = next;
                },
            }
        }
        self.buffer = buf;
        proof {
            assert(acc + Seq::<EventSpec>::empty() =~= acc);
            assert(out@.skip(0) =~= out@);
        }
        out
    }

    /// The events owed when the stream ends.
    pub fn finish(&self) -> (out: Vec<ProviderStreamEvent>)
        ensures
            events_meet(out@, gm_finish(self@)),
    {
        let stop = if self.calls > 0 {
            StopReason::ToolUse
        } else {
            StopReason::EndTurn
        };
        let mut out: Vec<ProviderStreamEvent> = Vec::new();
        out.push(ProviderStreamEvent::Done { stop_reason: stop });
        out
    }
}

/// Runs a Gemini stream parser over a whole stream, as [`gm_stream`] says.
pub fn parse_gemini_sse(items: &Vec<Result<Vec<u8>, String>>) -> (r: Vec<ProviderStreamEvent>)
    ensures
        events_meet(r@, gm_stream(gm_initial(), chunks_view(items@))),
{
    let ghost iv = chunks_view(items@);
    let mut parser = GeminiSse::new();
    let mut out: Vec<ProviderStreamEvent> = Vec::new();
    let ghost mut acc: Seq<EventSpec> = Seq::empty();
    let mut i: usize = 0;
    proof {
        lemma_appended_none(out@);
        assert(iv.skip(0) =~= iv);
    }
    while i < items.len()
        invariant
            i <= items@.len(),
            iv == chunks_view(items@),
            gm_stream(gm_initial(), iv) == acc + gm_stream(parser@, iv.skip(i as int)),
            appended(Seq::empty(), out@, acc),
        decreases items@.len() - i,
    {
        assert(iv.skip(i as int)[0] == iv[i as int]);
        assert(iv.skip(i as int).drop_first() =~= iv.skip(i + 1));
        let ghost mid = out@;
        let ghost st = parser@;
        match &items[i] {
            Err(e) => {
                let ghost ev = e@;
                push_event(&mut out, ProviderStreamEvent::Error(e.clone()), Ghost(EventSpec::Error(ev)));
                proof {
                    lemma_appended_trans(Seq::empty(), mid, out@, acc, seq![EventSpec::Error(ev)]);
                    assert(out@.skip(0) =~= out@);
                }
                return out;
            },
            Ok(c) => {
                let evs = parser.feed(c.as_slice());
                let ghost e1 = gm_feed(st, c@).1;
                append_events(&mut out, evs, Ghost(e1));
                proof {
                    lemma_appended_trans(Seq::empty(), mid, out@, acc, e1);
                    assert(acc + gm_stream(st, iv.skip(i as int)) =~= (acc + e1) + gm_stream(
                        parser@,
                        iv.skip(i + 1),
                    ));
                    acc = acc + e1;
                }
            },
        }
        i = i + 1;
    }
    let ghost mid = out@;
    let tail = parser.finish();
    append_events(&mut out, tail, Ghost(gm_finish(parser@)));
    proof {
        assert(iv.skip(i as int) =~= Seq::<Result<Seq<u8>, Seq<char>>>::empty());
        lemma_appended_trans(Seq::empty(), mid, out@, acc, gm_finish(parser@));
        assert(out@.skip(0) =~= out@);
    }
    out
}

// ---------------------------------------------------------------------------
// Laws
// ---------------------------------------------------------------------------

proof fn lemma_find_from_extend(b: Seq<char>, t: Seq<char>, s: Seq<char>, i: int)
    requires
        0 <= i,
        find_from(b, s, i) is Some,
    ensures
        find_from(b + t, s, i) == find_from(b, s, i),
    decreases b.len() + 1 - i,
{
    lemma_find_from_bounds(b, s, i);
    let bt = b + t;
    if crate::text::occurs_at(b, s, i) {
        assert(bt.subrange(i, i + s.len()) =~= b.subrange(i, i + s.len()));
    } else {
        assert(i + s.len() <= b.len());
        assert(bt.subrange(i, i + s.len()) =~= b.subrange(i, i + s.len()));
        lemma_find_from_extend(b, t, s, i + 1);
    }
}

/// Framing does not depend on where the text was cut: the blocks of `b + t`
/// are the blocks of `b`, then the blocks of what `b` left over followed by `t`.
pub proof fn lemma_frames_append(b: Seq<char>, t: Seq<char>)
    ensures
        frames(b + t) == (frames(b).0 + frames(frames(b).1 + t).0, frames(frames(b).1 + t).1),
    decreases b.len(),
{
    match find_from(b, block_end(), 0) {
        Some(p) => {
            lemma_find_from_bounds(b, block_end(), 0);
            lemma_find_from_extend(b, t, block_end(), 0);
            assert((b + t).take(p) =~= b.take(p));
            assert((b + t).skip(p + 2) =~= b.skip(p + 2) + t);
            lemma_frames_append(b.skip(p + 2), t);
            assert(frames(b).0 + frames(frames(b).1 + t).0 =~= seq![b.take(p)] + (frames(b.skip(p + 2)).0
                + frames(frames(b).1 + t).0));
        },
        None => {
            assert(Seq::<Seq<char>>::empty() + frames(b + t).0 =~= frames(b + t).0);
        },
    }
}

proof fn lemma_oa_frames_concat(c: OpenAiCore, f1: Seq<Seq<char>>, f2: Seq<Seq<char>>)
    ensures
        oa_frames(c, f1 + f2) == (
            oa_frames(oa_frames(c, f1).0, f2).0,
            oa_frames(c, f1).1 + oa_frames(oa_frames(c, f1).0, f2).1,
        ),
    decreases f1.len(),
{
    if f1.len() == 0 {
        assert(f1 + f2 =~= f2);
        assert(Seq::<EventSpec>::empty() + oa_frames(c, f2).1 =~= oa_frames(c, f2).1);
    } else if c.finished {
        assert(Seq::<EventSpec>::empty() + Seq::<EventSpec>::empty() =~= Seq::<EventSpec>::empty());
    } else {
        assert((f1 + f2)[0] == f1[0]);
        assert((f1 + f2).drop_first() =~= f1.drop_first() + f2);
        let c1 = oa_lines(c, text_lines(f1[0])).0;
        lemma_oa_frames_concat(c1, f1.drop_first(), f2);
        let e1 = oa_lines(c, text_lines(f1[0])).1;
        let r = oa_frames(c1, f1.drop_first());
        assert(e1 + (r.1 + oa_frames(r.0, f2).1) =~= (e1 + r.1) + oa_frames(r.0, f2).1);
    }
}

/// Reading a completion stream in two chunks gives what reading them as one
/// chunk gives, wherever the cut falls (as long as it does not split a
/// character's encoding).
pub proof fn lemma_oa_feed_split(st: OpenAiState, a: Seq<u8>, b: Seq<u8>)
    requires
        utf8_lossy(a + b) == utf8_lossy(a) + utf8_lossy(b),
    ensures
        oa_feed(oa_feed(st, a).0, b).0 == oa_feed(st, a + b).0,
        oa_feed(st, a).1 + oa_feed(oa_feed(st, a).0, b).1 == oa_feed(st, a + b).1,
{
    if !st.core.finished {
        let x = st.buffer + utf8_lossy(a);
        let y = utf8_lossy(b);
        assert(st.buffer + utf8_lossy(a + b) =~= x + y);
        lemma_frames_append(x, y);
        lemma_oa_frames_concat(st.core, frames(x).0, frames(frames(x).1 + y).0);
        let c1 = oa_frames(st.core, frames(x).0).0;
        if c1.finished {
            assert(oa_feed(st, a).1 + Seq::<EventSpec>::empty() =~= oa_feed(st, a).1);
        }
    } else {
        assert(Seq::<EventSpec>::empty() + Seq::<EventSpec>::empty() =~= Seq::<EventSpec>::empty());
    }
}

proof fn lemma_rs_frames_concat(c: ResponsesCore, f1: Seq<Seq<char>>, f2: Seq<Seq<char>>)
    ensures
        rs_frames(c, f1 + f2) == (
            rs_frames(rs_frames(c, f1).0, f2).0,
            rs_frames(c, f1).1 + rs_frames(rs_frames(c, f1).0, f2).1,
        ),
    decreases f1.len(),
{
    if f1.len() == 0 {
        assert(f1 + f2 =~= f2);
        assert(Seq::<EventSpec>::empty() + rs_frames(c, f2).1 =~= rs_frames(c, f2).1);
    } else {
        assert((f1 + f2)[0] == f1[0]);
        assert((f1 + f2).drop_first() =~= f1.drop_first() + f2);
        let c1 = rs_lines(c, text_lines(f1[0])).0;
        lemma_rs_frames_concat(c1, f1.drop_first(), f2);
        let e1 = rs_lines(c, text_lines(f1[0])).1;
        let r = rs_frames(c1, f1.drop_first());
        assert(e1 + (r.1 + rs_frames(r.0, f2).1) =~= (e1 + r.1) + rs_frames(r.0, f2).1);
    }
}

/// Reading a Responses stream in two chunks gives what reading them as one
/// chunk gives (for a cut that does not split a character's encoding).
pub proof fn lemma_rs_feed_split(st: ResponsesState, a: Seq<u8>, b: Seq<u8>)
    requires
        utf8_lossy(a + b) == utf8_lossy(a) + utf8_lossy(b),
    ensures
        rs_feed(rs_feed(st, a).0, b).0 == rs_feed(st, a + b).0,
        rs_feed(st, a).1 + rs_feed(rs_feed(st, a).0, b).1 == rs_feed(st, a + b).1,
{
    let x = st.buffer + utf8_lossy(a);
    let y = utf8_lossy(b);
    assert(st.buffer + utf8_lossy(a + b) =~= x + y);
    lemma_frames_append(x, y);
    lemma_rs_frames_concat(st.core, frames(x).0, frames(frames(x).1 + y).0);
}

proof fn lemma_an_frames_concat(c: AnthropicCore, f1: Seq<Seq<char>>, f2: Seq<Seq<char>>)
    ensures
        an_frames(c, f1 + f2) == (
            an_frames(an_frames(c, f1).0, f2).0,
            an_frames(c, f1).1 + an_frames(an_frames(c, f1).0, f2).1,
        ),
    decreases f1.len(),
{
    if f1.len() == 0 {
        assert(f1 + f2 =~= f2);
        assert(Seq::<EventSpec>::empty() + an_frames(c, f2).1 =~= an_frames(c, f2).1);
    } else {
        assert((f1 + f2)[0] == f1[0]);
        assert((f1 + f2).drop_first() =~= f1.drop_first() + f2);
        let c1 = an_frame(c, f1[0]).0;
        lemma_an_frames_concat(c1, f1.drop_first(), f2);
        let e1 = an_frame(c, f1[0]).1;
        let r = an_frames(c1, f1.drop_first());
        assert(e1 + (r.1 + an_frames(r.0, f2).1) =~= (e1 + r.1) + an_frames(r.0, f2).1);
    }
}

/// Reading an Anthropic stream in two chunks gives what reading them as one
/// chunk gives (for a cut that does not split a character's encoding).
pub proof fn lemma_an_feed_split(st: AnthropicState, a: Seq<u8>, b: Seq<u8>)
    requires
        utf8_lossy(a + b) == utf8_lossy(a) + utf8_lossy(b),
    ensures
        an_feed(an_feed(st, a).0, b).0 == an_feed(st, a + b).0,
        an_feed(st, a).1 + an_feed(an_feed(st, a).0, b).1 == an_feed(st, a + b).1,
{
    let x = st.buffer + utf8_lossy(a);
    let y = utf8_lossy(b);
    assert(st.buffer + utf8_lossy(a + b) =~= x + y);
    lemma_frames_append(x, y);
    lemma_an_frames_concat(st.core, frames(x).0, frames(frames(x).1 + y).0);
}

proof fn lemma_gm_frames_concat(n: usize, f1: Seq<Seq<char>>, f2: Seq<Seq<char>>)
    ensures
        gm_frames(n, f1 + f2) == (
            gm_frames(gm_frames(n, f1).0, f2).0,
            gm_frames(n, f1).1 + gm_frames(gm_frames(n, f1).0, f2).1,
        ),
    decreases f1.len(),
{
    if f1.len() == 0 {
        assert(f1 + f2 =~= f2);
        assert(Seq::<EventSpec>::empty() + gm_frames(n, f2).1 =~= gm_frames(n, f2).1);
    } else {
        assert((f1 + f2)[0] == f1[0]);
        assert((f1 + f2).drop_first() =~= f1.drop_first() + f2);
        let n1 = gm_lines(n, text_lines(f1[0])).0;
        lemma_gm_frames_concat(n1, f1.drop_first(), f2);
        let e1 = gm_lines(n, text_lines(f1[0])).1;
        let r = gm_frames(n1, f1.drop_first());
        assert(e1 + (r.1 + gm_frames(r.0, f2).1) =~= (e1 + r.1) + gm_frames(r.0, f2).1);
    }
}

/// Reading a Gemini stream in two chunks gives what reading them as one chunk
/// gives (for a cut that does not split a character's encoding).
pub proof fn lemma_gm_feed_split(st: GeminiState, a: Seq<u8>, b: Seq<u8>)
    requires
        utf8_lossy(a + b) == utf8_lossy(a) + utf8_lossy(b),
    ensures
        gm_feed(gm_feed(st, a).0, b).0 == gm_feed(st, a + b).0,
        gm_feed(st, a).1 + gm_feed(gm_feed(st, a).0, b).1 == gm_feed(st, a + b).1,
{
    let x = st.buffer + utf8_lossy(a);
    let y = utf8_lossy(b);
    assert(st.buffer + utf8_lossy(a + b) =~= x + y);
    lemma_frames_append(x, y);
    lemma_gm_frames_concat(st.calls, frames(x).0, frames(frames(x).1 + y).0);
}

/// The calls being assembled are in strictly ascending order of their index.
pub open spec fn calls_sorted(calls: Seq<CallView>) -> bool {
    forall|i: int, j: int| 0 <= i < j < calls.len() ==> calls[i].index < calls[j].index
}

proof fn lemma_call_position_none(calls: Seq<CallView>, index: usize, i: int)
    requires
        0 <= i,
        call_position(calls, index, i) is None,
    ensures
        forall|k: int| i <= k < calls.len() ==> calls[k].index != index,
    decreases calls.len() - i,
{
    if i < calls.len() {
        lemma_call_position_none(calls, index, i + 1);
    }
}

proof fn lemma_insert_position_facts(calls: Seq<CallView>, index: usize, i: int)
    requires
        0 <= i <= calls.len(),
    ensures
        i <= insert_position(calls, index, i) <= calls.len(),
        forall|k: int| i <= k < insert_position(calls, index, i) ==> !(calls[k].index > index),
        insert_position(calls, index, i) < calls.len() ==> calls[insert_position(calls, index, i)].index
            > index,
    decreases calls.len() - i,
{
    if i < calls.len() && !(calls[i].index > index) {
        lemma_insert_position_facts(calls, index, i + 1);
    }
}

proof fn lemma_upsert_call_sorted(calls: Seq<CallView>, item: JsonValue)
    requires
        calls_sorted(calls),
    ensures
        calls_sorted(upsert_call(calls, item)),
{
    let idx = piece_index(item);
    lemma_call_position_bounds(calls, idx, 0);
    match call_position(calls, idx, 0) {
        Some(p) => {
            let r = upsert_call(calls, item);
            assert forall|i: int, j: int| 0 <= i < j < r.len() implies r[i].index < r[j].index by {
                assert(r[i].index == calls[i].index);
                assert(r[j].index == calls[j].index);
            }
        },
        None => {
            lemma_call_position_none(calls, idx, 0);
            lemma_insert_position_facts(calls, idx, 0);
            let q = insert_position(calls, idx, 0);
            let fresh = CallView { index: idx, id: Seq::empty(), name: Seq::empty(), args: Seq::empty() };
            let c = calls.insert(q, fresh);
            let r = upsert_call(calls, item);
            assert forall|k: int| 0 <= k < c.len() implies #[trigger] c[k].index == (if k < q {
                calls[k].index
            } else if k == q {
                idx
            } else {
                calls[k - 1].index
            }) by {}
            assert forall|i: int, j: int| 0 <= i < j < r.len() implies r[i].index < r[j].index by {
                assert(r[i].index == c[i].index);
                assert(r[j].index == c[j].index);
                if j < q {
                } else if j == q {
                    assert(calls[i].index != idx);
                } else if i < q {
                    assert(calls[i].index < idx);
                    assert(calls[q].index > idx);
                    if j - 1 > q {
                        assert(calls[q].index < calls[j - 1].index);
                    }
                } else if i == q {
                    assert(calls[q].index > idx);
                    if j - 1 > q {
                        assert(calls[q].index < calls[j - 1].index);
                    }
                } else {
                }
            }
        },
    }
}

proof fn lemma_upsert_calls_sorted(calls: Seq<CallView>, items: Seq<JsonValue>)
    requires
        calls_sorted(calls),
    ensures
        calls_sorted(upsert_calls(calls, items)),
    decreases items.len(),
{
    if items.len() > 0 {
        lemma_upsert_call_sorted(calls, items[0]);
        lemma_upsert_calls_sorted(upsert_call(calls, items[0]), items.drop_first());
    }
}

proof fn lemma_oa_line_sorted(c: OpenAiCore, line: Seq<char>)
    requires
        calls_sorted(c.calls),
    ensures
        calls_sorted(oa_line(c, line).0.calls),
{
    if let Some(data) = data_of(trim(line)) {
        if data != "[DONE]"@ {
            if let Ok(val) = json_parse(data) {
                if let Some(choice) = opt_at(json_get(val, "choices"@), 0) {
                    if let Some(d) = json_get(choice, "delta"@) {
                        if let Some(items) = opt_items(json_get(d, "tool_calls"@)) {
                            lemma_upsert_calls_sorted(c.calls, items);
                        }
                    }
                }
            }
        }
    }
}

proof fn lemma_oa_lines_sorted(c: OpenAiCore, lines: Seq<Seq<char>>)
    requires
        calls_sorted(c.calls),
    ensures
        calls_sorted(oa_lines(c, lines).0.calls),
    decreases lines.len(),
{
    if lines.len() > 0 && !c.finished {
        lemma_oa_line_sorted(c, lines[0]);
        lemma_oa_lines_sorted(oa_line(c, lines[0]).0, lines.drop_first());
    }
}

proof fn lemma_oa_frames_sorted(c: OpenAiCore, fs: Seq<Seq<char>>)
    requires
        calls_sorted(c.calls),
    ensures
        calls_sorted(oa_frames(c, fs).0.calls),
    decreases fs.len(),
{
    if fs.len() > 0 && !c.finished {
        lemma_oa_lines_sorted(c, text_lines(fs[0]));
        lemma_oa_frames_sorted(oa_lines(c, text_lines(fs[0])).0, fs.drop_first());
    }
}

/// Tool calls streamed in pieces are kept in ascending order of their stream
/// index, whatever order the pieces come in, so they are handed out in that
/// order.
pub proof fn lemma_oa_feed_keeps_calls_sorted(st: OpenAiState, chunk: Seq<u8>)
    requires
        calls_sorted(st.core.calls),
    ensures
        calls_sorted(oa_feed(st, chunk).0.core.calls),
{
    if !st.core.finished {
        lemma_oa_frames_sorted(st.core, frames(st.buffer + utf8_lossy(chunk)).0);
    }
}

/// Once a finish reason has ended the turn, the closing `[DONE]` adds nothing:
/// a completion turn ends once.
pub proof fn lemma_oa_done_after_finish(c: OpenAiCore, line: Seq<char>)
    requires
        c.done_sent,
        data_of(trim(line)) == Some("[DONE]"@),
    ensures
        oa_line(c, line).1.len() == 0,
        oa_line(c, line).0.finished,
{
}

} // verus!
