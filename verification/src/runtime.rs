//! Session-room helpers: naming a session from a model's reply, guessing an
//! attachment's image type, the token anchor and the room's errors.
use vstd::prelude::*;

use crate::json::{json_text, json_to_text, json_view};
use crate::message::{blocks_view, messages_view, Block, BlockView, ChatMessage, MessageView, Role};
use crate::patch_apply::{to_f64, to_f64_exec};
use crate::provider::{spec_resolve_effort, ModelConfig};
use crate::storage::StorageError;
use crate::text::{
    append_chars, ascii_lower, ascii_lower_exec, chars_of, is_blank, is_blank_exec, is_ws, is_ws_exec,
    lines_view, split_on, split_on_exec, starts_with, starts_with_exec, string_of, trim,
    trim_vec,
};

verus! {

// ---------------------------------------------------------------------------
// Session titles
// ---------------------------------------------------------------------------

/// The longest title, in characters.
pub const TITLE_MAX_CHARS: usize = 60;

/// Characters stripped from the front of a title: heading and list marks and spaces.
pub open spec fn is_decoration(c: char) -> bool {
    c == '#' || c == '-' || is_ws(c)
}

/// Quotation marks a title may be wrapped in.
pub open spec fn is_quote(c: char) -> bool {
    c == '"' || c == '\'' || c == '\u{201C}' || c == '\u{201D}' || c == '\u{2018}' || c == '\u{2019}'
        || c == '\u{300A}' || c == '\u{300B}' || c == '`'
}

/// Drop leading decoration characters.
pub open spec fn strip_decoration(s: Seq<char>) -> Seq<char>
    decreases s.len(),
{
    if s.len() > 0 && is_decoration(s[0]) {
        strip_decoration(s.drop_first())
    } else {
        s
    }
}

/// Drop quotation marks at both ends.
pub open spec fn strip_quotes(s: Seq<char>) -> Seq<char>
    decreases s.len(),
{
    if s.len() > 0 && is_quote(s[0]) {
        strip_quotes(s.drop_first())
    } else if s.len() > 0 && is_quote(s.last()) {
        strip_quotes(s.drop_last())
    } else {
        s
    }
}

/// `str::trim_start_matches` with a string: drop `p` from the front as often as it is there.
pub open spec fn strip_repeated(s: Seq<char>, p: Seq<char>) -> Seq<char>
    decreases s.len(),
{
    if p.len() > 0 && starts_with(s, p) {
        strip_repeated(s.skip(p.len() as int), p)
    } else {
        s
    }
}

/// The first line that is not blank, trimmed.
pub open spec fn first_filled(lines: Seq<Seq<char>>) -> Option<Seq<char>>
    decreases lines.len(),
{
    if lines.len() == 0 {
        None
    } else if !is_blank(lines[0]) {
        Some(trim(lines[0]))
    } else {
        first_filled(lines.drop_first())
    }
}

/// The title once decorations, quotes and a `Title:` label are removed.
pub open spec fn clean_title(line: Seq<char>) -> Seq<char> {
    trim(
        strip_repeated(
            strip_repeated(strip_quotes(trim(strip_decoration(line))), "Title:"@),
            "\u{6807}\u{9898}\u{FF1A}"@,
        ),
    )
}

/// What [`sanitize_title`] returns.
pub open spec fn spec_sanitize_title(raw: Seq<char>) -> Option<Seq<char>> {
    match first_filled(split_on(raw, '\n')) {
        None => None,
        Some(line) => {
            let c = clean_title(line);
            if c.len() == 0 {
                None
            } else if c.len() > TITLE_MAX_CHARS {
                Some(c.take(TITLE_MAX_CHARS as int))
            } else {
                Some(c)
            }
        },
    }
}

fn is_quote_exec(c: char) -> (b: bool)
    ensures
        b == is_quote(c),
{
    c == '"' || c == '\'' || c == '\u{201C}' || c == '\u{201D}' || c == '\u{2018}' || c == '\u{2019}'
        || c == '\u{300A}' || c == '\u{300B}' || c == '`'
}

fn strip_decoration_exec(s: &[char]) -> (r: Vec<char>)
    ensures
        r@ == strip_decoration(s@),
{
    let n = s.len();
    let mut i: usize = 0;
    assert(s@.skip(0) =~= s@);
    while i < n && (s[i] == '#' || s[i] == '-' || is_ws_exec(s[i]))
        invariant
            n == s@.len(),
            i <= n,
            strip_decoration(s@) == strip_decoration(s@.skip(i as int)),
        decreases n - i,
    {
        assert(s@.skip(i as int).drop_first() =~= s@.skip(i + 1));
        i = i + 1;
    }
    vstd::slice::slice_to_vec(&s[i..n])
}

fn strip_quotes_exec(s: &[char]) -> (r: Vec<char>)
    ensures
        r@ == strip_quotes(s@),
{
    let n = s.len();
    let mut i: usize = 0;
    let mut j: usize = n;
    assert(s@.subrange(0, n as int) =~= s@);
    while i < j && (is_quote_exec(s[i]) || is_quote_exec(s[j - 1]))
        invariant
            n == s@.len(),
            i <= j <= n,
            strip_quotes(s@) == strip_quotes(s@.subrange(i as int, j as int)),
        decreases j - i,
    {
        let ghost t = s@.subrange(i as int, j as int);
        if is_quote_exec(s[i]) {
            assert(t.drop_first() =~= s@.subrange(i + 1, j as int));
            i = i + 1;
        } else {
            assert(t.drop_last() =~= s@.subrange(i as int, j - 1));
            j = j - 1;
        }
    }
    vstd::slice::slice_to_vec(&s[i..j])
}

fn strip_repeated_exec(s: &[char], p: &[char]) -> (r: Vec<char>)
    requires
        p@.len() > 0,
    ensures
        r@ == strip_repeated(s@, p@),
{
    let n = s.len();
    let m = p.len();
    let mut i: usize = 0;
    assert(s@.skip(0) =~= s@);
    while i < n && starts_with_exec(&s[i..n], p)
        invariant
            n == s@.len(),
            m == p@.len(),
            m > 0,
            i <= n,
            strip_repeated(s@, p@) == strip_repeated(s@.skip(i as int), p@),
        decreases n - i,
    {
        assert(s@.subrange(i as int, n as int) =~= s@.skip(i as int));
        assert(s@.skip(i as int).skip(m as int) =~= s@.skip(i + m));
        i = i + m;
    }
    assert(i < n ==> s@.subrange(i as int, n as int) =~= s@.skip(i as int));
    if i >= n {
        assert(s@.skip(i as int).len() == 0);
        assert(!starts_with(s@.skip(i as int), p@));
    }
    vstd::slice::slice_to_vec(&s[i..n])
}

/// Turns a model's naming reply into a title: the first non-blank line, without
/// list or heading marks, quotes or a `Title:` label, cut to
/// [`TITLE_MAX_CHARS`]; `None` when nothing is left.
pub fn sanitize_title(raw: &str) -> (r: Option<String>)
    ensures
        match r {
            Some(t) => spec_sanitize_title(raw@) == Some(t@),
            None => spec_sanitize_title(raw@) is None,
        },
{
    let v = chars_of(raw);
    let lines = split_on_exec(v.as_slice(), '\n');
    let ghost lv = lines_view(lines@);
    let n = lines.len();
    let mut i: usize = 0;
    assert(lv.skip(0) =~= lv);
    while i < n && is_blank_exec(lines[i].as_slice())
        invariant
            n == lines@.len(),
            lv == lines_view(lines@),
            i <= n,
            first_filled(lv) == first_filled(lv.skip(i as int)),
        decreases n - i,
    {
        assert(lv.skip(i as int).drop_first() =~= lv.skip(i + 1));
        i = i + 1;
    }
    if i >= n {
        assert(lv.skip(i as int).len() == 0);
        return None;
    }
    assert(lv.skip(i as int)[0] == lines@[i as int]@);
    let line = trim_vec(lines[i].as_slice());
    let a = strip_decoration_exec(line.as_slice());
    let b = trim_vec(a.as_slice());
    let c = strip_quotes_exec(b.as_slice());
    proof {
        reveal_strlit("Title:");
        reveal_strlit("\u{6807}\u{9898}\u{FF1A}");
    }
    let title = chars_of("Title:");
    let d = strip_repeated_exec(c.as_slice(), title.as_slice());
    let label = chars_of("\u{6807}\u{9898}\u{FF1A}");
    let e = strip_repeated_exec(d.as_slice(), label.as_slice());
    let f = trim_vec(e.as_slice());
    if f.len() == 0 {
        return None;
    }
    if f.len() > TITLE_MAX_CHARS {
        let g = vstd::slice::slice_to_vec(&f.as_slice()[0..TITLE_MAX_CHARS]);
        assert(g@ =~= f@.take(TITLE_MAX_CHARS as int));
        Some(string_of(g.as_slice()))
    } else {
        Some(string_of(f.as_slice()))
    }
}

// ---------------------------------------------------------------------------
// Attachment types
// ---------------------------------------------------------------------------

/// The index of the last `.`, if any.
pub open spec fn last_dot(s: Seq<char>) -> Option<int>
    decreases s.len(),
{
    if s.len() == 0 {
        None
    } else if s.last() == '.' {
        Some(s.len() - 1)
    } else {
        last_dot(s.drop_last())
    }
}

pub open spec fn lower(s: Seq<char>) -> Seq<char> {
    s.map_values(|c: char| ascii_lower(c))
}

/// The image type told by a file name's extension, PNG when unknown.
pub open spec fn spec_guess_mime(name: Seq<char>) -> Seq<char> {
    match last_dot(name) {
        Some(i) => {
            let ext = lower(name.skip(i + 1));
            if ext == "jpg"@ || ext == "jpeg"@ {
                "image/jpeg"@
            } else if ext == "gif"@ {
                "image/gif"@
            } else if ext == "webp"@ {
                "image/webp"@
            } else {
                "image/png"@
            }
        },
        None => "image/png"@,
    }
}

/// Guesses an attachment's image type from its file name.
pub fn guess_mime(name: &str) -> (m: String)
    ensures
        m@ == spec_guess_mime(name@),
{
    let v = chars_of(name);
    let n = v.len();
    let mut j: usize = n;
    assert(v@.take(n as int) =~= v@);
    while j > 0 && v[j - 1] != '.'
        invariant
            n == v@.len(),
            j <= n,
            last_dot(v@) == last_dot(v@.take(j as int)),
        decreases j,
    {
        assert(v@.take(j as int).drop_last() =~= v@.take(j - 1));
        j = j - 1;
    }
    if j == 0 {
        assert(v@.take(0).len() == 0);
        return String::from_str("image/png");
    }
    assert(last_dot(v@.take(j as int)) == Some(j - 1));
    let mut ext: Vec<char> = Vec::new();
    let mut k: usize = j;
    while k < n
        invariant
            n == v@.len(),
            j <= k <= n,
            ext@ == lower(v@.subrange(j as int, k as int)),
        decreases n - k,
    {
        ext.push(ascii_lower_exec(v[k]));
        assert(lower(v@.subrange(j as int, k + 1)) =~= lower(v@.subrange(j as int, k as int)).push(
            ascii_lower(v@[k as int]),
        ));
        k = k + 1;
    }
    assert(v@.subrange(j as int, n as int) =~= v@.skip(j as int));
    let e = ext.as_slice();
    let jpg = chars_of("jpg");
    let jpeg = chars_of("jpeg");
    let gif = chars_of("gif");
    let webp = chars_of("webp");
    if crate::text::eq_chars(e, jpg.as_slice()) || crate::text::eq_chars(e, jpeg.as_slice()) {
        String::from_str("image/jpeg")
    } else if crate::text::eq_chars(e, gif.as_slice()) {
        String::from_str("image/gif")
    } else if crate::text::eq_chars(e, webp.as_slice()) {
        String::from_str("image/webp")
    } else {
        String::from_str("image/png")
    }
}

// ---------------------------------------------------------------------------
// The token anchor
// ---------------------------------------------------------------------------

/// The last authoritative input-token count: the provider's count for a request
/// that carried the first `covered` history entries.
#[derive(Debug, Clone, Copy, PartialEq, Eq)]
pub struct TokenAnchor {
    covered: usize,
    tokens: usize,
}

impl TokenAnchor {
    pub closed spec fn spec_covered(self) -> nat {
        self.covered as nat
    }

    pub closed spec fn spec_tokens(self) -> nat {
        self.tokens as nat
    }

    /// Records a request's result; `None` when the provider reported no usage
    /// (a count of 0), so that the previous anchor stays.
    pub fn record(covered: usize, input_tokens: usize) -> (r: Option<Self>)
        ensures
            r is Some <==> input_tokens > 0,
            r matches Some(a) ==> a.spec_covered() == covered && a.spec_tokens() == input_tokens,
    {
        if input_tokens > 0 {
            Some(TokenAnchor { covered, tokens: input_tokens })
        } else {
            None
        }
    }
}

// ---------------------------------------------------------------------------
// Room errors
// ---------------------------------------------------------------------------

/// Why a session-room request failed; callers map the kind, never the wording.
#[derive(Debug)]
pub enum RoomError {
    /// The message tree cannot change while a turn is running.
    Busy(String),
    Invalid(String),
    NotFound(String),
    /// Any other failure, with its message.
    Internal(String),
}

impl RoomError {
    /// The message, as the error is displayed.
    pub fn to_string(&self) -> (s: String)
        ensures
            s@ == (match self {
                RoomError::Busy(m) => m@,
                RoomError::Invalid(m) => m@,
                RoomError::NotFound(m) => m@,
                RoomError::Internal(m) => m@,
            }),
    {
        match self {
            RoomError::Busy(m) => m.clone(),
            RoomError::Invalid(m) => m.clone(),
            RoomError::NotFound(m) => m.clone(),
            RoomError::Internal(m) => m.clone(),
        }
    }
}

impl From<StorageError> for RoomError {
    fn from(e: StorageError) -> (r: RoomError) {
        match e {
            StorageError::InvalidId(m) => RoomError::Invalid(m),
            StorageError::NotFound(m) => RoomError::NotFound(m),
            StorageError::Internal(m) => RoomError::Internal(m),
        }
    }
}

impl vstd::std_specs::convert::FromSpecImpl<StorageError> for RoomError {
    open spec fn obeys_from_spec() -> bool {
        true
    }

    open spec fn from_spec(e: StorageError) -> RoomError {
        match e {
            StorageError::InvalidId(m) => RoomError::Invalid(m),
            StorageError::NotFound(m) => RoomError::NotFound(m),
            StorageError::Internal(m) => RoomError::Internal(m),
        }
    }
}

// ---------------------------------------------------------------------------
// Reasoning level
// ---------------------------------------------------------------------------

/// The reasoning value a request carries for a session's level: none for a
/// model that does not think, else the resolved value (none where the level
/// is switched off).
pub open spec fn spec_reasoning_effort(model: ModelConfig, level: Seq<char>) -> Seq<char> {
    if !model.supports_thinking {
        Seq::empty()
    } else {
        match spec_resolve_effort(model.reasoning_map@, level) {
            Some(v) => v,
            None => Seq::empty(),
        }
    }
}

/// Writes the session's reasoning level into the model's request settings,
/// as [`spec_reasoning_effort`] says; nothing else changes.
pub fn apply_reasoning_level(model_cfg: &mut ModelConfig, level: &str)
    requires
        old(model_cfg).supports_thinking ==> level@.len() > 0,
    ensures
        final(model_cfg).reasoning_effort@ == spec_reasoning_effort(*old(model_cfg), level@),
        final(model_cfg).id == old(model_cfg).id,
        final(model_cfg).name == old(model_cfg).name,
        final(model_cfg).context_len == old(model_cfg).context_len,
        final(model_cfg).supports_vision == old(model_cfg).supports_vision,
        final(model_cfg).supports_thinking == old(model_cfg).supports_thinking,
        final(model_cfg).max_output == old(model_cfg).max_output,
        final(model_cfg).reasoning_map == old(model_cfg).reasoning_map,
        final(model_cfg).headers == old(model_cfg).headers,
        final(model_cfg).body == old(model_cfg).body,
{
    if !model_cfg.supports_thinking {
        model_cfg.reasoning_effort = String::new();
        return;
    }
    let r = model_cfg.resolve_reasoning_effort(level);
    model_cfg.reasoning_effort = match r {
        Some(v) => v,
        None => String::new(),
    };
}

// ---------------------------------------------------------------------------
// Estimating the context and compacting the history
// ---------------------------------------------------------------------------

/// Tool results longer than this many characters are replaced when compacting.
pub const PRUNE_MIN_CHARS: usize = 300;

/// What a pruned tool result says instead of its content.
pub open spec fn pruned_tool_result() -> Seq<char> {
    "[工具执行结果已截断修剪以节省上下文窗口]"@
}

/// The characters a block counts for: its text; a tool call's name and JSON
/// input; 800 for an image.
pub open spec fn block_chars(b: BlockView) -> nat {
    match b {
        BlockView::Text(t) => t.len(),
        BlockView::Thinking(t) => t.len(),
        BlockView::ToolResult(_, c, _) => c.len(),
        BlockView::ToolUse(_, name, input) => name.len() + json_text(input).len(),
        BlockView::Image(_, _) => 800,
    }
}

pub open spec fn blocks_chars(bs: Seq<BlockView>) -> nat
    decreases bs.len(),
{
    if bs.len() == 0 {
        0
    } else {
        blocks_chars(bs.drop_last()) + block_chars(bs.last())
    }
}

pub open spec fn history_chars(ms: Seq<MessageView>) -> nat
    decreases ms.len(),
{
    if ms.len() == 0 {
        0
    } else {
        history_chars(ms.drop_last()) + blocks_chars(ms.last().content)
    }
}

/// The token estimate of a history: two characters per token.
pub open spec fn spec_estimate_tokens(ms: Seq<MessageView>) -> nat {
    history_chars(ms) / 2
}

proof fn lemma_blocks_chars_prefix(bs: Seq<BlockView>, i: int)
    requires
        0 <= i <= bs.len(),
    ensures
        blocks_chars(bs.take(i)) <= blocks_chars(bs),
    decreases bs.len() - i,
{
    if i < bs.len() {
        lemma_blocks_chars_prefix(bs, i + 1);
        assert(bs.take(i + 1).drop_last() =~= bs.take(i));
    } else {
        assert(bs.take(i) =~= bs);
    }
}

proof fn lemma_history_chars_prefix(ms: Seq<MessageView>, i: int)
    requires
        0 <= i <= ms.len(),
    ensures
        history_chars(ms.take(i)) <= history_chars(ms),
    decreases ms.len() - i,
{
    if i < ms.len() {
        lemma_history_chars_prefix(ms, i + 1);
        assert(ms.take(i + 1).drop_last() =~= ms.take(i));
    } else {
        assert(ms.take(i) =~= ms);
    }
}

proof fn lemma_history_chars_suffix(ms: Seq<MessageView>, i: int)
    requires
        0 <= i <= ms.len(),
    ensures
        history_chars(ms.skip(i)) <= history_chars(ms),
    decreases ms.len(),
{
    if ms.len() > 0 && i < ms.len() {
        lemma_history_chars_suffix(ms.drop_last(), i);
        assert(ms.skip(i).drop_last() =~= ms.drop_last().skip(i));
        assert(ms.skip(i).last() == ms.last());
    } else {
        assert(ms.skip(i).len() == 0);
    }
}

fn text_len(s: &String) -> (n: usize)
    ensures
        n == s@.len(),
{
    chars_of(s.as_str()).len()
}

fn block_chars_exec(b: &Block) -> (n: usize)
    requires
        block_chars(b@) <= usize::MAX,
    ensures
        n == block_chars(b@),
{
    match b {
        Block::Text { text } => text_len(text),
        Block::Thinking { thinking } => text_len(thinking),
        Block::ToolResult { content, .. } => text_len(content),
        Block::ToolUse { name, input, .. } => {
            let j = json_to_text(input);
            text_len(name) + text_len(&j)
        },
        Block::Image { .. } => 800,
    }
}

fn blocks_chars_exec(bs: &Vec<Block>) -> (n: usize)
    requires
        blocks_chars(blocks_view(bs@)) <= usize::MAX,
    ensures
        n == blocks_chars(blocks_view(bs@)),
{
    let ghost bv = blocks_view(bs@);
    let mut total: usize = 0;
    let mut j: usize = 0;
    assert(bv.take(0) =~= Seq::<BlockView>::empty());
    while j < bs.len()
        invariant
            j <= bs@.len(),
            bv == blocks_view(bs@),
            blocks_chars(bv) <= usize::MAX,
            total == blocks_chars(bv.take(j as int)),
        decreases bs@.len() - j,
    {
        proof {
            assert(bv.take(j + 1).drop_last() =~= bv.take(j as int));
            lemma_blocks_chars_prefix(bv, j + 1);
        }
        let n = block_chars_exec(&bs[j]);
        total = total + n;
        j = j + 1;
    }
    assert(bv.take(j as int) =~= bv);
    total
}

fn history_chars_exec(ms: &[ChatMessage]) -> (n: usize)
    requires
        history_chars(messages_view(ms@)) <= usize::MAX,
    ensures
        n == history_chars(messages_view(ms@)),
{
    let ghost mv = messages_view(ms@);
    let mut total: usize = 0;
    let mut i: usize = 0;
    assert(mv.take(0) =~= Seq::<MessageView>::empty());
    while i < ms.len()
        invariant
            i <= ms@.len(),
            mv == messages_view(ms@),
            history_chars(mv) <= usize::MAX,
            total == history_chars(mv.take(i as int)),
        decreases ms@.len() - i,
    {
        proof {
            assert(mv.take(i + 1).drop_last() =~= mv.take(i as int));
            lemma_history_chars_prefix(mv, i + 1);
        }
        let n = blocks_chars_exec(&ms[i].content);
        total = total + n;
        i = i + 1;
    }
    assert(mv.take(i as int) =~= mv);
    total
}

/// Estimates a history's tokens from its characters, two to a token (a
/// conservative rate for English, code and Chinese alike).
pub fn estimate_tokens(messages: &[ChatMessage]) -> (n: usize)
    requires
        history_chars(messages_view(messages@)) <= usize::MAX,
    ensures
        n == spec_estimate_tokens(messages_view(messages@)),
{
    history_chars_exec(messages) / 2
}


/// What [`TokenAnchor::estimate`] gives: the authoritative count plus the
/// estimate of what came after the anchored prefix; `None` when the history is
/// shorter than that prefix (it was cut, so the anchor no longer applies).
pub open spec fn spec_anchor_estimate(a: TokenAnchor, ms: Seq<MessageView>) -> Option<nat> {
    if ms.len() < a.spec_covered() {
        None
    } else {
        Some(a.spec_tokens() + spec_estimate_tokens(ms.skip(a.spec_covered() as int)))
    }
}

/// The anchored estimate of a history fits in a `usize`.
pub open spec fn anchor_fits(a: TokenAnchor, ms: Seq<MessageView>) -> bool {
    ms.len() >= a.spec_covered() ==> a.spec_tokens() + spec_estimate_tokens(
        ms.skip(a.spec_covered() as int),
    ) <= usize::MAX
}

impl TokenAnchor {
    /// Estimates the context that a history takes, from the anchor; `None`
    /// when the history no longer starts with the anchored prefix.
    pub fn estimate(&self, messages: &[ChatMessage]) -> (r: Option<usize>)
        requires
            history_chars(messages_view(messages@)) <= usize::MAX,
            anchor_fits(*self, messages_view(messages@)),
        ensures
            match r {
                Some(n) => spec_anchor_estimate(*self, messages_view(messages@)) == Some(n as nat),
                None => spec_anchor_estimate(*self, messages_view(messages@)) is None,
            },
    {
        if messages.len() < self.covered {
            return None;
        }
        let rest = &messages[self.covered..messages.len()];
        proof {
            let mv = messages_view(messages@);
            assert(messages_view(rest@) =~= mv.skip(self.covered as int));
            lemma_history_chars_suffix(mv, self.covered as int);
        }
        Some(self.tokens + estimate_tokens(rest))
    }
}

/// `(context_len as f64 * 0.7) as usize`, computed as binary64 does it:
/// `0.7` is `3152519739159347 / 2^52`; the length and the product are each
/// rounded to 53 significant bits; the conversion back saturates.
pub open spec fn spec_threshold(context_len: nat) -> nat {
    let t = to_f64(to_f64(context_len as int) * 3152519739159347) / 0x10_0000_0000_0000;
    if t > usize::MAX {
        usize::MAX as nat
    } else {
        t as nat
    }
}

/// The history size, in estimated tokens, above which compaction starts: 70%
/// of the context length.
pub fn compaction_threshold(context_len: usize) -> (t: usize)
    ensures
        t == spec_threshold(context_len as nat),
{
    let x = to_f64_exec(context_len as u128);
    assert(x * 3152519739159347 <= 0x100_0000_0000_0000_0000_0000_0000_0000) by (nonlinear_arith)
        requires
            x <= 0x2_0000_0000_0000_0000,
    ;
    let y = to_f64_exec(x * 3152519739159347);
    let t = y / 0x10_0000_0000_0000;
    if t > usize::MAX as u128 {
        usize::MAX
    } else {
        t as usize
    }
}

/// The estimate compaction goes by: the anchor's, where it applies, else the
/// characters' count.
pub open spec fn anchored_estimate(anchor: Option<TokenAnchor>, ms: Seq<MessageView>) -> nat {
    match anchor {
        Some(a) => match spec_anchor_estimate(a, ms) {
            Some(n) => n,
            None => spec_estimate_tokens(ms),
        },
        None => spec_estimate_tokens(ms),
    }
}

pub open spec fn anchor_fits_opt(anchor: Option<TokenAnchor>, ms: Seq<MessageView>) -> bool {
    match anchor {
        Some(a) => anchor_fits(a, ms),
        None => true,
    }
}

fn anchored_exec(anchor: Option<TokenAnchor>, ms: &[ChatMessage]) -> (n: usize)
    requires
        history_chars(messages_view(ms@)) <= usize::MAX,
        anchor_fits_opt(anchor, messages_view(ms@)),
    ensures
        n == anchored_estimate(anchor, messages_view(ms@)),
{
    match anchor {
        Some(a) => match a.estimate(ms) {
            Some(n) => n,
            None => estimate_tokens(ms),
        },
        None => estimate_tokens(ms),
    }
}

/// A block with a long tool result replaced.
pub open spec fn prune_block(b: BlockView) -> BlockView {
    match b {
        BlockView::ToolResult(id, c, e) => if c.len() > PRUNE_MIN_CHARS {
            BlockView::ToolResult(id, pruned_tool_result(), e)
        } else {
            b
        },
        _ => b,
    }
}

pub open spec fn prune_message(m: MessageView) -> MessageView {
    MessageView { content: Seq::new(m.content.len(), |j: int| prune_block(m.content[j])), ..m }
}

/// The history with every message but the last pruned.
pub open spec fn prune_history(ms: Seq<MessageView>) -> Seq<MessageView> {
    if ms.len() > 1 {
        Seq::new(
            ms.len(),
            |i: int|
                if i < ms.len() - 1 {
                    prune_message(ms[i])
                } else {
                    ms[i]
                },
        )
    } else {
        ms
    }
}

/// A real user turn starts here: a user message with text or an image that
/// is not a tool result (those may carry images too).
pub open spec fn spec_is_turn_start(m: MessageView) -> bool {
    &&& m.role == Role::User
    &&& !(exists|j: int| 0 <= j < m.content.len() && #[trigger] m.content[j] is ToolResult)
    &&& exists|j: int|
        0 <= j < m.content.len() && (#[trigger] m.content[j] is Text || m.content[j] is Image)
}

/// The indices of the messages that start a turn, in order.
pub open spec fn turn_starts(ms: Seq<MessageView>) -> Seq<int>
    decreases ms.len(),
{
    if ms.len() == 0 {
        Seq::empty()
    } else {
        let t = turn_starts(ms.drop_last());
        if spec_is_turn_start(ms.last()) {
            t.push(ms.len() - 1)
        } else {
            t
        }
    }
}

/// The first of the turn starts from the `k`-th on from which the rest of the
/// history fits the threshold.
pub open spec fn first_fit(ms: Seq<MessageView>, starts: Seq<int>, k: int, threshold: nat) -> Option<int>
    decreases starts.len() - k,
{
    if k < 0 || k >= starts.len() {
        None
    } else if spec_estimate_tokens(ms.skip(starts[k])) <= threshold {
        Some(starts[k])
    } else {
        first_fit(ms, starts, k + 1, threshold)
    }
}

/// What compaction leaves of a history: nothing changes within the budget;
/// past it, long tool results (but the newest message's) are replaced; if that
/// is not enough, the oldest whole turns are dropped, as few as make the rest
/// fit, and never the last turn.
pub open spec fn spec_compact(ms: Seq<MessageView>, context_len: nat, anchor: Option<TokenAnchor>) -> Seq<
    MessageView,
> {
    let t = spec_threshold(context_len);
    if anchored_estimate(anchor, ms) <= t {
        ms
    } else {
        let p = prune_history(ms);
        if anchored_estimate(anchor, p) <= t {
            p
        } else {
            let starts = turn_starts(p);
            if starts.len() <= 1 {
                p
            } else {
                match first_fit(p, starts, 1, t) {
                    Some(s) => p.skip(s),
                    None => p,
                }
            }
        }
    }
}


proof fn lemma_prune_block_chars(b: BlockView)
    ensures
        block_chars(prune_block(b)) <= block_chars(b),
{
    reveal_strlit("[工具执行结果已截断修剪以节省上下文窗口]");
}

proof fn lemma_blocks_chars_le(p: Seq<BlockView>, m: Seq<BlockView>)
    requires
        p.len() == m.len(),
        forall|j: int| 0 <= j < m.len() ==> block_chars(#[trigger] p[j]) <= block_chars(m[j]),
    ensures
        blocks_chars(p) <= blocks_chars(m),
    decreases m.len(),
{
    if m.len() > 0 {
        lemma_blocks_chars_le(p.drop_last(), m.drop_last());
        assert(block_chars(p[m.len() - 1]) <= block_chars(m[m.len() - 1]));
    }
}

proof fn lemma_history_chars_le(p: Seq<MessageView>, m: Seq<MessageView>)
    requires
        p.len() == m.len(),
        forall|i: int| 0 <= i < m.len() ==> blocks_chars(#[trigger] p[i].content) <= blocks_chars(m[i].content),
    ensures
        history_chars(p) <= history_chars(m),
    decreases m.len(),
{
    if m.len() > 0 {
        lemma_history_chars_le(p.drop_last(), m.drop_last());
        assert(blocks_chars(p[m.len() - 1].content) <= blocks_chars(m[m.len() - 1].content));
    }
}

proof fn lemma_prune_message_chars(m: MessageView)
    ensures
        blocks_chars(prune_message(m).content) <= blocks_chars(m.content),
{
    let pc = prune_message(m).content;
    assert forall|j: int| 0 <= j < m.content.len() implies block_chars(#[trigger] pc[j]) <= block_chars(
        m.content[j],
    ) by {
        lemma_prune_block_chars(m.content[j]);
    }
    lemma_blocks_chars_le(pc, m.content);
}

/// Pruning never makes a history (or any of its suffixes) longer.
proof fn lemma_prune_history_chars(ms: Seq<MessageView>, k: int)
    requires
        0 <= k <= ms.len(),
    ensures
        prune_history(ms).len() == ms.len(),
        history_chars(prune_history(ms).skip(k)) <= history_chars(ms.skip(k)),
{
    let p = prune_history(ms);
    let ps = p.skip(k);
    let s = ms.skip(k);
    assert forall|i: int| 0 <= i < s.len() implies blocks_chars(#[trigger] ps[i].content) <= blocks_chars(
        s[i].content,
    ) by {
        if ms.len() > 1 && k + i < ms.len() - 1 {
            lemma_prune_message_chars(ms[k + i]);
        }
    }
    lemma_history_chars_le(ps, s);
}

proof fn lemma_prune_fits(ms: Seq<MessageView>, anchor: Option<TokenAnchor>)
    requires
        history_chars(ms) <= usize::MAX,
        anchor_fits_opt(anchor, ms),
    ensures
        history_chars(prune_history(ms)) <= usize::MAX,
        anchor_fits_opt(anchor, prune_history(ms)),
{
    lemma_prune_history_chars(ms, 0);
    assert(ms.skip(0) =~= ms);
    assert(prune_history(ms).skip(0) =~= prune_history(ms));
    if let Some(a) = anchor {
        if ms.len() >= a.spec_covered() {
            lemma_prune_history_chars(ms, a.spec_covered() as int);
        }
    }
}

proof fn lemma_turn_starts_bounds(ms: Seq<MessageView>)
    ensures
        forall|k: int| 0 <= k < turn_starts(ms).len() ==> 0 <= #[trigger] turn_starts(ms)[k] < ms.len(),
    decreases ms.len(),
{
    if ms.len() > 0 {
        lemma_turn_starts_bounds(ms.drop_last());
        let t = turn_starts(ms.drop_last());
        assert forall|k: int| 0 <= k < turn_starts(ms).len() implies 0 <= #[trigger] turn_starts(ms)[k]
            < ms.len() by {
            if k < t.len() {
                assert(turn_starts(ms)[k] == t[k]);
            }
        }
    }
}

/// Whether a message starts a real user turn, as [`spec_is_turn_start`] says.
pub fn is_turn_start(message: &ChatMessage) -> (b: bool)
    ensures
        b == spec_is_turn_start(message@),
{
    match message.role {
        Role::User => {},
        _ => {
            return false;
        },
    }
    let ghost bv = message@.content;
    let mut j: usize = 0;
    while j < message.content.len()
        invariant
            j <= message.content@.len(),
            bv == message@.content,
            message@.role == Role::User,
            forall|k: int| 0 <= k < j ==> !(#[trigger] bv[k] is ToolResult),
        decreases message.content@.len() - j,
    {
        match &message.content[j] {
            Block::ToolResult { .. } => {
                assert(bv[j as int] is ToolResult);
                return false;
            },
            _ => {},
        }
        j = j + 1;
    }
    let mut j: usize = 0;
    while j < message.content.len()
        invariant
            j <= message.content@.len(),
            bv == message@.content,
            message@.role == Role::User,
            forall|k: int| 0 <= k < bv.len() ==> !(#[trigger] bv[k] is ToolResult),
            forall|k: int| 0 <= k < j ==> !(#[trigger] bv[k] is Text || bv[k] is Image),
        decreases message.content@.len() - j,
    {
        match &message.content[j] {
            Block::Text { .. } => {
                assert(bv[j as int] is Text);
                return true;
            },
            Block::Image { .. } => {
                assert(bv[j as int] is Image);
                return true;
            },
            _ => {},
        }
        j = j + 1;
    }
    false
}

fn prune_block_exec(b: Block) -> (r: Block)
    ensures
        r@ == prune_block(b@),
{
    match b {
        Block::ToolResult { tool_use_id, content, is_error } => {
            if text_len(&content) > PRUNE_MIN_CHARS {
                Block::ToolResult {
                    tool_use_id,
                    content: "[工具执行结果已截断修剪以节省上下文窗口]".to_owned(),
                    is_error,
                }
            } else {
                Block::ToolResult { tool_use_id, content, is_error }
            }
        },
        other => other,
    }
}

fn prune_message_exec(m: &mut ChatMessage)
    ensures
        final(m)@ == prune_message(old(m)@),
{
    let ghost c0 = old(m)@.content;
    let mut j: usize = 0;
    while j < m.content.len()
        invariant
            j <= m.content@.len(),
            m.content@.len() == c0.len(),
            m.id == old(m).id,
            m.parent_id == old(m).parent_id,
            m.role == old(m).role,
            m.created_at == old(m).created_at,
            c0 == old(m)@.content,
            forall|k: int|
                0 <= k < c0.len() ==> #[trigger] m.content@[k]@ == (if k < j {
                    prune_block(c0[k])
                } else {
                    c0[k]
                }),
        decreases m.content@.len() - j,
    {
        let mut b = Block::Image { mime_type: String::new(), data: String::new() };
        m.content.set_and_swap(j, &mut b);
        let nb = prune_block_exec(b);
        m.content.set(j, nb);
        j = j + 1;
    }
    assert(m@.content =~= prune_message(old(m)@).content);
}

fn turn_starts_exec(ms: &Vec<ChatMessage>) -> (r: Vec<usize>)
    ensures
        r@.len() == turn_starts(messages_view(ms@)).len(),
        forall|k: int| 0 <= k < r@.len() ==> #[trigger] r@[k] as int == turn_starts(messages_view(ms@))[k],
{
    let ghost mv = messages_view(ms@);
    let mut r: Vec<usize> = Vec::new();
    let mut i: usize = 0;
    assert(mv.take(0) =~= Seq::<MessageView>::empty());
    while i < ms.len()
        invariant
            i <= ms@.len(),
            mv == messages_view(ms@),
            r@.len() == turn_starts(mv.take(i as int)).len(),
            forall|k: int| 0 <= k < r@.len() ==> #[trigger] r@[k] as int == turn_starts(mv.take(i as int))[k],
        decreases ms@.len() - i,
    {
        assert(mv.take(i + 1).drop_last() =~= mv.take(i as int));
        assert(mv.take(i + 1).last() == ms@[i as int]@);
        if is_turn_start(&ms[i]) {
            r.push(i);
        }
        i = i + 1;
    }
    assert(mv.take(i as int) =~= mv);
    r
}

/// Compacts a history that has outgrown 70% of the context, as
/// [`spec_compact`] says: first long tool results are pruned, then the oldest
/// whole turns are dropped, and never in the middle of a turn.
pub fn compact_messages(messages: &mut Vec<ChatMessage>, context_len: usize, anchor: Option<TokenAnchor>)
    requires
        history_chars(messages_view(old(messages)@)) <= usize::MAX,
        anchor_fits_opt(anchor, messages_view(old(messages)@)),
    ensures
        messages_view(final(messages)@) == spec_compact(
            messages_view(old(messages)@),
            context_len as nat,
            anchor,
        ),
{
    let ghost m0 = messages_view(messages@);
    let threshold = compaction_threshold(context_len);
    if anchored_exec(anchor, messages.as_slice()) <= threshold {
        return;
    }
    if messages.len() > 1 {
        let tail = messages.len() - 1;
        let mut i: usize = 0;
        while i < tail
            invariant
                i <= tail,
                tail + 1 == m0.len(),
                messages@.len() == m0.len(),
                forall|k: int|
                    0 <= k < m0.len() ==> #[trigger] messages@[k]@ == (if k < i {
                        prune_message(m0[k])
                    } else {
                        m0[k]
                    }),
            decreases tail - i,
        {
            let mut m = ChatMessage {
                id: String::new(),
                parent_id: None,
                role: Role::User,
                content: Vec::new(),
                created_at: 0,
            };
            messages.set_and_swap(i, &mut m);
            prune_message_exec(&mut m);
            messages.set(i, m);
            i = i + 1;
        }
        assert(messages_view(messages@) =~= prune_history(m0));
    } else {
        assert(messages_view(messages@) =~= prune_history(m0));
    }
    let ghost p = messages_view(messages@);
    proof {
        lemma_prune_fits(m0, anchor);
    }
    if anchored_exec(anchor, messages.as_slice()) <= threshold {
        return;
    }
    let starts = turn_starts_exec(messages);
    let ghost ts = turn_starts(p);
    proof {
        lemma_turn_starts_bounds(p);
    }
    if starts.len() <= 1 {
        return;
    }
    let mut k: usize = 1;
    while k < starts.len()
        invariant
            1 <= k <= starts@.len(),
            starts@.len() == ts.len(),
            forall|q: int| 0 <= q < starts@.len() ==> #[trigger] starts@[q] as int == ts[q],
            forall|q: int| 0 <= q < ts.len() ==> 0 <= #[trigger] ts[q] < p.len(),
            p == messages_view(messages@),
            ts == turn_starts(p),
            history_chars(p) <= usize::MAX,
            first_fit(p, ts, 1, threshold as nat) == first_fit(p, ts, k as int, threshold as nat),
            threshold == spec_threshold(context_len as nat),
            m0 == messages_view(old(messages)@),
            p == prune_history(m0),
            anchored_estimate(anchor, m0) > threshold,
            anchored_estimate(anchor, p) > threshold,
            ts.len() > 1,
        decreases starts@.len() - k,
    {
        let start = starts[k];
        assert(start < messages.len());
        let n = messages.len();
        let rest = &messages.as_slice()[start..n];
        proof {
            assert(messages_view(rest@) =~= p.skip(start as int));
            lemma_history_chars_suffix(p, start as int);
        }
        if estimate_tokens(rest) <= threshold {
            let kept = messages.split_off(start);
            *messages = kept;
            assert(messages_view(messages@) =~= p.skip(start as int));
            return;
        }
        k = k + 1;
    }
}


proof fn lemma_turn_starts_facts(ms: Seq<MessageView>)
    ensures
        forall|k: int| 0 <= k < turn_starts(ms).len() ==> 0 <= #[trigger] turn_starts(ms)[k] < ms.len()
            && spec_is_turn_start(ms[turn_starts(ms)[k]]),
        forall|a: int, b: int|
            0 <= a < b < turn_starts(ms).len() ==> #[trigger] turn_starts(ms)[a] < #[trigger] turn_starts(
                ms,
            )[b],
    decreases ms.len(),
{
    if ms.len() > 0 {
        let d = ms.drop_last();
        lemma_turn_starts_facts(d);
        let t = turn_starts(d);
        let r = turn_starts(ms);
        assert forall|k: int| 0 <= k < r.len() implies 0 <= #[trigger] r[k] < ms.len()
            && spec_is_turn_start(ms[r[k]]) by {
            if k < t.len() {
                assert(r[k] == t[k]);
                assert(ms[t[k]] == d[t[k]]);
            }
        }
        assert forall|a: int, b: int| 0 <= a < b < r.len() implies #[trigger] r[a] < #[trigger] r[b] by {
            if b < t.len() {
                assert(r[a] == t[a] && r[b] == t[b]);
            } else {
                assert(r[a] == t[a]);
            }
        }
    }
}

proof fn lemma_first_fit_is_start(ms: Seq<MessageView>, starts: Seq<int>, k: int, t: nat)
    requires
        0 <= k,
    ensures
        first_fit(ms, starts, k, t) matches Some(s) ==> exists|q: int| k <= q < starts.len() && starts[q] == s,
    decreases starts.len() - k,
{
    if k < starts.len() && !(spec_estimate_tokens(ms.skip(starts[k])) <= t) {
        lemma_first_fit_is_start(ms, starts, k + 1, t);
    }
}

proof fn lemma_prune_keeps_turn_start(m: MessageView)
    ensures
        spec_is_turn_start(prune_message(m)) == spec_is_turn_start(m),
{
    let p = prune_message(m);
    assert forall|j: int| 0 <= j < m.content.len() implies (#[trigger] p.content[j] is ToolResult) == (
    m.content[j] is ToolResult) && (p.content[j] is Text || p.content[j] is Image) == (m.content[j] is Text
        || m.content[j] is Image) by {}
    if spec_is_turn_start(m) {
        let j = choose|j: int| 0 <= j < m.content.len() && (#[trigger] m.content[j] is Text || m.content[j] is Image);
        assert(p.content[j] is Text || p.content[j] is Image);
    }
    if spec_is_turn_start(p) {
        let j = choose|j: int| 0 <= j < p.content.len() && (#[trigger] p.content[j] is Text || p.content[j] is Image);
        assert(m.content[j] is Text || m.content[j] is Image);
    }
    if exists|j: int| 0 <= j < m.content.len() && #[trigger] m.content[j] is ToolResult {
        let j = choose|j: int| 0 <= j < m.content.len() && #[trigger] m.content[j] is ToolResult;
        assert(p.content[j] is ToolResult);
    }
    if exists|j: int| 0 <= j < p.content.len() && #[trigger] p.content[j] is ToolResult {
        let j = choose|j: int| 0 <= j < p.content.len() && #[trigger] p.content[j] is ToolResult;
        assert(m.content[j] is ToolResult);
    }
}

/// Within the budget, compaction changes nothing.
pub proof fn lemma_compact_within_budget_is_noop(
    ms: Seq<MessageView>,
    context_len: nat,
    anchor: Option<TokenAnchor>,
)
    requires
        anchored_estimate(anchor, ms) <= spec_threshold(context_len),
    ensures
        spec_compact(ms, context_len, anchor) == ms,
{
}

/// Compaction never splits a turn: what is left is the history, the history
/// with long tool results pruned, or a suffix of the latter that begins at a
/// real user turn (never the first). The newest message always survives as
/// it was.
pub proof fn lemma_compact_keeps_whole_turns(
    ms: Seq<MessageView>,
    context_len: nat,
    anchor: Option<TokenAnchor>,
)
    ensures
        ({
            let r = spec_compact(ms, context_len, anchor);
            ||| r == ms
            ||| r == prune_history(ms)
            ||| exists|s: int|
                0 < s < ms.len() && spec_is_turn_start(ms[s]) && r == prune_history(ms).skip(s)
        }),
        ms.len() > 0 ==> spec_compact(ms, context_len, anchor).len() > 0 && spec_compact(
            ms,
            context_len,
            anchor,
        ).last() == ms.last(),
{
    let t = spec_threshold(context_len);
    let p = prune_history(ms);
    let r = spec_compact(ms, context_len, anchor);
    assert(p.len() == ms.len());
    if ms.len() > 0 {
        assert(p.last() == ms.last());
    }
    if anchored_estimate(anchor, ms) > t && anchored_estimate(anchor, p) > t {
        let starts = turn_starts(p);
        if starts.len() > 1 {
            lemma_first_fit_is_start(p, starts, 1, t);
            lemma_turn_starts_facts(p);
            if let Some(s) = first_fit(p, starts, 1, t) {
                let q = choose|q: int| 1 <= q < starts.len() && starts[q] == s;
                assert(starts[0] < starts[q]);
                assert(0 < s < ms.len());
                assert(spec_is_turn_start(p[s]));
                if ms.len() > 1 && s < ms.len() - 1 {
                    lemma_prune_keeps_turn_start(ms[s]);
                }
                assert(spec_is_turn_start(ms[s]));
                assert(r.len() > 0);
                assert(r.last() == p.last());
            }
        }
    }
}


proof fn lemma_first_fit_index(ms: Seq<MessageView>, starts: Seq<int>, k: int, t: nat, x: int) -> (q: int)
    requires
        0 <= k,
        first_fit(ms, starts, k, t) == Some(x),
    ensures
        k <= q < starts.len(),
        starts[q] == x,
        spec_estimate_tokens(ms.skip(x)) <= t,
        forall|q2: int| k <= q2 < q ==> spec_estimate_tokens(ms.skip(#[trigger] starts[q2])) > t,
    decreases starts.len() - k,
{
    if spec_estimate_tokens(ms.skip(starts[k])) <= t {
        k
    } else {
        let q = lemma_first_fit_index(ms, starts, k + 1, t, x);
        assert forall|q2: int| k <= q2 < q implies spec_estimate_tokens(ms.skip(#[trigger] starts[q2])) > t by {
            if q2 > k {
                assert(k + 1 <= q2 < q);
            }
        }
        q
    }
}

proof fn lemma_turn_starts_complete(ms: Seq<MessageView>, x: int) -> (j: int)
    requires
        0 <= x < ms.len(),
        spec_is_turn_start(ms[x]),
    ensures
        0 <= j < turn_starts(ms).len(),
        turn_starts(ms)[j] == x,
    decreases ms.len(),
{
    let d = ms.drop_last();
    let t = turn_starts(d);
    if x == ms.len() - 1 {
        t.len() as int
    } else {
        assert(d[x] == ms[x]);
        let j = lemma_turn_starts_complete(d, x);
        j
    }
}

/// Where compaction drops turns, it drops as few as make the rest fit: the
/// kept history (a suffix of the pruned one from `s`) fits the threshold,
/// and the history from any turn start before `s` (other than the very
/// first) does not.
pub proof fn lemma_compact_drops_fewest_turns(
    ms: Seq<MessageView>,
    context_len: nat,
    anchor: Option<TokenAnchor>,
    s: int,
)
    requires
        0 < s < ms.len(),
        spec_compact(ms, context_len, anchor) == prune_history(ms).skip(s),
    ensures
        spec_estimate_tokens(prune_history(ms).skip(s)) <= spec_threshold(context_len),
        forall|s2: int|
            turn_starts(prune_history(ms))[0] < s2 < s && spec_is_turn_start(prune_history(ms)[s2])
                ==> spec_estimate_tokens(#[trigger] prune_history(ms).skip(s2)) > spec_threshold(context_len),
{
    let t = spec_threshold(context_len);
    let p = prune_history(ms);
    let starts = turn_starts(p);
    assert(p.len() == ms.len());
    assert(p.skip(s).len() < ms.len());
    assert(spec_compact(ms, context_len, anchor) != ms);
    assert(spec_compact(ms, context_len, anchor) != p);
    assert(anchored_estimate(anchor, ms) > t && anchored_estimate(anchor, p) > t && starts.len() > 1);
    let x = first_fit(p, starts, 1, t)->Some_0;
    assert(p.skip(x).len() == p.skip(s).len());
    lemma_first_fit_is_start(p, starts, 1, t);
    lemma_turn_starts_facts(p);
    let q = lemma_first_fit_index(p, starts, 1, t, x);
    assert(0 <= x < p.len());
    assert(x == s);
    assert forall|s2: int|
        starts[0] < s2 < s && spec_is_turn_start(p[s2]) implies spec_estimate_tokens(#[trigger] p.skip(s2)) > t by {
        let j = lemma_turn_starts_complete(p, s2);
        if j == 0 {
            assert(false);
        }
        if j >= q {
            if j > q {
                assert(starts[q] < starts[j]);
            }
            assert(false);
        }
        assert(spec_estimate_tokens(p.skip(starts[j])) > t);
    }
}

// ---------------------------------------------------------------------------
// The prompt that asks a model to name a session
// ---------------------------------------------------------------------------

/// The most dialogue characters that the naming prompt quotes.
pub const NAMING_CONTEXT_CHARS: usize = 4000;

pub open spec fn role_label(r: Role) -> Option<Seq<char>> {
    match r {
        Role::User => Some("User"@),
        Role::Assistant => Some("Assistant"@),
        Role::System => None,
    }
}

/// The texts of the text blocks, in order.
pub open spec fn block_texts(bs: Seq<BlockView>) -> Seq<Seq<char>>
    decreases bs.len(),
{
    if bs.len() == 0 {
        Seq::empty()
    } else {
        let t = block_texts(bs.drop_last());
        match bs.last() {
            BlockView::Text(x) => t.push(x),
            _ => t,
        }
    }
}

/// What a message says in words: its text blocks, one per line, trimmed.
pub open spec fn message_dialogue(m: MessageView) -> Seq<char> {
    trim(crate::text::join(block_texts(m.content), seq!['\n']))
}

pub open spec fn parts_len(parts: Seq<Seq<char>>) -> nat
    decreases parts.len(),
{
    if parts.len() == 0 {
        0
    } else {
        parts_len(parts.drop_last()) + parts.last().len()
    }
}

/// The `Role: text` lines of the dialogue from message `i` on, after those in
/// `acc`; system messages and messages without words are left out, and the
/// lines stop once they reach [`NAMING_CONTEXT_CHARS`] characters.
pub open spec fn naming_parts(ms: Seq<MessageView>, i: int, acc: Seq<Seq<char>>) -> Seq<Seq<char>>
    decreases ms.len() - i,
{
    if i < 0 || i >= ms.len() {
        acc
    } else {
        match role_label(ms[i].role) {
            None => naming_parts(ms, i + 1, acc),
            Some(label) => {
                let text = message_dialogue(ms[i]);
                if text.len() == 0 {
                    naming_parts(ms, i + 1, acc)
                } else {
                    let acc2 = acc.push(label + ": "@ + text);
                    if parts_len(acc2) >= NAMING_CONTEXT_CHARS {
                        acc2
                    } else {
                        naming_parts(ms, i + 1, acc2)
                    }
                }
            },
        }
    }
}

pub open spec fn naming_head() -> Seq<char> {
    "Conversation so far:\n\n"@
}

pub open spec fn naming_tail() -> Seq<char> {
    "\n\nReply with only a short title for this session."@
}

/// The naming prompt: the dialogue lines, a blank line apart and cut to
/// [`NAMING_CONTEXT_CHARS`] characters, inside a fixed request; `None` when the
/// history has no dialogue.
pub open spec fn spec_naming_prompt(ms: Seq<MessageView>) -> Option<Seq<char>> {
    let parts = naming_parts(ms, 0, Seq::empty());
    if parts.len() == 0 {
        None
    } else {
        let joined = crate::text::join(parts, "\n\n"@);
        let quoted = if joined.len() > NAMING_CONTEXT_CHARS {
            joined.take(NAMING_CONTEXT_CHARS as int)
        } else {
            joined
        };
        Some(naming_head() + quoted + naming_tail())
    }
}

fn message_dialogue_exec(m: &ChatMessage) -> (r: Vec<char>)
    ensures
        r@ == message_dialogue(m@),
{
    let ghost bv = m@.content;
    let mut texts: Vec<Vec<char>> = Vec::new();
    let mut j: usize = 0;
    assert(bv.take(0) =~= Seq::<BlockView>::empty());
    while j < m.content.len()
        invariant
            j <= m.content@.len(),
            bv == m@.content,
            lines_view(texts@) == block_texts(bv.take(j as int)),
        decreases m.content@.len() - j,
    {
        assert(bv.take(j + 1).drop_last() =~= bv.take(j as int));
        assert(bv.take(j + 1).last() == m.content@[j as int]@);
        match &m.content[j] {
            Block::Text { text } => {
                let ghost before = lines_view(texts@);
                let t = chars_of(text.as_str());
                let ghost tv = t@;
                texts.push(t);
                assert(lines_view(texts@) =~= before.push(tv));
            },
            _ => {},
        }
        j = j + 1;
    }
    assert(bv.take(j as int) =~= bv);
    let nl: Vec<char> = vec!['\n'];
    assert(nl@ =~= seq!['\n']);
    let joined = crate::text::join_exec(&texts, nl.as_slice());
    trim_vec(joined.as_slice())
}

proof fn lemma_parts_len_push(parts: Seq<Seq<char>>, p: Seq<char>)
    ensures
        parts_len(parts.push(p)) == parts_len(parts) + p.len(),
{
    assert(parts.push(p).drop_last() =~= parts);
}

/// The prompt that asks a model to name the session, as
/// [`spec_naming_prompt`] says.
pub fn build_naming_prompt(messages: &[ChatMessage]) -> (r: Option<String>)
    ensures
        crate::hunks::opt_string_view(r) == spec_naming_prompt(messages_view(messages@)),
{
    let ghost mv = messages_view(messages@);
    let ghost goal = naming_parts(mv, 0, Seq::empty());
    let mut parts: Vec<Vec<char>> = Vec::new();
    let mut total: u128 = 0;
    let mut done = false;
    let mut i: usize = 0;
    assert(lines_view(parts@) =~= Seq::<Seq<char>>::empty());
    while i < messages.len() && !done
        invariant
            i <= messages@.len(),
            mv == messages_view(messages@),
            goal == naming_parts(mv, 0, Seq::empty()),
            total == parts_len(lines_view(parts@)),
            !done ==> total < NAMING_CONTEXT_CHARS,
            !done ==> goal == naming_parts(mv, i as int, lines_view(parts@)),
            done ==> goal == lines_view(parts@),
        decreases messages@.len() - i,
    {
        let m = &messages[i];
        assert(mv[i as int] == m@);
        let label = match m.role {
            Role::User => Some("User"),
            Role::Assistant => Some("Assistant"),
            Role::System => None,
        };
        match label {
            None => {},
            Some(l) => {
                let text = message_dialogue_exec(m);
                if text.len() > 0 {
                    let mut part = chars_of(l);
                    let sep = chars_of(": ");
                    append_chars(&mut part, sep.as_slice());
                    append_chars(&mut part, text.as_slice());
                    let ghost before = lines_view(parts@);
                    let ghost pv = part@;
                    let n = part.len();
                    parts.push(part);
                    proof {
                        assert(lines_view(parts@) =~= before.push(pv));
                        lemma_parts_len_push(before, pv);
                    }
                    total = total + n as u128;
                    if total >= NAMING_CONTEXT_CHARS as u128 {
                        done = true;
                    }
                }
            },
        }
        i = i + 1;
    }
    if parts.len() == 0 {
        return None;
    }
    let sep: Vec<char> = vec!['\n', '\n'];
    proof {
        reveal_strlit("\n\n");
        assert(sep@ =~= "\n\n"@);
    }
    let joined = crate::text::join_exec(&parts, sep.as_slice());
    let quoted = if joined.len() > NAMING_CONTEXT_CHARS {
        vstd::slice::slice_to_vec(&joined.as_slice()[0..NAMING_CONTEXT_CHARS])
    } else {
        joined
    };
    let mut out = chars_of("Conversation so far:\n\n");
    append_chars(&mut out, quoted.as_slice());
    let tail = chars_of("\n\nReply with only a short title for this session.");
    append_chars(&mut out, tail.as_slice());
    Some(string_of(out.as_slice()))
}

/// The naming prompt stays bounded however long the history: at most
/// [`NAMING_CONTEXT_CHARS`] characters of dialogue inside the fixed request.
pub proof fn lemma_naming_prompt_bounded(ms: Seq<MessageView>)
    ensures
        spec_naming_prompt(ms) matches Some(p) ==> p.len() <= NAMING_CONTEXT_CHARS + 71,
{
    reveal_strlit("Conversation so far:\n\n");
    reveal_strlit("\n\nReply with only a short title for this session.");
}

// ---------------------------------------------------------------------------
// Counting without a bound known in advance
// ---------------------------------------------------------------------------

fn checked_block_chars(b: &Block) -> (r: Option<usize>)
    ensures
        match r {
            Some(n) => n == block_chars(b@),
            None => block_chars(b@) > usize::MAX,
        },
{
    match b {
        Block::Text { text } => Some(text_len(text)),
        Block::Thinking { thinking } => Some(text_len(thinking)),
        Block::ToolResult { content, .. } => Some(text_len(content)),
        Block::ToolUse { name, input, .. } => {
            let j = json_to_text(input);
            text_len(name).checked_add(text_len(&j))
        },
        Block::Image { .. } => Some(800),
    }
}

fn checked_blocks_chars(bs: &Vec<Block>) -> (r: Option<usize>)
    ensures
        match r {
            Some(n) => n == blocks_chars(blocks_view(bs@)),
            None => blocks_chars(blocks_view(bs@)) > usize::MAX,
        },
{
    let ghost bv = blocks_view(bs@);
    let mut total: usize = 0;
    let mut j: usize = 0;
    assert(bv.take(0) =~= Seq::<BlockView>::empty());
    while j < bs.len()
        invariant
            j <= bs@.len(),
            bv == blocks_view(bs@),
            total == blocks_chars(bv.take(j as int)),
        decreases bs@.len() - j,
    {
        proof {
            assert(bv.take(j + 1).drop_last() =~= bv.take(j as int));
            assert(bv.take(j + 1).last() == bv[j as int]);
            lemma_blocks_chars_prefix(bv, j + 1);
        }
        match checked_block_chars(&bs[j]) {
            Some(n) => match total.checked_add(n) {
                Some(t) => {
                    total = t;
                },
                None => {
                    return None;
                },
            },
            None => {
                return None;
            },
        }
        j = j + 1;
    }
    assert(bv.take(j as int) =~= bv);
    Some(total)
}

/// The characters a history counts for its token estimate (as
/// [`history_chars`] says), where the count fits a `usize`; `None` where it
/// does not.
pub fn count_history_chars(messages: &[ChatMessage]) -> (r: Option<usize>)
    ensures
        match r {
            Some(n) => n == history_chars(messages_view(messages@)),
            None => history_chars(messages_view(messages@)) > usize::MAX,
        },
{
    let ghost mv = messages_view(messages@);
    let mut total: usize = 0;
    let mut i: usize = 0;
    assert(mv.take(0) =~= Seq::<MessageView>::empty());
    while i < messages.len()
        invariant
            i <= messages@.len(),
            mv == messages_view(messages@),
            total == history_chars(mv.take(i as int)),
        decreases messages@.len() - i,
    {
        proof {
            assert(mv.take(i + 1).drop_last() =~= mv.take(i as int));
            assert(mv.take(i + 1).last() == mv[i as int]);
            lemma_history_chars_prefix(mv, i + 1);
        }
        match checked_blocks_chars(&messages[i].content) {
            Some(n) => match total.checked_add(n) {
                Some(t) => {
                    total = t;
                },
                None => {
                    return None;
                },
            },
            None => {
                return None;
            },
        }
        i = i + 1;
    }
    assert(mv.take(i as int) =~= mv);
    Some(total)
}

/// The token estimate of a history (as [`estimate_tokens`] says), where its
/// character count fits a `usize`; `None` where it does not.
pub fn try_estimate_tokens(messages: &[ChatMessage]) -> (r: Option<usize>)
    ensures
        match r {
            Some(n) => history_chars(messages_view(messages@)) <= usize::MAX && n == spec_estimate_tokens(
                messages_view(messages@),
            ),
            None => history_chars(messages_view(messages@)) > usize::MAX,
        },
{
    match count_history_chars(messages) {
        Some(n) => Some(n / 2),
        None => None,
    }
}

/// Whether the anchor's estimate of a history fits a `usize`, as
/// [`anchor_fits_opt`] says.
fn anchor_fits_exec(anchor: Option<TokenAnchor>, messages: &[ChatMessage]) -> (b: bool)
    requires
        history_chars(messages_view(messages@)) <= usize::MAX,
    ensures
        b == anchor_fits_opt(anchor, messages_view(messages@)),
{
    match anchor {
        None => true,
        Some(a) => {
            if messages.len() < a.covered {
                return true;
            }
            let rest = &messages[a.covered..messages.len()];
            proof {
                let mv = messages_view(messages@);
                assert(messages_view(rest@) =~= mv.skip(a.covered as int));
                lemma_history_chars_suffix(mv, a.covered as int);
            }
            a.tokens.checked_add(estimate_tokens(rest)).is_some()
        },
    }
}

impl TokenAnchor {
    /// The anchor's estimate of a history (as [`TokenAnchor::estimate`]
    /// says), where the counts fit a `usize`; `None` where they do not.
    pub fn try_estimate(&self, messages: &[ChatMessage]) -> (r: Option<Option<usize>>)
        ensures
            match r {
                Some(e) => history_chars(messages_view(messages@)) <= usize::MAX && anchor_fits(
                    *self,
                    messages_view(messages@),
                ) && match e {
                    Some(n) => spec_anchor_estimate(*self, messages_view(messages@)) == Some(n as nat),
                    None => spec_anchor_estimate(*self, messages_view(messages@)) is None,
                },
                None => !(history_chars(messages_view(messages@)) <= usize::MAX && anchor_fits(
                    *self,
                    messages_view(messages@),
                )),
            },
    {
        match count_history_chars(messages) {
            None => None,
            Some(_) => if anchor_fits_exec(Some(*self), messages) {
                Some(self.estimate(messages))
            } else {
                None
            },
        }
    }
}

/// Compacts a history (as [`compact_messages`] says) where its counts fit a
/// `usize`, and says so; else leaves it as it is and returns `false`.
pub fn try_compact_messages(messages: &mut Vec<ChatMessage>, context_len: usize, anchor: Option<TokenAnchor>) -> (done:
    bool)
    ensures
        done == (history_chars(messages_view(old(messages)@)) <= usize::MAX && anchor_fits_opt(
            anchor,
            messages_view(old(messages)@),
        )),
        done ==> messages_view(final(messages)@) == spec_compact(
            messages_view(old(messages)@),
            context_len as nat,
            anchor,
        ),
        !done ==> final(messages)@ == old(messages)@,
{
    match count_history_chars(messages.as_slice()) {
        None => false,
        Some(_) => if anchor_fits_exec(anchor, messages.as_slice()) {
            compact_messages(messages, context_len, anchor);
            true
        } else {
            false
        },
    }
}

} // verus!
