//! One session's conversation tree as it is kept on disk: a header and a log
//! of entries (messages, renames, model and reasoning changes, and custom
//! markers such as the current leaf). Everything a reader needs — the
//! current leaf, the title, the session record, the active branch — is
//! derived from the log; every change appends to it.
use vstd::prelude::*;

use chrono::TimeZone;

use crate::json::{json_get, opt_str, opt_u64, JsonNumber, JsonValue};
use crate::message::{blocks_view, messages_view, Block, BlockView, ChatMessage, MessageView, Role};
use crate::storage::{join_model, spec_join_model, SessionRecord};
use crate::text::{chars_of, string_of};

verus! {

// ---------------------------------------------------------------------------
// Time stamps and entry ids
// ---------------------------------------------------------------------------

/// The milliseconds since the epoch of an RFC 3339 time stamp, as
/// `chrono::DateTime::parse_from_rfc3339` reads it; `None` when it does not
/// parse.
pub uninterp spec fn rfc3339_millis(s: Seq<char>) -> Option<i64>;

/// `chrono::DateTime::parse_from_rfc3339` followed by `timestamp_millis`. The
/// result is named by [`rfc3339_millis`]: it depends on the text alone; the
/// RFC 3339 grammar is not spelled out.
#[verifier::external_body]
fn parse_rfc3339_millis(s: &str) -> (r: Option<i64>)
    ensures
        r == rfc3339_millis(s@),
{
    match chrono::DateTime::parse_from_rfc3339(s) {
        Ok(d) => Some(d.timestamp_millis()),
        Err(_) => None,
    }
}

/// The RFC 3339 text (UTC, milliseconds, `Z`) of a time in milliseconds since
/// the epoch; `None` when chrono has no such time.
pub uninterp spec fn rfc3339_of_millis(ms: i64) -> Option<Seq<char>>;

/// `Utc.timestamp_millis_opt(ms).single()` shown with
/// `to_rfc3339_opts(SecondsFormat::Millis, true)`. The result is named by
/// [`rfc3339_of_millis`]; the calendar arithmetic is not spelled out.
#[verifier::external_body]
fn millis_rfc3339(ms: i64) -> (r: Option<String>)
    ensures
        match r {
            Some(t) => rfc3339_of_millis(ms) == Some(t@),
            None => rfc3339_of_millis(ms) is None,
        },
{
    match chrono::Utc.timestamp_millis_opt(ms).single() {
        Some(d) => Some(d.to_rfc3339_opts(chrono::SecondsFormat::Millis, true)),
        None => None,
    }
}

/// `Utc::now()` shown with `to_rfc3339_opts(SecondsFormat::Millis, true)`.
/// It depends on the clock; nothing is stated of it.
#[verifier::external_body]
fn now_rfc3339() -> (r: String) {
    chrono::Utc::now().to_rfc3339_opts(chrono::SecondsFormat::Millis, true)
}

/// `Utc::now().timestamp_millis()`. It depends on the clock; nothing is stated
/// of it.
#[verifier::external_body]
pub(crate) fn now_millis() -> (r: i64) {
    chrono::Utc::now().timestamp_millis()
}

/// `uuid::Uuid::new_v4().to_string()`: a random id; what is stated is the
/// length of its hyphenated form.
#[verifier::external_body]
pub(crate) fn new_entry_id() -> (r: String)
    ensures
        r@.len() == 36,
{
    uuid::Uuid::new_v4().to_string()
}

/// A stored time stamp in milliseconds; 0 when it does not parse.
pub open spec fn ms_from_iso(s: Seq<char>) -> i64 {
    match rfc3339_millis(s) {
        Some(m) => m,
        None => 0,
    }
}

pub fn ms_from_iso_exec(s: &str) -> (r: i64)
    ensures
        r == ms_from_iso(s@),
{
    match parse_rfc3339_millis(s) {
        Some(m) => m,
        None => 0,
    }
}

/// The stored time stamp of a time in milliseconds; a time that chrono cannot
/// represent is stamped with the current time instead.
pub fn iso_from_ms(ms: i64) -> (r: String)
    ensures
        rfc3339_of_millis(ms) matches Some(t) ==> r@ == t,
{
    match millis_rfc3339(ms) {
        Some(t) => t,
        None => now_rfc3339(),
    }
}

// ---------------------------------------------------------------------------
// The log
// ---------------------------------------------------------------------------

/// The version that a new session's header records.
pub const SESSION_VERSION: u32 = 3;

/// The custom entry that moves the current leaf.
pub open spec fn custom_leaf() -> Seq<char> {
    "oma.leaf"@
}

/// The custom entry that records the context usage.
pub open spec fn custom_context_usage() -> Seq<char> {
    "oma.context_usage"@
}

/// The custom entry that records agent settings.
pub open spec fn custom_settings() -> Seq<char> {
    "oma.settings"@
}

/// A session's header: the first line of its log, outside the tree.
#[derive(Debug)]
pub struct SessionHeader {
    pub id: String,
    /// When the session was created (RFC 3339).
    pub timestamp: String,
    /// The workspace.
    pub cwd: String,
    pub model: String,
    pub agent: String,
    pub reasoning_level: String,
}

/// What an entry records.
#[derive(Debug)]
pub enum EntryKind {
    Message { role: Role, content: Vec<Block>, created_at: i64 },
    SessionInfo { name: String },
    ModelChange { provider: String, model_id: String },
    ThinkingLevelChange { thinking_level: String },
    Custom { custom_type: String, data: JsonValue },
}

/// One entry of a session's log: a node of the tree.
#[derive(Debug)]
pub struct Entry {
    pub id: String,
    pub parent_id: Option<String>,
    /// When it was written (RFC 3339).
    pub timestamp: String,
    pub kind: EntryKind,
}

/// A session: its header and its log.
#[derive(Debug)]
pub struct SessionStore {
    pub header: SessionHeader,
    pub entries: Vec<Entry>,
}

pub enum KindView {
    Message(Role, Seq<BlockView>, i64),
    SessionInfo(Seq<char>),
    ModelChange(Seq<char>, Seq<char>),
    ThinkingLevelChange(Seq<char>),
    Custom(Seq<char>, JsonValue),
}

pub struct StoredEntry {
    pub id: Seq<char>,
    pub parent_id: Option<Seq<char>>,
    pub timestamp: Seq<char>,
    pub kind: KindView,
}

pub open spec fn opt_text(o: Option<String>) -> Option<Seq<char>> {
    match o {
        Some(s) => Some(s@),
        None => None,
    }
}

impl View for Entry {
    type V = StoredEntry;

    open spec fn view(&self) -> StoredEntry {
        StoredEntry {
            id: self.id@,
            parent_id: opt_text(self.parent_id),
            timestamp: self.timestamp@,
            kind: match self.kind {
                EntryKind::Message { role, content, created_at } => KindView::Message(
                    role,
                    blocks_view(content@),
                    created_at,
                ),
                EntryKind::SessionInfo { name } => KindView::SessionInfo(name@),
                EntryKind::ModelChange { provider, model_id } => KindView::ModelChange(
                    provider@,
                    model_id@,
                ),
                EntryKind::ThinkingLevelChange { thinking_level } => KindView::ThinkingLevelChange(
                    thinking_level@,
                ),
                EntryKind::Custom { custom_type, data } => KindView::Custom(custom_type@, data),
            },
        }
    }
}

pub open spec fn entries_view(es: Seq<Entry>) -> Seq<StoredEntry> {
    Seq::new(es.len(), |i: int| es[i]@)
}

/// The current leaf: the last message written, unless a later `oma.leaf`
/// marker moved it (to its `leafId`, or to none when that is not a string).
pub open spec fn leaf_of(es: Seq<StoredEntry>) -> Option<Seq<char>>
    decreases es.len(),
{
    if es.len() == 0 {
        None
    } else {
        let prev = leaf_of(es.drop_last());
        let e = es.last();
        match e.kind {
            KindView::Message(..) => Some(e.id),
            KindView::Custom(ty, data) => if ty == custom_leaf() {
                opt_str(json_get(data, "leafId"@))
            } else {
                prev
            },
            _ => prev,
        }
    }
}

/// The title: the name of the last rename, or empty.
pub open spec fn title_of(es: Seq<StoredEntry>) -> Seq<char>
    decreases es.len(),
{
    if es.len() == 0 {
        Seq::empty()
    } else {
        match es.last().kind {
            KindView::SessionInfo(n) => n,
            _ => title_of(es.drop_last()),
        }
    }
}

/// The last recorded context usage `(tokens, context length, covered)`;
/// `None` when there is none or the last one is not three counts.
pub open spec fn context_usage_of(es: Seq<StoredEntry>) -> Option<(usize, usize, usize)>
    decreases es.len(),
{
    if es.len() == 0 {
        None
    } else {
        match es.last().kind {
            KindView::Custom(ty, data) => if ty == custom_context_usage() {
                match (
                    opt_u64(json_get(data, "tokens"@)),
                    opt_u64(json_get(data, "contextLen"@)),
                    opt_u64(json_get(data, "covered"@)),
                ) {
                    (Some(a), Some(b), Some(c)) => Some((a as usize, b as usize, c as usize)),
                    _ => None,
                }
            } else {
                context_usage_of(es.drop_last())
            },
            _ => context_usage_of(es.drop_last()),
        }
    }
}

fn is_text(t: &String, lit: &str) -> (b: bool)
    ensures
        b == (t@ == lit@),
{
    let l = lit.to_owned();
    *t == l
}

impl SessionStore {
    /// The current leaf, as [`leaf_of`] says.
    pub fn leaf(&self) -> (r: Option<String>)
        ensures
            opt_text(r) == leaf_of(entries_view(self.entries@)),
    {
        let ghost ev = entries_view(self.entries@);
        let mut leaf: Option<String> = None;
        let mut i: usize = 0;
        assert(ev.take(0) =~= Seq::<StoredEntry>::empty());
        while i < self.entries.len()
            invariant
                i <= self.entries@.len(),
                ev == entries_view(self.entries@),
                opt_text(leaf) == leaf_of(ev.take(i as int)),
            decreases self.entries@.len() - i,
        {
            assert(ev.take(i + 1).drop_last() =~= ev.take(i as int));
            assert(ev.take(i + 1).last() == self.entries@[i as int]@);
            let e = &self.entries[i];
            match &e.kind {
                EntryKind::Message { .. } => {
                    leaf = Some(e.id.clone());
                },
                EntryKind::Custom { custom_type, data } => {
                    if is_text(custom_type, "oma.leaf") {
                        leaf = match data.get("leafId") {
                            Some(v) => match v.as_str() {
                                Some(s) => Some(s.to_owned()),
                                None => None,
                            },
                            None => None,
                        };
                    }
                },
                _ => {},
            }
            i = i + 1;
        }
        assert(ev.take(i as int) =~= ev);
        leaf
    }

    /// The title, as [`title_of`] says.
    pub fn title(&self) -> (r: String)
        ensures
            r@ == title_of(entries_view(self.entries@)),
    {
        let ghost ev = entries_view(self.entries@);
        let mut i = self.entries.len();
        assert(ev.take(i as int) =~= ev);
        while i > 0
            invariant
                i <= self.entries@.len(),
                ev == entries_view(self.entries@),
                title_of(ev) == title_of(ev.take(i as int)),
            decreases i,
        {
            assert(ev.take(i as int).drop_last() =~= ev.take(i - 1));
            assert(ev.take(i as int).last() == self.entries@[i - 1]@);
            match &self.entries[i - 1].kind {
                EntryKind::SessionInfo { name } => {
                    return name.clone();
                },
                _ => {},
            }
            i = i - 1;
        }
        String::new()
    }

    /// The last recorded context usage, as [`context_usage_of`] says.
    pub fn context_usage(&self) -> (r: Option<(usize, usize, usize)>)
        ensures
            r == context_usage_of(entries_view(self.entries@)),
    {
        let ghost ev = entries_view(self.entries@);
        let mut i = self.entries.len();
        assert(ev.take(i as int) =~= ev);
        while i > 0
            invariant
                i <= self.entries@.len(),
                ev == entries_view(self.entries@),
                context_usage_of(ev) == context_usage_of(ev.take(i as int)),
            decreases i,
        {
            assert(ev.take(i as int).drop_last() =~= ev.take(i - 1));
            assert(ev.take(i as int).last() == self.entries@[i - 1]@);
            match &self.entries[i - 1].kind {
                EntryKind::Custom { custom_type, data } => {
                    if is_text(custom_type, "oma.context_usage") {
                        let a = match data.get("tokens") {
                            Some(v) => v.as_u64(),
                            None => None,
                        };
                        let b = match data.get("contextLen") {
                            Some(v) => v.as_u64(),
                            None => None,
                        };
                        let c = match data.get("covered") {
                            Some(v) => v.as_u64(),
                            None => None,
                        };
                        return match (a, b, c) {
                            (Some(a), Some(b), Some(c)) => Some((a as usize, b as usize, c as usize)),
                            _ => None,
                        };
                    }
                },
                _ => {},
            }
            i = i - 1;
        }
        None
    }
}


/// What the log tells of a session beyond its header.
pub struct RecordFold {
    pub title: Seq<char>,
    pub model: Seq<char>,
    pub agent: Seq<char>,
    pub reasoning: Seq<char>,
    pub updated: i64,
}

/// Renames, model and reasoning changes and agent settings applied in order;
/// the update time is the latest entry time seen.
pub open spec fn record_fold(es: Seq<StoredEntry>, init: RecordFold) -> RecordFold
    decreases es.len(),
{
    if es.len() == 0 {
        init
    } else {
        let r = record_fold(es.drop_last(), init);
        let e = es.last();
        let t = ms_from_iso(e.timestamp);
        let u = if r.updated >= t {
            r.updated
        } else {
            t
        };
        match e.kind {
            KindView::SessionInfo(n) => RecordFold { title: n, updated: u, ..r },
            KindView::ModelChange(p, m) => RecordFold { model: spec_join_model(p, m), updated: u, ..r },
            KindView::ThinkingLevelChange(l) => RecordFold { reasoning: l, updated: u, ..r },
            KindView::Custom(ty, data) => if ty == custom_settings() && opt_str(
                json_get(data, "agent"@),
            ) is Some {
                RecordFold { agent: opt_str(json_get(data, "agent"@))->0, updated: u, ..r }
            } else {
                RecordFold { updated: u, ..r }
            },
            _ => RecordFold { updated: u, ..r },
        }
    }
}

/// The fold for a session, starting from its header.
pub open spec fn session_fold(header: SessionHeader, es: Seq<StoredEntry>) -> RecordFold {
    record_fold(
        es,
        RecordFold {
            title: Seq::empty(),
            model: header.model@,
            agent: header.agent@,
            reasoning: header.reasoning_level@,
            updated: ms_from_iso(header.timestamp@),
        },
    )
}

/// The record of a session, as the log tells it.
pub open spec fn record_meets(r: SessionRecord, header: SessionHeader, es: Seq<StoredEntry>) -> bool {
    let f = session_fold(header, es);
    &&& r.session_id@ == header.id@
    &&& r.workspace@ == header.cwd@
    &&& r.title@ == f.title
    &&& r.active_model@ == f.model
    &&& r.active_agent@ == f.agent
    &&& r.reasoning_level@ == f.reasoning
    &&& opt_text(r.current_leaf_id) == leaf_of(es)
    &&& r.created_at == ms_from_iso(header.timestamp@)
    &&& r.updated_at == f.updated
    &&& !r.is_running
}

/// The messages of the log, in the order written.
pub open spec fn messages_of(es: Seq<StoredEntry>) -> Seq<MessageView>
    decreases es.len(),
{
    if es.len() == 0 {
        Seq::empty()
    } else {
        let m = messages_of(es.drop_last());
        let e = es.last();
        match e.kind {
            KindView::Message(role, content, at) => m.push(
                MessageView { id: e.id, parent_id: e.parent_id, role, content, created_at: at },
            ),
            _ => m,
        }
    }
}

/// The index of the last message with this id (a later one shadows an
/// earlier one with the same id).
pub open spec fn last_with_id(ms: Seq<MessageView>, id: Seq<char>) -> Option<int>
    decreases ms.len(),
{
    if ms.len() == 0 {
        None
    } else if ms.last().id == id {
        Some(ms.len() - 1)
    } else {
        last_with_id(ms.drop_last(), id)
    }
}

/// The indices from the message with id `cur` up through its ancestors,
/// leaf first; a message is used once, so a cycle ends the walk. `fuel`
/// bounds the steps (the number of messages is always enough).
pub open spec fn branch_chain(ms: Seq<MessageView>, cur: Option<Seq<char>>, used: Set<int>, fuel: nat) -> Seq<
    int,
>
    decreases fuel,
{
    if fuel == 0 {
        Seq::empty()
    } else {
        match cur {
            None => Seq::empty(),
            Some(c) => match last_with_id(ms, c) {
                None => Seq::empty(),
                Some(k) => if used.contains(k) {
                    Seq::empty()
                } else {
                    seq![k] + branch_chain(ms, ms[k].parent_id, used.insert(k), (fuel - 1) as nat)
                },
            },
        }
    }
}

/// The branch that ends at `target`, from its root down: what the chat shows.
pub open spec fn spec_linear(ms: Seq<MessageView>, target: Option<Seq<char>>) -> Seq<MessageView> {
    let c = branch_chain(ms, target, Set::empty(), ms.len());
    Seq::new(c.len(), |i: int| ms[c[c.len() - 1 - i]])
}

proof fn lemma_last_with_id(ms: Seq<MessageView>, id: Seq<char>)
    ensures
        last_with_id(ms, id) matches Some(k) ==> 0 <= k < ms.len() && ms[k].id == id,
    decreases ms.len(),
{
    if ms.len() > 0 && ms.last().id != id {
        lemma_last_with_id(ms.drop_last(), id);
    }
}

/// The chain's indices are messages of the history, not already used, and
/// all different.
proof fn lemma_chain_indices(ms: Seq<MessageView>, cur: Option<Seq<char>>, used: Set<int>, fuel: nat)
    ensures
        forall|i: int|
            0 <= i < branch_chain(ms, cur, used, fuel).len() ==> 0 <= #[trigger] branch_chain(
                ms,
                cur,
                used,
                fuel,
            )[i] < ms.len() && !used.contains(branch_chain(ms, cur, used, fuel)[i]),
        forall|i: int, j: int|
            0 <= i < j < branch_chain(ms, cur, used, fuel).len() ==> #[trigger] branch_chain(
                ms,
                cur,
                used,
                fuel,
            )[i] != #[trigger] branch_chain(ms, cur, used, fuel)[j],
    decreases fuel,
{
    if fuel > 0 && cur is Some {
        let cv = cur->0;
        lemma_last_with_id(ms, cv);
        if last_with_id(ms, cv) is Some && !used.contains(last_with_id(ms, cv)->0) {
            let k = last_with_id(ms, cv)->0;
            let u2 = used.insert(k);
            let rest = branch_chain(ms, ms[k].parent_id, u2, (fuel - 1) as nat);
            lemma_chain_indices(ms, ms[k].parent_id, u2, (fuel - 1) as nat);
            let c = branch_chain(ms, cur, used, fuel);
            assert(c =~= seq![k] + rest);
            assert forall|i: int| 0 <= i < c.len() implies 0 <= #[trigger] c[i] < ms.len() && !used.contains(
                c[i],
            ) by {
                if i > 0 {
                    assert(c[i] == rest[i - 1]);
                    assert(!u2.contains(rest[i - 1]));
                }
            }
            assert forall|i: int, j: int| 0 <= i < j < c.len() implies #[trigger] c[i] != #[trigger] c[j] by {
                assert(c[j] == rest[j - 1]);
                assert(!u2.contains(rest[j - 1]));
                if i > 0 {
                    assert(c[i] == rest[i - 1]);
                }
            }
        }
    }
}

/// The chain starts at the message with id `cur`; each message in it names
/// the next as its parent.
#[verifier::spinoff_prover]
#[verifier::rlimit(40)]
proof fn lemma_chain_links(ms: Seq<MessageView>, cur: Option<Seq<char>>, used: Set<int>, fuel: nat)
    ensures
        branch_chain(ms, cur, used, fuel).len() > 0 ==> cur == Some(
            ms[branch_chain(ms, cur, used, fuel)[0]].id,
        ),
        forall|i: int|
            0 <= i < branch_chain(ms, cur, used, fuel).len() - 1 ==> ms[#[trigger] branch_chain(
                ms,
                cur,
                used,
                fuel,
            )[i]].parent_id == Some(ms[branch_chain(ms, cur, used, fuel)[i + 1]].id),
    decreases fuel,
{
    if fuel > 0 && cur is Some {
        let cv = cur->0;
        lemma_last_with_id(ms, cv);
        if last_with_id(ms, cv) is Some && !used.contains(last_with_id(ms, cv)->0) {
            let k = last_with_id(ms, cv)->0;
            let u2 = used.insert(k);
            let rest = branch_chain(ms, ms[k].parent_id, u2, (fuel - 1) as nat);
            lemma_chain_links(ms, ms[k].parent_id, u2, (fuel - 1) as nat);
            let c = branch_chain(ms, cur, used, fuel);
            assert(c =~= seq![k] + rest);
            assert(c[0] == k);
            assert(ms[k].id == cv);
            assert forall|i: int| 0 <= i < c.len() - 1 implies ms[#[trigger] c[i]].parent_id == Some(
                ms[c[i + 1]].id,
            ) by {
                assert(c[i + 1] == rest[i]);
                if i > 0 {
                    assert(c[i] == rest[i - 1]);
                }
            }
        }
    }
}

/// The active branch is a path of the tree: each message is the parent of
/// the next, and the last one is the requested leaf.
pub proof fn lemma_linear_is_path(ms: Seq<MessageView>, target: Option<Seq<char>>)
    ensures
        forall|i: int|
            0 <= i < spec_linear(ms, target).len() - 1 ==> #[trigger] spec_linear(ms, target)[i
                + 1].parent_id == Some(spec_linear(ms, target)[i].id),
        spec_linear(ms, target).len() > 0 ==> target == Some(spec_linear(ms, target).last().id),
{
    let c = branch_chain(ms, target, Set::empty(), ms.len());
    lemma_chain_links(ms, target, Set::empty(), ms.len());
    let r = spec_linear(ms, target);
    assert forall|i: int| 0 <= i < r.len() - 1 implies #[trigger] r[i + 1].parent_id == Some(r[i].id) by {
        let j = c.len() - 2 - i;
        assert(r[i + 1] == ms[c[j]]);
        assert(r[i] == ms[c[j + 1]]);
    }
}

fn last_with_id_exec(ms: &Vec<ChatMessage>, id: &String) -> (r: Option<usize>)
    ensures
        match r {
            Some(k) => last_with_id(messages_view(ms@), id@) == Some(k as int),
            None => last_with_id(messages_view(ms@), id@) is None,
        },
{
    let ghost mv = messages_view(ms@);
    let mut i = ms.len();
    assert(mv.take(i as int) =~= mv);
    while i > 0
        invariant
            i <= ms@.len(),
            mv == messages_view(ms@),
            last_with_id(mv, id@) == last_with_id(mv.take(i as int), id@),
        decreases i,
    {
        assert(mv.take(i as int).drop_last() =~= mv.take(i - 1));
        assert(mv.take(i as int).last() == ms@[i - 1]@);
        if ms[i - 1].id == *id {
            return Some(i - 1);
        }
        i = i - 1;
    }
    None
}

/// The branch that ends at `target`, as [`spec_linear`] says; the messages
/// are moved out of `ms`.
fn linear_exec(ms: Vec<ChatMessage>, target: Option<String>) -> (r: Vec<ChatMessage>)
    ensures
        messages_view(r@) == spec_linear(messages_view(ms@), opt_text(target)),
{
    let ghost mv = messages_view(ms@);
    let n = ms.len();
    let mut used: Vec<bool> = Vec::new();
    let mut z: usize = 0;
    while z < n
        invariant
            z <= n,
            used@.len() == z,
            forall|q: int| 0 <= q < z ==> !used@[q],
        decreases n - z,
    {
        used.push(false);
        z = z + 1;
    }
    let ghost mut uset: Set<int> = Set::empty();
    let ghost full = branch_chain(mv, opt_text(target), Set::empty(), n as nat);
    let mut chain: Vec<usize> = Vec::new();
    let mut cur: Option<String> = target;
    let mut fuel: usize = n;
    loop
        invariant_except_break
            fuel <= n,
            used@.len() == n,
            n == ms@.len(),
            mv == messages_view(ms@),
            forall|q: int| 0 <= q < n ==> (used@[q] <==> uset.contains(q)),
            full == branch_chain(mv, opt_text(target), Set::empty(), n as nat),
            full == chain@.map_values(|k: usize| k as int) + branch_chain(mv, opt_text(cur), uset, fuel as nat),
        ensures
            full == chain@.map_values(|k: usize| k as int),
            mv == messages_view(ms@),
            n == ms@.len(),
        decreases fuel,
    {
        if fuel == 0 {
            assert(chain@.map_values(|k: usize| k as int) + Seq::<int>::empty() =~= chain@.map_values(|k: usize| k as int));
            break;
        }
        let c = match cur {
            None => {
                assert(chain@.map_values(|k: usize| k as int) + Seq::<int>::empty() =~= chain@.map_values(|k: usize| k as int));
                break;
            },
            Some(c) => c,
        };
        proof {
            lemma_last_with_id(mv, c@);
        }
        match last_with_id_exec(&ms, &c) {
            None => {
                assert(chain@.map_values(|k: usize| k as int) + Seq::<int>::empty() =~= chain@.map_values(|k: usize| k as int));
                break;
            },
            Some(k) => {
                if used[k] {
                    assert(chain@.map_values(|k: usize| k as int) + Seq::<int>::empty() =~= chain@.map_values(|k: usize| k as int));
                    break;
                }
                used.set(k, true);
                let ghost before = chain@.map_values(|k: usize| k as int);
                chain.push(k);
                proof {
                    assert(chain@.map_values(|k: usize| k as int) =~= before.push(k as int));
                    assert(before + (seq![k as int] + branch_chain(mv, mv[k as int].parent_id, uset.insert(k as int), (fuel - 1) as nat))
                        =~= before.push(k as int) + branch_chain(mv, mv[k as int].parent_id, uset.insert(k as int), (fuel - 1) as nat));
                    uset = uset.insert(k as int);
                }
                cur = match &ms[k].parent_id {
                    Some(p) => Some(p.clone()),
                    None => None,
                };
                assert(opt_text(cur) == mv[k as int].parent_id);
                fuel = fuel - 1;
            },
        }
    }
    proof {
        lemma_chain_indices(mv, opt_text(target), Set::empty(), n as nat);
    }
    let mut ms = ms;
    let mut out: Vec<ChatMessage> = Vec::new();
    let mut j = chain.len();
    let ghost cl = chain@.len();
    while j > 0
        invariant
            j <= cl,
            cl == chain@.len(),
            full == chain@.map_values(|k: usize| k as int),
            ms@.len() == n,
            n == mv.len(),
            forall|i: int| 0 <= i < full.len() ==> 0 <= #[trigger] full[i] < n,
            forall|a: int, b: int| 0 <= a < b < full.len() ==> #[trigger] full[a] != #[trigger] full[b],
            forall|i: int| 0 <= i < j ==> #[trigger] ms@[full[i]]@ == mv[full[i]],
            out@.len() == cl - j,
            forall|i: int| 0 <= i < cl - j ==> #[trigger] out@[i]@ == mv[full[cl - 1 - i]],
        decreases j,
    {
        j = j - 1;
        let k = chain[j];
        assert(full[j as int] == k as int);
        let mut m = ChatMessage {
            id: String::new(),
            parent_id: None,
            role: Role::User,
            content: Vec::new(),
            created_at: 0,
        };
        ms.set_and_swap(k, &mut m);
        assert(m@ == mv[k as int]);
        out.push(m);
        assert forall|i: int| 0 <= i < j implies #[trigger] ms@[full[i]]@ == mv[full[i]] by {
            assert(full[i] != full[j as int]);
        }
    }
    assert(messages_view(out@) =~= spec_linear(mv, opt_text(target)));
    out
}

impl SessionStore {
    /// The session's record, as [`record_meets`] says.
    pub fn record(&self) -> (r: SessionRecord)
        ensures
            record_meets(r, self.header, entries_view(self.entries@)),
    {
        let ghost ev = entries_view(self.entries@);
        let created = ms_from_iso_exec(self.header.timestamp.as_str());
        let mut title = String::new();
        let mut model = self.header.model.clone();
        let mut agent = self.header.agent.clone();
        let mut reasoning = self.header.reasoning_level.clone();
        let mut updated = created;
        let ghost init = RecordFold {
            title: Seq::empty(),
            model: self.header.model@,
            agent: self.header.agent@,
            reasoning: self.header.reasoning_level@,
            updated: ms_from_iso(self.header.timestamp@),
        };
        let mut i: usize = 0;
        assert(ev.take(0) =~= Seq::<StoredEntry>::empty());
        while i < self.entries.len()
            invariant
                i <= self.entries@.len(),
                ev == entries_view(self.entries@),
                init == (RecordFold {
                    title: Seq::empty(),
                    model: self.header.model@,
                    agent: self.header.agent@,
                    reasoning: self.header.reasoning_level@,
                    updated: ms_from_iso(self.header.timestamp@),
                }),
                record_fold(ev.take(i as int), init) == (RecordFold {
                    title: title@,
                    model: model@,
                    agent: agent@,
                    reasoning: reasoning@,
                    updated,
                }),
            decreases self.entries@.len() - i,
        {
            assert(ev.take(i + 1).drop_last() =~= ev.take(i as int));
            assert(ev.take(i + 1).last() == self.entries@[i as int]@);
            let e = &self.entries[i];
            let t = ms_from_iso_exec(e.timestamp.as_str());
            if updated < t {
                updated = t;
            }
            match &e.kind {
                EntryKind::SessionInfo { name } => {
                    title = name.clone();
                },
                EntryKind::ModelChange { provider, model_id } => {
                    model = join_model(provider.as_str(), model_id.as_str());
                },
                EntryKind::ThinkingLevelChange { thinking_level } => {
                    reasoning = thinking_level.clone();
                },
                EntryKind::Custom { custom_type, data } => {
                    if is_text(custom_type, "oma.settings") {
                        match data.get("agent") {
                            Some(v) => match v.as_str() {
                                Some(a) => {
                                    agent = a.to_owned();
                                },
                                None => {},
                            },
                            None => {},
                        }
                    }
                },
                _ => {},
            }
            i = i + 1;
        }
        assert(ev.take(i as int) =~= ev);
        SessionRecord {
            session_id: self.header.id.clone(),
            workspace: self.header.cwd.clone(),
            title,
            active_model: model,
            active_agent: agent,
            reasoning_level: reasoning,
            current_leaf_id: self.leaf(),
            created_at: created,
            updated_at: updated,
            is_running: false,
        }
    }

    /// The messages of the log, in the order written, moved out of the store.
    pub fn into_messages(self) -> (r: Vec<ChatMessage>)
        ensures
            messages_view(r@) == messages_of(entries_view(self.entries@)),
    {
        let ghost all = entries_view(self.entries@);
        let mut es = self.entries;
        let mut out: Vec<ChatMessage> = Vec::new();
        let ghost mut k: int = 0;
        assert(all.skip(0) =~= all);
        assert(all.take(0) =~= Seq::<StoredEntry>::empty());
        while es.len() > 0
            invariant
                0 <= k <= all.len(),
                es@.len() + k == all.len(),
                entries_view(es@) == all.skip(k),
                messages_view(out@) == messages_of(all.take(k)),
            decreases es@.len(),
        {
            let ghost before_es = entries_view(es@);
            let e = es.remove(0);
            proof {
                assert(entries_view(es@) =~= before_es.drop_first());
                assert(all.skip(k).drop_first() =~= all.skip(k + 1));
                assert(entries_view(es@).len() + 1 > 0);
                assert(e@ == all.skip(k)[0]);
                assert(e@ == all[k]);
                assert(all.take(k + 1).drop_last() =~= all.take(k));
                assert(all.take(k + 1).last() == all[k]);
            }
            let ghost before = messages_view(out@);
            let Entry { id, parent_id, timestamp, kind } = e;
            match kind {
                EntryKind::Message { role, content, created_at } => {
                    let m = ChatMessage { id, parent_id, role, content, created_at };
                    let ghost mvw = m@;
                    out.push(m);
                    assert(messages_view(out@) =~= before.push(mvw));
                },
                _ => {},
            }
            proof {
                k = k + 1;
                assert(entries_view(es@) =~= all.skip(k));
            }
        }
        assert(all.take(k) =~= all);
        out
    }

    /// The active branch, from its root down to `leaf_id` (or, without one,
    /// to the current leaf), as [`spec_linear`] says; empty when there is no
    /// leaf.
    pub fn linear_messages(self, leaf_id: Option<&str>) -> (r: Vec<ChatMessage>)
        ensures
            messages_view(r@) == spec_linear(
                messages_of(entries_view(self.entries@)),
                match leaf_id {
                    Some(l) => Some(l@),
                    None => leaf_of(entries_view(self.entries@)),
                },
            ),
    {
        let target = match leaf_id {
            Some(l) => Some(l.to_owned()),
            None => self.leaf(),
        };
        let ms = self.into_messages();
        linear_exec(ms, target)
    }
}


// ---------------------------------------------------------------------------
// Writing to the log
// ---------------------------------------------------------------------------

/// A one-member object.
pub open spec fn single_member(v: JsonValue, key: Seq<char>, value: Option<Seq<char>>) -> bool {
    match v {
        JsonValue::Object(m) => m@.len() == 1 && m@[0].0@ == key && match value {
            Some(t) => (m@[0].1 matches JsonValue::Str(x) && x@ == t),
            None => m@[0].1 is Null,
        },
        _ => false,
    }
}

fn single_member_exec(key: &str, value: Option<&str>) -> (v: JsonValue)
    ensures
        single_member(v, key@, match value {
            Some(t) => Some(t@),
            None => None,
        }),
{
    let mut m: Vec<(String, JsonValue)> = Vec::new();
    let x = match value {
        Some(t) => JsonValue::Str(t.to_owned()),
        None => JsonValue::Null,
    };
    m.push((key.to_owned(), x));
    JsonValue::Object(m)
}

/// A marker that moves the current leaf (to none for `None`).
pub open spec fn leaf_marker(k: KindView, leaf: Option<Seq<char>>) -> bool {
    match k {
        KindView::Custom(ty, data) => ty == custom_leaf() && single_member(data, "leafId"@, leaf),
        _ => false,
    }
}

/// A marker that records the agent.
pub open spec fn settings_marker(k: KindView, agent: Seq<char>) -> bool {
    match k {
        KindView::Custom(ty, data) => ty == custom_settings() && single_member(data, "agent"@, Some(agent)),
        _ => false,
    }
}

/// A marker that records the context usage: an object with `contextLen`,
/// `covered` and `tokens`, in key order.
pub open spec fn usage_marker(k: KindView, tokens: usize, context_len: usize, covered: usize) -> bool {
    match k {
        KindView::Custom(ty, JsonValue::Object(m)) => {
            &&& ty == custom_context_usage()
            &&& m@.len() == 3
            &&& m@[0].0@ == "contextLen"@
            &&& m@[0].1 == JsonValue::Number(JsonNumber::PosInt(context_len as u64))
            &&& m@[1].0@ == "covered"@
            &&& m@[1].1 == JsonValue::Number(JsonNumber::PosInt(covered as u64))
            &&& m@[2].0@ == "tokens"@
            &&& m@[2].1 == JsonValue::Number(JsonNumber::PosInt(tokens as u64))
        },
        _ => false,
    }
}

/// The entry that stores a message: a node under its parent, stamped with the
/// message's time.
pub open spec fn message_entry_meets(e: StoredEntry, m: MessageView) -> bool {
    &&& e.id == m.id
    &&& e.parent_id == m.parent_id
    &&& rfc3339_of_millis(m.created_at) matches Some(t) ==> e.timestamp == t
    &&& e.kind == KindView::Message(m.role, m.content, m.created_at)
}

/// The log entry for a message.
pub fn message_entry(message: ChatMessage) -> (e: Entry)
    ensures
        message_entry_meets(e@, message@),
{
    let ChatMessage { id, parent_id, role, content, created_at } = message;
    Entry {
        id,
        parent_id,
        timestamp: iso_from_ms(created_at),
        kind: EntryKind::Message { role, content, created_at },
    }
}

impl SessionStore {
    /// A new entry under the current leaf, with a fresh id, stamped now.
    fn child_entry(&self, kind: EntryKind) -> (e: Entry)
        ensures
            e@.parent_id == leaf_of(entries_view(self.entries@)),
            e@.id.len() == 36,
            e.kind == kind,
    {
        let now = now_millis();
        Entry { id: new_entry_id(), parent_id: self.leaf(), timestamp: iso_from_ms(now), kind }
    }

    /// The entry that renames the session: under the current leaf.
    pub fn rename_entry(&self, title: &str) -> (e: Entry)
        ensures
            e@.parent_id == leaf_of(entries_view(self.entries@)),
            e@.id.len() == 36,
            e@.kind == KindView::SessionInfo(title@),
    {
        self.child_entry(EntryKind::SessionInfo { name: title.to_owned() })
    }

    /// The rename entry that gives an untitled session its first title;
    /// `None` when the title is blank or the session already has one.
    pub fn title_entry_if_empty(&self, title: &str) -> (r: Option<Entry>)
        ensures
            r is Some <==> !crate::text::is_blank(title@) && title_of(entries_view(self.entries@)).len()
                == 0,
            r matches Some(e) ==> e@.parent_id == leaf_of(entries_view(self.entries@))
                && e@.kind == KindView::SessionInfo(title@),
    {
        let t = chars_of(title);
        if crate::text::is_blank_exec(t.as_slice()) {
            return None;
        }
        let current = self.title();
        if chars_of(current.as_str()).len() > 0 {
            return None;
        }
        Some(self.rename_entry(title))
    }

    /// The entries that change the session's settings, each under the
    /// current leaf: the model (split into provider and id), then the
    /// reasoning level, then the agent.
    pub fn settings_entries(&self, model: Option<&str>, agent: Option<&str>, level: Option<&str>) -> (r: Vec<
        Entry,
    >)
        ensures
            r@.len() == (if model is Some { 1int } else { 0 }) + (if level is Some { 1int } else { 0 }) + (
            if agent is Some {
                1int
            } else {
                0
            }),
            forall|i: int| 0 <= i < r@.len() ==> #[trigger] r@[i]@.parent_id == leaf_of(entries_view(self.entries@)),
            model matches Some(m) ==> r@[0]@.kind == KindView::ModelChange(
                crate::storage::spec_split_model(m@).0,
                crate::storage::spec_split_model(m@).1,
            ),
            level matches Some(l) ==> r@[if model is Some { 1int } else { 0 }]@.kind
                == KindView::ThinkingLevelChange(l@),
            agent matches Some(a) ==> settings_marker(r@[r@.len() - 1]@.kind, a@),
    {
        let mut r: Vec<Entry> = Vec::new();
        match model {
            Some(m) => {
                let (provider, model_id) = crate::storage::split_model(m);
                r.push(self.child_entry(EntryKind::ModelChange { provider, model_id }));
            },
            None => {},
        }
        match level {
            Some(l) => {
                r.push(self.child_entry(EntryKind::ThinkingLevelChange { thinking_level: l.to_owned() }));
            },
            None => {},
        }
        match agent {
            Some(a) => {
                let data = single_member_exec("agent", Some(a));
                r.push(
                    self.child_entry(EntryKind::Custom { custom_type: "oma.settings".to_owned(), data }),
                );
            },
            None => {},
        }
        r
    }

    /// The marker that makes `leaf_id` the current leaf; `NotFound` when the
    /// log holds no message with that id.
    pub fn leaf_entry(&self, session_id: &str, leaf_id: &str) -> (r: Result<Entry, crate::storage::StorageError>)
        ensures
            r is Ok <==> exists|i: int|
                0 <= i < messages_of(entries_view(self.entries@)).len() && #[trigger] messages_of(
                    entries_view(self.entries@),
                )[i].id == leaf_id@,
            r matches Ok(e) ==> (e@.parent_id == Some(leaf_id@) && leaf_marker(e@.kind, Some(leaf_id@))),
            r matches Err(e) ==> e matches crate::storage::StorageError::NotFound(m) && m@ == "message "@
                + leaf_id@ + " in session "@ + session_id@,
    {
        let ghost ms = messages_of(entries_view(self.entries@));
        let ghost ev = entries_view(self.entries@);
        let mut found = false;
        let mut i: usize = 0;
        assert(ev.take(0) =~= Seq::<StoredEntry>::empty());
        while i < self.entries.len()
            invariant
                i <= self.entries@.len(),
                ev == entries_view(self.entries@),
                ms == messages_of(ev),
                found <==> exists|k: int| 0 <= k < messages_of(ev.take(i as int)).len() && #[trigger] messages_of(ev.take(i as int))[k].id == leaf_id@,
            decreases self.entries@.len() - i,
        {
            let ghost before = messages_of(ev.take(i as int));
            assert(ev.take(i + 1).drop_last() =~= ev.take(i as int));
            assert(ev.take(i + 1).last() == self.entries@[i as int]@);
            let e = &self.entries[i];
            let after_found = match &e.kind {
                EntryKind::Message { .. } => found || is_text(&e.id, leaf_id),
                _ => found,
            };
            proof {
                let after = messages_of(ev.take(i + 1));
                if self.entries@[i as int]@.kind is Message {
                    assert(after == before.push(after.last()));
                    assert forall|k: int| 0 <= k < before.len() implies #[trigger] after[k] == before[k] by {}
                    if after_found && !found {
                        assert(after[before.len() as int].id == leaf_id@);
                    }
                    if found {
                        let k = choose|k: int| 0 <= k < before.len() && #[trigger] before[k].id == leaf_id@;
                        assert(after[k].id == leaf_id@);
                    }
                } else {
                    assert(after == before);
                }
            }
            found = after_found;
            i = i + 1;
        }
        assert(ev.take(i as int) =~= ev);
        if !found {
            let mut m = chars_of("message ");
            let l = chars_of(leaf_id);
            crate::text::append_chars(&mut m, l.as_slice());
            let mid = chars_of(" in session ");
            crate::text::append_chars(&mut m, mid.as_slice());
            let sid = chars_of(session_id);
            crate::text::append_chars(&mut m, sid.as_slice());
            return Err(crate::storage::StorageError::NotFound(string_of(m.as_slice())));
        }
        let data = single_member_exec("leafId", Some(leaf_id));
        let now = now_millis();
        Ok(
            Entry {
                id: new_entry_id(),
                parent_id: Some(leaf_id.to_owned()),
                timestamp: iso_from_ms(now),
                kind: EntryKind::Custom { custom_type: "oma.leaf".to_owned(), data },
            },
        )
    }

    /// The entry that records the context usage, under the current leaf: an
    /// object with `contextLen`, `covered` and `tokens` (in key order).
    pub fn context_usage_entry(&self, tokens: usize, context_len: usize, covered: usize) -> (e: Entry)
        ensures
            e@.parent_id == leaf_of(entries_view(self.entries@)),
            usage_marker(e@.kind, tokens, context_len, covered),
    {
        let mut m: Vec<(String, JsonValue)> = Vec::new();
        m.push(("contextLen".to_owned(), JsonValue::Number(JsonNumber::PosInt(context_len as u64))));
        m.push(("covered".to_owned(), JsonValue::Number(JsonNumber::PosInt(covered as u64))));
        m.push(("tokens".to_owned(), JsonValue::Number(JsonNumber::PosInt(tokens as u64))));
        self.child_entry(
            EntryKind::Custom { custom_type: "oma.context_usage".to_owned(), data: JsonValue::Object(m) },
        )
    }

    /// A new session: its header (stamped now) and, for a title that is not
    /// empty, a first rename entry at the root.
    pub fn create(
        session_id: &str,
        workspace: &str,
        title: &str,
        active_model: &str,
        active_agent: &str,
        reasoning_level: &str,
    ) -> (s: SessionStore)
        ensures
            s.header.id@ == session_id@,
            s.header.cwd@ == workspace@,
            s.header.model@ == active_model@,
            s.header.agent@ == active_agent@,
            s.header.reasoning_level@ == reasoning_level@,
            title@.len() == 0 ==> s.entries@.len() == 0,
            title@.len() > 0 ==> s.entries@.len() == 1 && s.entries@[0]@.parent_id is None
                && s.entries@[0]@.kind == KindView::SessionInfo(title@),
    {
        let now = now_millis();
        let header = SessionHeader {
            id: session_id.to_owned(),
            timestamp: iso_from_ms(now),
            cwd: workspace.to_owned(),
            model: active_model.to_owned(),
            agent: active_agent.to_owned(),
            reasoning_level: reasoning_level.to_owned(),
        };
        let mut entries: Vec<Entry> = Vec::new();
        if chars_of(title).len() > 0 {
            entries.push(
                Entry {
                    id: new_entry_id(),
                    parent_id: None,
                    timestamp: iso_from_ms(now),
                    kind: EntryKind::SessionInfo { name: title.to_owned() },
                },
            );
        }
        SessionStore { header, entries }
    }
}


// ---------------------------------------------------------------------------
// Deleting a subtree
// ---------------------------------------------------------------------------

/// The ids of the messages whose parent is `p`, in the order written.
pub open spec fn children_of(ms: Seq<MessageView>, p: Seq<char>) -> Seq<Seq<char>>
    decreases ms.len(),
{
    if ms.len() == 0 {
        Seq::empty()
    } else {
        let c = children_of(ms.drop_last(), p);
        if ms.last().parent_id == Some(p) {
            c.push(ms.last().id)
        } else {
            c
        }
    }
}

/// The walk that collects a subtree: the id on top of the stack is taken;
/// the first time an id is taken its children are pushed (in the order
/// written, so the last child is taken next). `fuel` bounds the steps (one
/// more than the number of messages is always enough).
pub open spec fn subtree_walk(
    ms: Seq<MessageView>,
    stack: Seq<Seq<char>>,
    expanded: Set<Seq<char>>,
    fuel: nat,
) -> Seq<Seq<char>>
    decreases fuel,
{
    if fuel == 0 || stack.len() == 0 {
        Seq::empty()
    } else {
        let cur = stack.last();
        let rest = stack.drop_last();
        if expanded.contains(cur) {
            seq![cur] + subtree_walk(ms, rest, expanded, (fuel - 1) as nat)
        } else {
            seq![cur] + subtree_walk(ms, rest + children_of(ms, cur), expanded.insert(cur), (fuel - 1) as nat)
        }
    }
}

/// What deleting the subtree of `message_id` removes and leaves as the
/// current leaf: `None` when there is no such message. A current leaf inside
/// the subtree moves to the deleted message's parent.
pub open spec fn deletion(es: Seq<StoredEntry>, message_id: Seq<char>) -> Option<(Seq<Seq<char>>, Option<Seq<char>>)> {
    let ms = messages_of(es);
    match last_with_id(ms, message_id) {
        None => None,
        Some(k) => {
            let deleted = subtree_walk(ms, seq![message_id], Set::empty(), (ms.len() + 1) as nat);
            let new_leaf = match leaf_of(es) {
                Some(l) => if deleted.contains(l) {
                    ms[k].parent_id
                } else {
                    Some(l)
                },
                None => None,
            };
            Some((deleted, new_leaf))
        },
    }
}

/// The ids that deleting the subtree of `message_id` removes.
pub open spec fn deleted_ids(es: Seq<StoredEntry>, message_id: Seq<char>) -> Seq<Seq<char>> {
    match deletion(es, message_id) {
        Some((d, _)) => d,
        None => Seq::empty(),
    }
}

/// The current leaf after deleting the subtree of `message_id`.
pub open spec fn leaf_after_deletion(es: Seq<StoredEntry>, message_id: Seq<char>) -> Option<Seq<char>> {
    match deletion(es, message_id) {
        Some((_, l)) => l,
        None => None,
    }
}

/// Whether an entry survives the deletion: not a deleted message, and not a
/// leaf marker that points at one.
pub open spec fn keep_entry(e: StoredEntry, deleted: Seq<Seq<char>>) -> bool {
    match e.kind {
        KindView::Message(..) => !deleted.contains(e.id),
        KindView::Custom(ty, data) => if ty == custom_leaf() {
            match opt_str(json_get(data, "leafId"@)) {
                Some(id) => !deleted.contains(id),
                None => true,
            }
        } else {
            true
        },
        _ => true,
    }
}

pub open spec fn kept_entries(es: Seq<StoredEntry>, deleted: Seq<Seq<char>>) -> Seq<StoredEntry>
    decreases es.len(),
{
    if es.len() == 0 {
        Seq::empty()
    } else {
        let k = kept_entries(es.drop_last(), deleted);
        if keep_entry(es.last(), deleted) {
            k.push(es.last())
        } else {
            k
        }
    }
}

/// The ids and parents of the log's messages, in the order written.
fn message_links(es: &Vec<Entry>) -> (r: Vec<(String, Option<String>)>)
    ensures
        r@.len() == messages_of(entries_view(es@)).len(),
        forall|i: int|
            0 <= i < r@.len() ==> #[trigger] r@[i].0@ == messages_of(entries_view(es@))[i].id && opt_text(
                r@[i].1,
            ) == messages_of(entries_view(es@))[i].parent_id,
{
    let ghost ev = entries_view(es@);
    let mut r: Vec<(String, Option<String>)> = Vec::new();
    let mut i: usize = 0;
    assert(ev.take(0) =~= Seq::<StoredEntry>::empty());
    while i < es.len()
        invariant
            i <= es@.len(),
            ev == entries_view(es@),
            r@.len() == messages_of(ev.take(i as int)).len(),
            forall|k: int|
                0 <= k < r@.len() ==> #[trigger] r@[k].0@ == messages_of(ev.take(i as int))[k].id
                    && opt_text(r@[k].1) == messages_of(ev.take(i as int))[k].parent_id,
        decreases es@.len() - i,
    {
        assert(ev.take(i + 1).drop_last() =~= ev.take(i as int));
        assert(ev.take(i + 1).last() == es@[i as int]@);
        let e = &es[i];
        match &e.kind {
            EntryKind::Message { .. } => {
                let p = match &e.parent_id {
                    Some(p) => Some(p.clone()),
                    None => None,
                };
                r.push((e.id.clone(), p));
            },
            _ => {},
        }
        i = i + 1;
    }
    assert(ev.take(i as int) =~= ev);
    r
}

pub open spec fn links_view(v: Seq<(String, Option<String>)>) -> Seq<(Seq<char>, Option<Seq<char>>)> {
    Seq::new(v.len(), |i: int| (v[i].0@, opt_text(v[i].1)))
}

pub open spec fn ms_links(ms: Seq<MessageView>) -> Seq<(Seq<char>, Option<Seq<char>>)> {
    Seq::new(ms.len(), |i: int| (ms[i].id, ms[i].parent_id))
}

proof fn lemma_links_len(links: Seq<(String, Option<String>)>, ms: Seq<MessageView>)
    requires
        links_view(links) == ms_links(ms),
    ensures
        links.len() == ms.len(),
{
    assert(links_view(links).len() == links.len());
    assert(ms_links(ms).len() == ms.len());
}

fn children_exec(links: &Vec<(String, Option<String>)>, p: &String, Ghost(ms): Ghost<Seq<MessageView>>) -> (r: Vec<String>)
    requires
        links_view(links@) == ms_links(ms),
    ensures
        crate::hunks::strings_view(r@) == children_of(ms, p@),
{
    let mut r: Vec<String> = Vec::new();
    let mut i: usize = 0;
    assert(ms.take(0) =~= Seq::<MessageView>::empty());
    proof {
        lemma_links_len(links@, ms);
    }
    while i < links.len()
        invariant
            i <= links@.len(),
            links@.len() == ms.len(),
            links_view(links@) == ms_links(ms),
            crate::hunks::strings_view(r@) == children_of(ms.take(i as int), p@),
        decreases links@.len() - i,
    {
        assert(ms.take(i + 1).drop_last() =~= ms.take(i as int));
        assert(links_view(links@)[i as int] == ms_links(ms)[i as int]);
        assert(ms.take(i + 1).last() == ms[i as int]);
        let ghost before = crate::hunks::strings_view(r@);
        let is_child = match &links[i].1 {
            Some(q) => *q == *p,
            None => false,
        };
        if is_child {
            r.push(links[i].0.clone());
            assert(crate::hunks::strings_view(r@) =~= before.push(ms[i as int].id));
        }
        i = i + 1;
    }
    assert(ms.take(i as int) =~= ms);
    r
}

fn contains_text(v: &Vec<String>, s: &String) -> (b: bool)
    ensures
        b == crate::hunks::strings_view(v@).contains(s@),
{
    let ghost sv = crate::hunks::strings_view(v@);
    let mut i: usize = 0;
    while i < v.len()
        invariant
            i <= v@.len(),
            sv == crate::hunks::strings_view(v@),
            forall|k: int| 0 <= k < i ==> sv[k] != s@,
        decreases v@.len() - i,
    {
        if v[i] == *s {
            assert(sv[i as int] == s@);
            return true;
        }
        i = i + 1;
    }
    false
}

fn subtree_exec(
    links: &Vec<(String, Option<String>)>,
    root: &str,
    Ghost(ms): Ghost<Seq<MessageView>>,
) -> (r: Vec<String>)
    requires
        links_view(links@) == ms_links(ms),
    ensures
        crate::hunks::strings_view(r@) == subtree_walk(ms, seq![root@], Set::empty(), (ms.len() + 1) as nat),
{
    let ghost goal = subtree_walk(ms, seq![root@], Set::empty(), (ms.len() + 1) as nat);
    let mut stack: Vec<String> = Vec::new();
    stack.push(root.to_owned());
    let mut expanded: Vec<String> = Vec::new();
    let ghost mut eset: Set<Seq<char>> = Set::empty();
    let mut out: Vec<String> = Vec::new();
    proof {
        lemma_links_len(links@, ms);
    }
    let mut fuel: u128 = links.len() as u128 + 1;
    assert(crate::hunks::strings_view(stack@) =~= seq![root@]);
    assert(crate::hunks::strings_view(out@) + goal =~= goal);
    while fuel > 0 && stack.len() > 0
        invariant
            links_view(links@) == ms_links(ms),
            goal == crate::hunks::strings_view(out@) + subtree_walk(
                ms,
                crate::hunks::strings_view(stack@),
                eset,
                fuel as nat,
            ),
            forall|x: Seq<char>| eset.contains(x) <==> crate::hunks::strings_view(expanded@).contains(x),
        decreases fuel,
    {
        let ghost sv = crate::hunks::strings_view(stack@);
        let ghost ov = crate::hunks::strings_view(out@);
        let cur = stack.pop().unwrap();
        assert(crate::hunks::strings_view(stack@) =~= sv.drop_last());
        assert(cur@ == sv.last());
        if !contains_text(&expanded, &cur) {
            let kids = children_exec(links, &cur, Ghost(ms));
            let ghost before_stack = crate::hunks::strings_view(stack@);
            let mut i: usize = 0;
            while i < kids.len()
                invariant
                    i <= kids@.len(),
                    crate::hunks::strings_view(stack@) == before_stack + crate::hunks::strings_view(kids@).take(i as int),
                decreases kids@.len() - i,
            {
                let ghost bs = crate::hunks::strings_view(stack@);
                stack.push(kids[i].clone());
                assert(crate::hunks::strings_view(stack@) =~= bs.push(kids@[i as int]@));
                assert(crate::hunks::strings_view(kids@).take(i + 1) =~= crate::hunks::strings_view(kids@).take(i as int).push(kids@[i as int]@));
                i = i + 1;
            }
            assert(crate::hunks::strings_view(kids@).take(i as int) =~= crate::hunks::strings_view(kids@));
            let ghost be = crate::hunks::strings_view(expanded@);
            expanded.push(cur.clone());
            proof {
                assert(crate::hunks::strings_view(expanded@) =~= be.push(cur@));
                assert forall|x: Seq<char>| eset.insert(cur@).contains(x) <==> crate::hunks::strings_view(
                    expanded@,
                ).contains(x) by {
                    if crate::hunks::strings_view(expanded@).contains(x) {
                        let j = choose|j: int| 0 <= j < crate::hunks::strings_view(expanded@).len() && crate::hunks::strings_view(expanded@)[j] == x;
                        if j < be.len() {
                            assert(be[j] == x);
                        }
                    }
                    if eset.contains(x) {
                        let j = choose|j: int| 0 <= j < be.len() && be[j] == x;
                        assert(crate::hunks::strings_view(expanded@)[j] == x);
                    }
                    if x == cur@ {
                        assert(crate::hunks::strings_view(expanded@)[be.len() as int] == x);
                    }
                }
                eset = eset.insert(cur@);
            }
        }
        let ghost cv = cur@;
        out.push(cur);
        proof {
            assert(crate::hunks::strings_view(out@) =~= ov.push(cv));
            assert(ov + (seq![cv] + subtree_walk(ms, crate::hunks::strings_view(stack@), eset, (fuel - 1) as nat))
                =~= ov.push(cv) + subtree_walk(ms, crate::hunks::strings_view(stack@), eset, (fuel - 1) as nat));
        }
        fuel = fuel - 1;
    }
    assert(crate::hunks::strings_view(out@) + Seq::<Seq<char>>::empty() =~= crate::hunks::strings_view(out@));
    out
}


fn last_link(links: &Vec<(String, Option<String>)>, id: &String, Ghost(ms): Ghost<Seq<MessageView>>) -> (r: Option<usize>)
    requires
        links_view(links@) == ms_links(ms),
    ensures
        match r {
            Some(k) => last_with_id(ms, id@) == Some(k as int),
            None => last_with_id(ms, id@) is None,
        },
{
    proof {
        lemma_links_len(links@, ms);
    }
    let mut i = links.len();
    assert(ms.take(i as int) =~= ms);
    while i > 0
        invariant
            i <= links@.len(),
            links@.len() == ms.len(),
            links_view(links@) == ms_links(ms),
            last_with_id(ms, id@) == last_with_id(ms.take(i as int), id@),
        decreases i,
    {
        assert(ms.take(i as int).drop_last() =~= ms.take(i - 1));
        assert(ms.take(i as int).last() == ms[i - 1]);
        assert(links_view(links@)[i - 1] == ms_links(ms)[i - 1]);
        if links[i - 1].0 == *id {
            return Some(i - 1);
        }
        i = i - 1;
    }
    None
}

fn keep_exec(e: &Entry, deleted: &Vec<String>) -> (b: bool)
    ensures
        b == keep_entry(e@, crate::hunks::strings_view(deleted@)),
{
    match &e.kind {
        EntryKind::Message { .. } => !contains_text(deleted, &e.id),
        EntryKind::Custom { custom_type, data } => {
            if is_text(custom_type, "oma.leaf") {
                match data.get("leafId") {
                    Some(v) => match v.as_str() {
                        Some(id) => !contains_text(deleted, &id.to_owned()),
                        None => true,
                    },
                    None => true,
                }
            } else {
                true
            }
        },
        _ => true,
    }
}

fn clone_opt(o: &Option<String>) -> (r: Option<String>)
    ensures
        opt_text(r) == opt_text(*o),
{
    match o {
        Some(s) => Some(s.clone()),
        None => None,
    }
}

/// The log after deleting a subtree: what survives, then a leaf marker.
pub open spec fn log_after_deletion(
    before: Seq<StoredEntry>,
    after: Seq<StoredEntry>,
    deleted: Seq<Seq<char>>,
    new_leaf: Option<Seq<char>>,
) -> bool {
    &&& after.len() == kept_entries(before, deleted).len() + 1
    &&& after.drop_last() == kept_entries(before, deleted)
    &&& after.last().parent_id == new_leaf
    &&& leaf_marker(after.last().kind, new_leaf)
}

impl SessionStore {
    /// Deletes a message and its whole subtree, as [`deletion`] says:
    /// returns the deleted ids (the message first) and the current leaf
    /// after the deletion. The deleted messages and the leaf markers that
    /// point at them leave the log, and a marker records the new leaf.
    /// `NotFound` when the log holds no such message; then nothing changes.
    pub fn delete_subtree(&mut self, session_id: &str, message_id: &str) -> (r: Result<
        (Vec<String>, Option<String>),
        crate::storage::StorageError,
    >)
        ensures
            deletion(entries_view(old(self).entries@), message_id@) is None <==> r is Err,
            r matches Err(e) ==> (e matches crate::storage::StorageError::NotFound(m) && m@ == "message "@
                + message_id@ + " in session "@ + session_id@),
            r is Err ==> entries_view(final(self).entries@) == entries_view(old(self).entries@),
            r matches Ok((d, l)) ==> crate::hunks::strings_view(d@) == deleted_ids(
                entries_view(old(self).entries@),
                message_id@,
            ) && opt_text(l) == leaf_after_deletion(entries_view(old(self).entries@), message_id@)
                && log_after_deletion(
                entries_view(old(self).entries@),
                entries_view(final(self).entries@),
                crate::hunks::strings_view(d@),
                opt_text(l),
            ),
            final(self).header == old(self).header,
    {
        let ghost ev = entries_view(self.entries@);
        let ghost ms = messages_of(ev);
        let links = message_links(&self.entries);
        assert(links_view(links@) =~= ms_links(ms));
        let mid = message_id.to_owned();
        let k = match last_link(&links, &mid, Ghost(ms)) {
            Some(k) => k,
            None => {
                let mut m = chars_of("message ");
                let l = chars_of(message_id);
                crate::text::append_chars(&mut m, l.as_slice());
                let sep = chars_of(" in session ");
                crate::text::append_chars(&mut m, sep.as_slice());
                let sid = chars_of(session_id);
                crate::text::append_chars(&mut m, sid.as_slice());
                return Err(crate::storage::StorageError::NotFound(string_of(m.as_slice())));
            },
        };
        proof {
            lemma_last_with_id(ms, message_id@);
            lemma_links_len(links@, ms);
            assert(links_view(links@)[k as int] == ms_links(ms)[k as int]);
        }
        let deleted = subtree_exec(&links, message_id, Ghost(ms));
        let ghost dv = crate::hunks::strings_view(deleted@);
        let current = self.leaf();
        let new_leaf = match current {
            Some(l) => if contains_text(&deleted, &l) {
                clone_opt(&links[k].1)
            } else {
                Some(l)
            },
            None => None,
        };
        let mut old_entries: Vec<Entry> = Vec::new();
        std::mem::swap(&mut old_entries, &mut self.entries);
        let ghost mut j: int = 0;
        assert(ev.skip(0) =~= ev);
        assert(ev.take(0) =~= Seq::<StoredEntry>::empty());
        assert(entries_view(self.entries@) =~= Seq::<StoredEntry>::empty());
        while old_entries.len() > 0
            invariant
                0 <= j <= ev.len(),
                old_entries@.len() + j == ev.len(),
                entries_view(old_entries@) == ev.skip(j),
                entries_view(self.entries@) == kept_entries(ev.take(j), dv),
                dv == crate::hunks::strings_view(deleted@),
                self.header == old(self).header,
            decreases old_entries@.len(),
        {
            let ghost before_old = entries_view(old_entries@);
            let e = old_entries.remove(0);
            proof {
                assert(entries_view(old_entries@) =~= before_old.drop_first());
                assert(ev.skip(j).drop_first() =~= ev.skip(j + 1));
                assert(e@ == ev.skip(j)[0]);
                assert(e@ == ev[j]);
                assert(ev.take(j + 1).drop_last() =~= ev.take(j));
                assert(ev.take(j + 1).last() == ev[j]);
            }
            let ghost before = entries_view(self.entries@);
            if keep_exec(&e, &deleted) {
                let ghost evw = e@;
                self.entries.push(e);
                assert(entries_view(self.entries@) =~= before.push(evw));
            }
            proof {
                j = j + 1;
                assert(entries_view(old_entries@) =~= ev.skip(j));
            }
        }
        assert(ev.take(j) =~= ev);
        let data = match &new_leaf {
            Some(l) => single_member_exec("leafId", Some(l.as_str())),
            None => single_member_exec("leafId", None),
        };
        let now = now_millis();
        let marker = Entry {
            id: new_entry_id(),
            parent_id: clone_opt(&new_leaf),
            timestamp: iso_from_ms(now),
            kind: EntryKind::Custom { custom_type: "oma.leaf".to_owned(), data },
        };
        let ghost kept = entries_view(self.entries@);
        let ghost mv = marker@;
        self.entries.push(marker);
        assert(entries_view(self.entries@) =~= kept.push(mv));
        assert(entries_view(self.entries@).drop_last() =~= kept);
        Ok((deleted, new_leaf))
    }
}

} // verus!
