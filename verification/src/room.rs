//! The decisions of a session room around its turns: the commands clients
//! send and the ones that wait in the queue, the user message a turn starts
//! with, which tool calls an agent may make, where the conversation goes back
//! to when an edited resend fails, and when automatic naming stops reading.
use std::collections::VecDeque;
use vstd::prelude::*;

use crate::message::{blocks_view, Block, BlockView};
use crate::sse::ProviderStreamEvent;
use crate::text::{append_chars, chars_of, eq_chars, is_blank, is_blank_exec, string_of};

verus! {

/// A command a client sends to a session room.
#[derive(Debug, PartialEq)]
pub enum AgentCommand {
    UserInput { content: String, attachments: Vec<String> },
    SetModel { model: String },
    SetAgent { agent: String },
    SetReasoningLevel { level: String },
    SwitchBranch { leaf_message_id: String },
    /// Resend under an earlier message: the conversation forks there.
    ForkAndRun { parent_message_id: String, new_content: Option<String> },
}

pub open spec fn strings_view(v: Seq<String>) -> Seq<Seq<char>> {
    Seq::new(v.len(), |i: int| v[i]@)
}

pub open spec fn opt_view(o: Option<String>) -> Option<Seq<char>> {
    match o {
        Some(s) => Some(s@),
        None => None,
    }
}

/// The input of a turn: its text, its attachments and the message it forks
/// under, if it does.
pub type TurnInput = (String, Vec<String>, Option<String>);

pub open spec fn input_view(t: TurnInput) -> (Seq<char>, Seq<Seq<char>>, Option<Seq<char>>) {
    (t.0@, strings_view(t.1@), opt_view(t.2))
}

/// The command that waits in the queue for an input that cannot run yet: a
/// resend keeps its fork point (it carries no attachments).
pub open spec fn spec_queued_command(content: String, attachments: Vec<String>, parent: Option<String>) -> AgentCommand {
    match parent {
        Some(p) => AgentCommand::ForkAndRun { parent_message_id: p, new_content: Some(content) },
        None => AgentCommand::UserInput { content, attachments },
    }
}

/// The turn a queued command runs: user input, or a resend that has content;
/// any other command is not run.
pub open spec fn spec_queued_run(cmd: AgentCommand) -> Option<(Seq<char>, Seq<Seq<char>>, Option<Seq<char>>)> {
    match cmd {
        AgentCommand::UserInput { content, attachments } => Some((content@, strings_view(attachments@), None)),
        AgentCommand::ForkAndRun { parent_message_id, new_content } => match new_content {
            Some(c) => Some((c@, Seq::empty(), Some(parent_message_id@))),
            None => None,
        },
        _ => None,
    }
}

/// The command queued for an input that arrives while a turn runs, as
/// [`spec_queued_command`] says.
pub fn queued_command(content: String, attachments: Vec<String>, parent: Option<String>) -> (r: AgentCommand)
    ensures
        r == spec_queued_command(content, attachments, parent),
{
    match parent {
        Some(p) => AgentCommand::ForkAndRun { parent_message_id: p, new_content: Some(content) },
        None => AgentCommand::UserInput { content, attachments },
    }
}

/// The turn a queued command runs, as [`spec_queued_run`] says.
pub fn queued_run(cmd: AgentCommand) -> (r: Option<TurnInput>)
    ensures
        match r {
            Some(t) => spec_queued_run(cmd) == Some(input_view(t)),
            None => spec_queued_run(cmd) is None,
        },
{
    match cmd {
        AgentCommand::UserInput { content, attachments } => Some((content, attachments, None)),
        AgentCommand::ForkAndRun { parent_message_id, new_content } => match new_content {
            Some(content) => {
                let v: Vec<String> = Vec::new();
                assert(strings_view(v@) =~= Seq::<Seq<char>>::empty());
                Some((content, v, Some(parent_message_id)))
            },
            None => None,
        },
        _ => None,
    }
}

/// An input that waits in the queue runs as it was sent: its text, its fork
/// point (a resend's), and its attachments (a resend carries none).
pub proof fn lemma_queue_keeps_input(content: String, attachments: Vec<String>, parent: Option<String>)
    ensures
        spec_queued_run(spec_queued_command(content, attachments, parent)) == Some(
            (
                content@,
                if parent is Some {
                    Seq::empty()
                } else {
                    strings_view(attachments@)
                },
                opt_view(parent),
            ),
        ),
{
}

// ---------------------------------------------------------------------------
// Commands and the queue
// ---------------------------------------------------------------------------

/// What a room does with a command.
#[derive(Debug, PartialEq)]
pub enum CommandStep {
    /// An input to run, or to queue while a turn runs.
    Input(TurnInput),
    SetModel(String),
    SetAgent(String),
    SetReasoningLevel(String),
    /// A reasoning level that is not one of the known ones: the room
    /// answers with this error and changes nothing.
    Reject(String),
    SwitchBranch(String),
    /// A resend without content.
    Nothing,
}

/// The error of an unknown reasoning level.
pub open spec fn invalid_level_text(level: Seq<char>) -> Seq<char> {
    "Invalid reasoning level: "@ + level
}

/// What a room does with a command, given whether a reasoning level it
/// carries is a known one.
pub open spec fn command_matches(r: CommandStep, cmd: AgentCommand, level_valid: bool) -> bool {
    match cmd {
        AgentCommand::UserInput { content, attachments } => r == CommandStep::Input((content, attachments, None)),
        AgentCommand::ForkAndRun { parent_message_id, new_content } => match new_content {
            Some(c) => r matches CommandStep::Input(t) && input_view(t) == (
                c@,
                Seq::<Seq<char>>::empty(),
                Some(parent_message_id@),
            ),
            None => r == CommandStep::Nothing,
        },
        AgentCommand::SetModel { model } => r == CommandStep::SetModel(model),
        AgentCommand::SetAgent { agent } => r == CommandStep::SetAgent(agent),
        AgentCommand::SetReasoningLevel { level } => if level_valid {
            r == CommandStep::SetReasoningLevel(level)
        } else {
            r matches CommandStep::Reject(m) && m@ == invalid_level_text(level@)
        },
        AgentCommand::SwitchBranch { leaf_message_id } => r == CommandStep::SwitchBranch(leaf_message_id),
    }
}

/// What a room does with a command, as [`command_matches`] says.
pub fn command_step(cmd: AgentCommand, level_valid: bool) -> (r: CommandStep)
    ensures
        command_matches(r, cmd, level_valid),
{
    match cmd {
        AgentCommand::UserInput { content, attachments } => CommandStep::Input((content, attachments, None)),
        AgentCommand::ForkAndRun { parent_message_id, new_content } => match new_content {
            Some(c) => {
                let v: Vec<String> = Vec::new();
                assert(strings_view(v@) =~= Seq::<Seq<char>>::empty());
                CommandStep::Input((c, v, Some(parent_message_id)))
            },
            None => CommandStep::Nothing,
        },
        AgentCommand::SetModel { model } => CommandStep::SetModel(model),
        AgentCommand::SetAgent { agent } => CommandStep::SetAgent(agent),
        AgentCommand::SetReasoningLevel { level } => if level_valid {
            CommandStep::SetReasoningLevel(level)
        } else {
            let mut m = chars_of("Invalid reasoning level: ");
            let l = chars_of(level.as_str());
            append_chars(&mut m, l.as_slice());
            CommandStep::Reject(string_of(m.as_slice()))
        },
        AgentCommand::SwitchBranch { leaf_message_id } => CommandStep::SwitchBranch(leaf_message_id),
    }
}

/// The error of a branch switch that storage refused.
pub fn branch_switch_failed(error: &str) -> (r: String)
    ensures
        r@ == "切换分支失败: "@ + error@,
{
    let mut m = chars_of("切换分支失败: ");
    let e = chars_of(error);
    append_chars(&mut m, e.as_slice());
    string_of(m.as_slice())
}

/// The commands that wait while a turn runs, first come first served.
#[derive(Debug)]
pub struct CommandQueue {
    pub items: VecDeque<AgentCommand>,
}

impl CommandQueue {
    /// An empty queue.
    pub fn new() -> (q: CommandQueue)
        ensures
            q.items@ == Seq::<AgentCommand>::empty(),
    {
        CommandQueue { items: VecDeque::new() }
    }

    /// The number of waiting commands.
    pub fn len(&self) -> (n: usize)
        ensures
            n == self.items@.len(),
    {
        self.items.len()
    }

    /// Drops every waiting command (a cancel does).
    pub fn clear(&mut self)
        ensures
            final(self).items@ == Seq::<AgentCommand>::empty(),
    {
        self.items = VecDeque::new();
    }

    /// An input that arrives: run it now where the room took the turn
    /// (`accepted`), else queue it as [`spec_queued_command`] says, behind
    /// the commands already waiting.
    pub fn dispatch(&mut self, accepted: bool, content: String, attachments: Vec<String>, parent: Option<String>) -> (r:
        Option<TurnInput>)
        ensures
            accepted ==> r == Some((content, attachments, parent)) && final(self).items@ == old(self).items@,
            !accepted ==> r is None && final(self).items@ == old(self).items@.push(
                spec_queued_command(content, attachments, parent),
            ),
    {
        if accepted {
            Some((content, attachments, parent))
        } else {
            let cmd = queued_command(content, attachments, parent);
            self.items.push_back(cmd);
            None
        }
    }

    /// After a turn: takes waiting commands from the front until one runs
    /// ([`spec_queued_run`]); a command that does not run is dropped. Returns
    /// the queue's length after each command taken, and the turn to run, if
    /// any.
    pub fn next_turn(&mut self) -> (r: (Vec<usize>, Option<TurnInput>))
        ensures
            r.0@.len() <= old(self).items@.len(),
            final(self).items@ == old(self).items@.skip(r.0@.len() as int),
            forall|i: int| 0 <= i < r.0@.len() ==> r.0@[i] == old(self).items@.len() - (i + 1),
            forall|i: int|
                0 <= i < r.0@.len() - (if r.1 is Some {
                    1int
                } else {
                    0int
                }) ==> spec_queued_run(#[trigger] old(self).items@[i]) is None,
            match r.1 {
                Some(t) => r.0@.len() > 0 && spec_queued_run(old(self).items@[r.0@.len() - 1]) == Some(input_view(t)),
                None => r.0@.len() == old(self).items@.len(),
            },
    {
        let ghost start = self.items@;
        let mut pending: Vec<usize> = Vec::new();
        let mut found: Option<TurnInput> = None;
        while found.is_none() && self.items.len() > 0
            invariant
                pending@.len() <= start.len(),
                self.items@ == start.skip(pending@.len() as int),
                forall|i: int| 0 <= i < pending@.len() ==> pending@[i] == start.len() - (i + 1),
                found is None ==> forall|i: int| 0 <= i < pending@.len() ==> spec_queued_run(#[trigger] start[i]) is None,
                found matches Some(t) ==> pending@.len() > 0 && spec_queued_run(start[pending@.len() - 1]) == Some(
                    input_view(t),
                ) && forall|i: int| 0 <= i < pending@.len() - 1 ==> spec_queued_run(#[trigger] start[i]) is None,
            decreases self.items@.len(),
        {
            let ghost k: int = pending@.len() as int;
            let cmd = self.items.pop_front();
            match cmd {
                Some(c) => {
                    assert(c == start[k]);
                    assert(self.items@ =~= start.skip(k + 1));
                    let n = self.items.len();
                    pending.push(n);
                    found = queued_run(c);
                },
                None => {},
            }
        }
        (pending, found)
    }
}

/// Queued inputs run in the order they came: after an input is queued
/// behind others, the front of the queue is still the one that came first,
/// and the new one is last.
pub proof fn lemma_queue_fifo(waiting: Seq<AgentCommand>, cmd: AgentCommand)
    requires
        waiting.len() > 0,
    ensures
        waiting.push(cmd)[0] == waiting[0],
        waiting.push(cmd).skip(1) == waiting.skip(1).push(cmd),
{
    assert(waiting.push(cmd).skip(1) =~= waiting.skip(1).push(cmd));
}

// ---------------------------------------------------------------------------
// The user message of a turn
// ---------------------------------------------------------------------------

/// The blocks of the message a turn starts with: the text when there is
/// any, then each attachment as a PNG image reference.
pub open spec fn spec_user_blocks(text: Seq<char>, attachments: Seq<Seq<char>>) -> Seq<BlockView> {
    (if text.len() > 0 {
        seq![BlockView::Text(text)]
    } else {
        Seq::empty()
    }) + Seq::new(attachments.len(), |i: int| BlockView::Image("image/png"@, attachments[i]))
}

/// The blocks of a turn's user message, as [`spec_user_blocks`] says.
pub fn user_turn_blocks(text: String, attachments: Vec<String>) -> (r: Vec<Block>)
    ensures
        blocks_view(r@) == spec_user_blocks(text@, strings_view(attachments@)),
{
    let ghost tv = text@;
    let ghost av = strings_view(attachments@);
    let mut out: Vec<Block> = Vec::new();
    if !text.as_str().is_empty() {
        out.push(Block::Text { text });
    }
    let ghost head = blocks_view(out@);
    assert(head =~= if tv.len() > 0 {
        seq![BlockView::Text(tv)]
    } else {
        Seq::<BlockView>::empty()
    });
    let n = out.len();
    let mut i: usize = 0;
    while i < attachments.len()
        invariant
            i <= attachments@.len(),
            av == strings_view(attachments@),
            n == head.len(),
            out@.len() == n + i,
            forall|k: int| 0 <= k < n ==> #[trigger] out@[k]@ == head[k],
            forall|k: int| 0 <= k < i ==> #[trigger] out@[n + k]@ == BlockView::Image("image/png"@, av[k]),
        decreases attachments@.len() - i,
    {
        out.push(Block::Image { mime_type: "image/png".to_owned(), data: attachments[i].clone() });
        i = i + 1;
    }
    let ghost tail = Seq::new(av.len(), |k: int| BlockView::Image("image/png"@, av[k]));
    assert(blocks_view(out@) =~= head + tail) by {
        assert forall|k: int| 0 <= k < out@.len() implies blocks_view(out@)[k] == (head + tail)[k] by {
            if k >= n {
                assert(out@[n + (k - n)]@ == tail[k - n]);
            }
        }
    }
    out
}

// ---------------------------------------------------------------------------
// Which tools an agent may call
// ---------------------------------------------------------------------------

/// An agent template: who the agent is, the tools it may call (none named:
/// any) and the body of its system prompt.
#[derive(Debug, Clone)]
pub struct AgentTemplate {
    pub id: String,
    pub name: String,
    pub description: String,
    pub tools: Vec<String>,
    pub system_prompt_body: String,
}

/// The tools an agent template allows: `None` (no limit) when it names none.
pub fn allowed_tools(template: &AgentTemplate) -> (r: Option<Vec<String>>)
    ensures
        template.tools@.len() == 0 <==> r is None,
        r matches Some(a) ==> strings_view(a@) == strings_view(template.tools@),
{
    let template_tools = &template.tools;
    if template_tools.len() == 0 {
        return None;
    }
    let mut out: Vec<String> = Vec::new();
    let mut i: usize = 0;
    while i < template_tools.len()
        invariant
            i <= template_tools@.len(),
            strings_view(out@) == strings_view(template_tools@.take(i as int)),
        decreases template_tools@.len() - i,
    {
        let ghost before = strings_view(out@);
        out.push(template_tools[i].clone());
        assert(strings_view(out@) =~= before.push(template_tools@[i as int]@));
        assert(strings_view(template_tools@.take(i + 1)) =~= strings_view(template_tools@.take(i as int)).push(
            template_tools@[i as int]@,
        ));
        i = i + 1;
    }
    assert(template_tools@.take(i as int) =~= template_tools@);
    Some(out)
}

/// May a tool be called: always without a list, else when the list names it.
pub open spec fn permitted(allowed: Option<Seq<Seq<char>>>, name: Seq<char>) -> bool {
    match allowed {
        None => true,
        Some(a) => a.contains(name),
    }
}

pub open spec fn opt_strings_view(o: Option<Vec<String>>) -> Option<Seq<Seq<char>>> {
    match o {
        Some(v) => Some(strings_view(v@)),
        None => None,
    }
}

/// What a call the agent may not make is answered with.
pub open spec fn not_permitted_text(name: Seq<char>) -> Seq<char> {
    "Tool '"@ + name + "' is not permitted for the active agent."@
}

/// The refusal of a tool call that the agent's list leaves out; `None` when
/// the call may go on.
pub fn tool_refusal(tool_name: &str, allowed: &Option<Vec<String>>) -> (r: Option<String>)
    ensures
        r is None <==> permitted(opt_strings_view(*allowed), tool_name@),
        r matches Some(e) ==> e@ == not_permitted_text(tool_name@),
{
    match allowed {
        None => None,
        Some(list) => {
            let ghost lv = strings_view(list@);
            let name = chars_of(tool_name);
            let mut i: usize = 0;
            while i < list.len()
                invariant
                    i <= list@.len(),
                    lv == strings_view(list@),
                    *allowed == Some(*list),
                    name@ == tool_name@,
                    forall|k: int| 0 <= k < i ==> lv[k] != tool_name@,
                decreases list@.len() - i,
            {
                let c = chars_of(list[i].as_str());
                if eq_chars(c.as_slice(), name.as_slice()) {
                    assert(lv[i as int] == tool_name@);
                    assert(lv.contains(tool_name@));
                    return None;
                }
                i = i + 1;
            }
            let mut e = chars_of("Tool '");
            append_chars(&mut e, name.as_slice());
            let tail = chars_of("' is not permitted for the active agent.");
            append_chars(&mut e, tail.as_slice());
            Some(string_of(e.as_slice()))
        },
    }
}

/// What a call that a plugin blocked is answered with.
pub fn blocked_by_plugin(reason: &str) -> (r: String)
    ensures
        r@ == "Execution blocked by plugin: "@ + reason@,
{
    let mut e = chars_of("Execution blocked by plugin: ");
    let t = chars_of(reason);
    append_chars(&mut e, t.as_slice());
    string_of(e.as_slice())
}

/// What a call of a tool that no one registered is answered with.
pub fn tool_not_found(tool_name: &str) -> (r: String)
    ensures
        r@ == "Tool '"@ + tool_name@ + "' not found in registry"@,
{
    let mut e = chars_of("Tool '");
    let t = chars_of(tool_name);
    append_chars(&mut e, t.as_slice());
    let tail = chars_of("' not found in registry");
    append_chars(&mut e, tail.as_slice());
    string_of(e.as_slice())
}

/// What happens next to a tool call on its way to running.
#[derive(Debug, PartialEq, Eq)]
pub enum GateStep {
    /// Answer the call with this error instead of running it.
    Refuse(String),
    /// Ask the plugins whether one blocks the call, then decide again.
    AskPlugins,
    /// Run the tool.
    Run,
}

/// The way of a tool call, checked in order: the agent's list of tools
/// first; then the plugins, once they were asked (`plugin_verdict`: not yet
/// asked, or the reason a plugin blocked it, if one did); then whether the
/// tool is registered.
pub open spec fn spec_tool_gate(
    allowed: Option<Seq<Seq<char>>>,
    name: Seq<char>,
    plugin_verdict: Option<Option<Seq<char>>>,
    registered: bool,
) -> (int, Seq<char>) {
    if !permitted(allowed, name) {
        (0, not_permitted_text(name))
    } else {
        match plugin_verdict {
            None => (1, Seq::empty()),
            Some(Some(reason)) => (0, "Execution blocked by plugin: "@ + reason),
            Some(None) => if registered {
                (2, Seq::empty())
            } else {
                (0, "Tool '"@ + name + "' not found in registry"@)
            },
        }
    }
}

pub open spec fn gate_view(g: GateStep) -> (int, Seq<char>) {
    match g {
        GateStep::Refuse(t) => (0, t@),
        GateStep::AskPlugins => (1, Seq::empty()),
        GateStep::Run => (2, Seq::empty()),
    }
}

/// The next step of a tool call, as [`spec_tool_gate`] says.
pub fn tool_gate(
    tool_name: &str,
    allowed: &Option<Vec<String>>,
    plugin_verdict: &Option<Option<String>>,
    registered: bool,
) -> (r: GateStep)
    ensures
        gate_view(r) == spec_tool_gate(
            opt_strings_view(*allowed),
            tool_name@,
            match plugin_verdict {
                Some(Some(x)) => Some(Some(x@)),
                Some(None) => Some(None),
                None => None,
            },
            registered,
        ),
{
    match tool_refusal(tool_name, allowed) {
        Some(t) => {
            return GateStep::Refuse(t);
        },
        None => {},
    }
    match plugin_verdict {
        None => GateStep::AskPlugins,
        Some(Some(reason)) => GateStep::Refuse(blocked_by_plugin(reason.as_str())),
        Some(None) => if registered {
            GateStep::Run
        } else {
            GateStep::Refuse(tool_not_found(tool_name))
        },
    }
}

// ---------------------------------------------------------------------------
// A failed resend
// ---------------------------------------------------------------------------

/// Where the conversation goes back to once a failed resend's messages are
/// deleted: the leaf from before the resend, unless it was deleted too; else
/// the leaf that the deletion left.
pub open spec fn spec_rollback_leaf(
    pre_fork_leaf: Option<Seq<char>>,
    deleted: Seq<Seq<char>>,
    fallback: Option<Seq<char>>,
) -> Option<Seq<char>> {
    match pre_fork_leaf {
        Some(l) => if deleted.contains(l) {
            fallback
        } else {
            Some(l)
        },
        None => fallback,
    }
}

/// The leaf after a failed resend, as [`spec_rollback_leaf`] says.
pub fn rollback_leaf(pre_fork_leaf: Option<&str>, deleted: &Vec<String>, fallback: Option<String>) -> (r: Option<
    String,
>)
    ensures
        opt_view(r) == spec_rollback_leaf(
            match pre_fork_leaf {
                Some(l) => Some(l@),
                None => None,
            },
            strings_view(deleted@),
            opt_view(fallback),
        ),
{
    match pre_fork_leaf {
        None => fallback,
        Some(l) => {
            let ghost dv = strings_view(deleted@);
            let lc = chars_of(l);
            let mut i: usize = 0;
            while i < deleted.len()
                invariant
                    i <= deleted@.len(),
                    dv == strings_view(deleted@),
                    pre_fork_leaf == Some(l),
                    lc@ == l@,
                    forall|k: int| 0 <= k < i ==> dv[k] != l@,
                decreases deleted@.len() - i,
            {
                let c = chars_of(deleted[i].as_str());
                if eq_chars(c.as_slice(), lc.as_slice()) {
                    assert(dv[i as int] == l@);
                    assert(dv.contains(l@));
                    return fallback;
                }
                i = i + 1;
            }
            Some(l.to_owned())
        },
    }
}

// ---------------------------------------------------------------------------
// Automatic naming
// ---------------------------------------------------------------------------

/// The longest reply read for a title, in characters.
pub const NAMING_REPLY_MAX_CHARS: usize = 512;

/// The reply so far after one event of the naming request, and whether
/// reading stops: text deltas are appended; the end of the answer or an
/// error stops it, and so does a reply over [`NAMING_REPLY_MAX_CHARS`].
pub open spec fn naming_step(raw: Seq<char>, e: ProviderStreamEvent) -> (Seq<char>, bool) {
    match e {
        ProviderStreamEvent::TextDelta(d) => (raw + d@, (raw + d@).len() > 512),
        ProviderStreamEvent::Error(_) => (raw, true),
        ProviderStreamEvent::Done { .. } => (raw, true),
        _ => (raw, raw.len() > 512),
    }
}

/// Takes one event of the naming request into the reply, as [`naming_step`]
/// says; `true` when reading stops.
pub fn naming_feed(raw: &mut String, event: &ProviderStreamEvent) -> (stop: bool)
    ensures
        (final(raw)@, stop) == naming_step(old(raw)@, *event),
{
    match event {
        ProviderStreamEvent::TextDelta(d) => {
            let mut v = chars_of(raw.as_str());
            let dc = chars_of(d.as_str());
            append_chars(&mut v, dc.as_slice());
            *raw = string_of(v.as_slice());
            v.len() > 512
        },
        ProviderStreamEvent::Error(_) => true,
        ProviderStreamEvent::Done { .. } => true,
        _ => {
            let v = chars_of(raw.as_str());
            v.len() > 512
        },
    }
}

/// Whether a turn leaves the session unnamed: a session without a record,
/// or whose title is not blank, is not named again.
pub fn already_named(title: Option<&str>) -> (b: bool)
    ensures
        b == match title {
            None => true,
            Some(t) => !is_blank(t@),
        },
{
    match title {
        None => true,
        Some(t) => {
            let c = chars_of(t);
            !is_blank_exec(c.as_slice())
        },
    }
}

} // verus!
