//! The decisions of a subagent's run: a loop of its own, with a context of
//! its own that is never stored, which hands its parent the last text it
//! wrote.
//!
//! The answer of each request is gathered as the main loop gathers it
//! ([`crate::turn::AnswerDraft`]), and its tool calls go through the same
//! batch ([`crate::turn::ToolBatch`]). What differs is decided here: the run
//! asks the model at most [`MAX_SUBAGENT_ROUNDS`] times, a stream error or a
//! cancellation ends it with an error, calls that do not run are answered
//! with [`not_executed_text`], and the run's result is its last non-empty
//! text, or [`no_summary_text`] where that is blank.
use vstd::prelude::*;

use crate::sse::ProviderStreamEvent;
use crate::text::{append_chars, chars_of, is_blank, is_blank_exec, string_of};
use crate::turn::{runs_tools, AnswerDraft};

verus! {

/// The most requests one subagent run makes.
pub const MAX_SUBAGENT_ROUNDS: usize = 16;

/// The error a cancelled run ends with.
pub open spec fn cancelled_text() -> Seq<char> {
    "Subagent cancelled."@
}

/// The result of a run whose last text is blank.
pub open spec fn no_summary_text() -> Seq<char> {
    "(subagent finished without a textual summary)"@
}

/// What each call of an answer that ends the run is answered with.
pub open spec fn not_executed_text() -> Seq<char> {
    "Tool call not executed."@
}

/// The result of a run that ends without error.
pub open spec fn summary_of(last_text: Seq<char>) -> Seq<char> {
    if is_blank(last_text) {
        no_summary_text()
    } else {
        last_text
    }
}

/// Where a subagent run stands between two requests: how many requests it
/// has made and the last non-empty text the model wrote.
#[derive(Debug)]
pub struct SubagentRun {
    pub rounds: usize,
    pub last_text: String,
}

impl SubagentRun {
    /// No run makes more requests than the limit.
    pub open spec fn wf(&self) -> bool {
        self.rounds <= MAX_SUBAGENT_ROUNDS
    }

    /// A run before its first request.
    pub fn new() -> (r: SubagentRun)
        ensures
            r.wf(),
            r.rounds == 0,
            r.last_text@ == Seq::<char>::empty(),
    {
        SubagentRun { rounds: 0, last_text: String::new() }
    }

    /// Before a request: once the limit is reached the run ends with its
    /// summary; a cancelled run ends with [`cancelled_text`]; otherwise the
    /// request is counted and `None` says to make it.
    pub fn begin_round(&mut self, cancelled: bool) -> (r: Option<Result<String, String>>)
        requires
            old(self).wf(),
        ensures
            final(self).wf(),
            final(self).last_text == old(self).last_text,
            old(self).rounds >= MAX_SUBAGENT_ROUNDS ==> final(self).rounds == old(self).rounds && (r matches Some(
                Ok(s),
            ) && s@ == summary_of(old(self).last_text@)),
            old(self).rounds < MAX_SUBAGENT_ROUNDS && cancelled ==> final(self).rounds == old(self).rounds && (
            r matches Some(Err(e)) && e@ == cancelled_text()),
            old(self).rounds < MAX_SUBAGENT_ROUNDS && !cancelled ==> final(self).rounds == old(self).rounds + 1
                && r is None,
    {
        if self.rounds >= MAX_SUBAGENT_ROUNDS {
            return Some(Ok(self.finish()));
        }
        if cancelled {
            return Some(Err(subagent_cancelled()));
        }
        self.rounds = self.rounds + 1;
        None
    }

    /// Takes an answer that has ended: its text, where it wrote one, becomes
    /// the run's last text. Returns whether its tool calls run
    /// ([`runs_tools`]); where they do not, the run ends with its summary
    /// after each call is answered with [`not_executed_text`].
    pub fn take_answer(&mut self, draft: &AnswerDraft) -> (runs: bool)
        requires
            old(self).wf(),
        ensures
            final(self).wf(),
            final(self).rounds == old(self).rounds,
            final(self).last_text@ == (if draft@.text.len() > 0 {
                draft@.text
            } else {
                old(self).last_text@
            }),
            runs == runs_tools(draft@, false),
    {
        let text = chars_of(draft.text.as_str());
        if text.len() > 0 {
            self.last_text = string_of(text.as_slice());
        }
        let stop_is_tool_use = match draft.stop_reason {
            crate::sse::StopReason::ToolUse => true,
            _ => false,
        };
        stop_is_tool_use && draft.tool_calls.len() > 0
    }

    /// The result of a run that ends without error, as [`summary_of`] says.
    pub fn finish(&self) -> (r: String)
        ensures
            r@ == summary_of(self.last_text@),
    {
        let c = chars_of(self.last_text.as_str());
        if is_blank_exec(c.as_slice()) {
            "(subagent finished without a textual summary)".to_owned()
        } else {
            self.last_text.clone()
        }
    }
}

/// The error of a cancelled run.
pub fn subagent_cancelled() -> (r: String)
    ensures
        r@ == cancelled_text(),
{
    "Subagent cancelled.".to_owned()
}

/// What each call that does not run is answered with.
pub fn subagent_not_executed() -> (r: String)
    ensures
        r@ == not_executed_text(),
{
    "Tool call not executed.".to_owned()
}

fn prefixed(prefix: &str, rest: &str) -> (r: String)
    ensures
        r@ == prefix@ + rest@,
{
    let mut m = chars_of(prefix);
    let t = chars_of(rest);
    append_chars(&mut m, t.as_slice());
    string_of(m.as_slice())
}

/// The error that ends a run at an event: a stream error does; every other
/// event is taken into the answer.
pub fn stream_failure(event: &ProviderStreamEvent) -> (r: Option<String>)
    ensures
        match event {
            ProviderStreamEvent::Error(e) => r matches Some(m) && m@ == "Subagent stream error: "@ + e@,
            _ => r is None,
        },
{
    match event {
        ProviderStreamEvent::Error(e) => Some(prefixed("Subagent stream error: ", e.as_str())),
        _ => None,
    }
}

/// The error of a run whose request could not be sent.
pub fn provider_failure(error: &str) -> (r: String)
    ensures
        r@ == "Subagent provider error: "@ + error@,
{
    prefixed("Subagent provider error: ", error)
}

/// The error of a run whose session model is not configured.
pub fn model_not_found(model: &str) -> (r: String)
    ensures
        r@ == "Model not found: "@ + model@,
{
    prefixed("Model not found: ", model)
}

} // verus!
