use oma::json::JsonValue;
use oma::sse::{ProviderStreamEvent, StopReason};
use oma::subagent::{
    model_not_found, provider_failure, stream_failure, subagent_cancelled, subagent_not_executed, SubagentRun,
    MAX_SUBAGENT_ROUNDS,
};
use oma::turn::{AnswerDraft, TokenUsage};

fn answer(events: Vec<ProviderStreamEvent>) -> AnswerDraft {
    let mut d = AnswerDraft::new();
    for e in events {
        let mut usage = TokenUsage::default();
        d.apply(&mut usage, e);
    }
    d
}

#[test]
fn subagent_run_stops_at_the_round_limit_with_its_last_text() {
    let mut run = SubagentRun::new();
    for _ in 0..MAX_SUBAGENT_ROUNDS {
        assert_eq!(run.begin_round(false), None);
        let d = answer(vec![
            ProviderStreamEvent::TextDelta("step".into()),
            ProviderStreamEvent::ToolCall { id: "c".into(), name: "read".into(), input: JsonValue::Null },
            ProviderStreamEvent::Done { stop_reason: StopReason::ToolUse },
        ]);
        assert!(run.take_answer(&d));
    }
    assert_eq!(run.rounds, 16);
    assert_eq!(run.begin_round(false), Some(Ok("step".to_string())));
    assert_eq!(run.begin_round(true), Some(Ok("step".to_string())));
}

#[test]
fn subagent_cancelled_before_a_request_ends_with_an_error() {
    let mut run = SubagentRun::new();
    assert_eq!(run.begin_round(true), Some(Err("Subagent cancelled.".to_string())));
    assert_eq!(run.rounds, 0);
    assert_eq!(subagent_cancelled(), "Subagent cancelled.");
}

#[test]
fn subagent_keeps_the_last_non_empty_text() {
    let mut run = SubagentRun::new();
    run.begin_round(false);
    let first = answer(vec![
        ProviderStreamEvent::TextDelta("found it".into()),
        ProviderStreamEvent::ToolCall { id: "c1".into(), name: "grep".into(), input: JsonValue::Null },
        ProviderStreamEvent::Done { stop_reason: StopReason::ToolUse },
    ]);
    assert!(run.take_answer(&first));
    run.begin_round(false);
    let second = answer(vec![ProviderStreamEvent::Done { stop_reason: StopReason::EndTurn }]);
    assert!(!run.take_answer(&second));
    assert_eq!(run.finish(), "found it");
}

#[test]
fn subagent_without_text_reports_no_summary() {
    let mut run = SubagentRun::new();
    run.begin_round(false);
    let d = answer(vec![ProviderStreamEvent::TextDelta("  \n".into())]);
    assert!(!run.take_answer(&d));
    assert_eq!(run.finish(), "(subagent finished without a textual summary)");
    assert_eq!(SubagentRun::new().finish(), "(subagent finished without a textual summary)");
}

#[test]
fn subagent_calls_without_tool_use_stop_are_not_executed() {
    let mut run = SubagentRun::new();
    run.begin_round(false);
    let d = answer(vec![
        ProviderStreamEvent::ToolCall { id: "c1".into(), name: "read".into(), input: JsonValue::Null },
        ProviderStreamEvent::Done { stop_reason: StopReason::MaxTokens },
    ]);
    assert!(!run.take_answer(&d));
    assert_eq!(subagent_not_executed(), "Tool call not executed.");
}

#[test]
fn subagent_error_texts() {
    assert_eq!(
        stream_failure(&ProviderStreamEvent::Error("boom".into())),
        Some("Subagent stream error: boom".to_string())
    );
    assert_eq!(stream_failure(&ProviderStreamEvent::TextDelta("x".into())), None);
    assert_eq!(provider_failure("HTTP 500"), "Subagent provider error: HTTP 500");
    assert_eq!(model_not_found("p/model-a"), "Model not found: p/model-a");
}

#[test]
fn main_turn_provider_error_text() {
    assert_eq!(oma::turn::provider_error("timeout"), "Provider error: timeout");
}
