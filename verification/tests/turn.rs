use oma::json::{JsonNumber, JsonValue};
use oma::message::Block;
use oma::sse::{ProviderStreamEvent, StopReason};
use oma::tui::stop_reason_label;
use oma::turn::{
    tool_result_blocks, tool_results_message, unanswered_results, AfterAnswer, AnswerDraft, StreamNotice, TokenUsage,
    ToolBatch, ToolImage, ToolOutcome,
};

fn obj(members: Vec<(&str, JsonValue)>) -> JsonValue {
    JsonValue::Object(members.into_iter().map(|(k, v)| (k.to_string(), v)).collect())
}

fn call(id: &str, name: &str) -> ProviderStreamEvent {
    ProviderStreamEvent::ToolCall { id: id.into(), name: name.into(), input: obj(vec![("n", JsonValue::Number(JsonNumber::PosInt(1)))]) }
}

#[test]
fn draft_gathers_the_stream() {
    let mut d = AnswerDraft::new();
    let mut usage = TokenUsage { input_tokens: 5, output_tokens: 1 };
    let n1 = d.apply(&mut usage, ProviderStreamEvent::ThinkingDelta("hm".into()));
    assert_eq!(n1, Some(StreamNotice::ThinkingDelta("hm".into())));
    assert_eq!(d.apply(&mut usage, ProviderStreamEvent::TextDelta("Hel".into())), Some(StreamNotice::TextDelta("Hel".into())));
    d.apply(&mut usage, ProviderStreamEvent::TextDelta("lo".into()));
    assert_eq!(d.apply(&mut usage, call("c1", "read")), None);
    d.apply(&mut usage, ProviderStreamEvent::Usage { input_tokens: 100, output_tokens: 7 });
    d.apply(&mut usage, ProviderStreamEvent::Usage { input_tokens: 0, output_tokens: 3 });
    d.apply(&mut usage, ProviderStreamEvent::Done { stop_reason: StopReason::ToolUse });
    assert_eq!(d.thinking, "hm");
    assert_eq!(d.text, "Hello");
    assert_eq!(d.tool_calls.len(), 1);
    assert_eq!(d.tool_calls[0].0, "c1");
    assert_eq!(d.request_input_tokens, 100);
    assert_eq!(usage, TokenUsage { input_tokens: 105, output_tokens: 11 });
    assert_eq!(d.stop_reason, StopReason::ToolUse);
    assert_eq!(d.after_answer(false), AfterAnswer::RunTools);

    let blocks = d.answer_blocks();
    assert_eq!(blocks.len(), 3);
    assert_eq!(blocks[0], Block::Thinking { thinking: "hm".into() });
    assert_eq!(blocks[1], Block::Text { text: "Hello".into() });
    assert!(matches!(&blocks[2], Block::ToolUse { id, name, .. } if id == "c1" && name == "read"));
}

#[test]
fn stream_error_ends_the_turn_and_unanswered_calls_get_a_reason() {
    let mut d = AnswerDraft::new();
    let mut usage = TokenUsage::default();
    d.apply(&mut usage, call("c1", "read"));
    d.apply(&mut usage, ProviderStreamEvent::Done { stop_reason: StopReason::ToolUse });
    let n = d.apply(&mut usage, ProviderStreamEvent::Error("boom".into()));
    assert_eq!(n, Some(StreamNotice::Error("boom".into())));
    assert_eq!(
        d.after_answer(false),
        AfterAnswer::Finish {
            reason: StopReason::Error,
            unanswered: Some("Tool call not executed: the turn ended before tool execution.".into()),
        }
    );
    assert_eq!(
        d.after_answer(true),
        AfterAnswer::Finish {
            reason: StopReason::Cancelled,
            unanswered: Some("Tool call cancelled before execution.".into()),
        }
    );
}

#[test]
fn plain_answer_finishes_without_placeholders() {
    let mut d = AnswerDraft::new();
    let mut usage = TokenUsage::default();
    d.apply(&mut usage, ProviderStreamEvent::TextDelta("done".into()));
    d.apply(&mut usage, ProviderStreamEvent::Done { stop_reason: StopReason::MaxTokens });
    assert_eq!(d.after_answer(false), AfterAnswer::Finish { reason: StopReason::MaxTokens, unanswered: None });
    assert_eq!(d.answer_blocks(), vec![Block::Text { text: "done".into() }]);
    assert_eq!(d.request_input_tokens, 0);
}

#[test]
fn batch_skips_calls_after_a_cancellation() {
    let mut b = ToolBatch::new(vec!["a".into(), "b".into(), "c".into()]);
    assert_eq!(b.next_call(), Some(0));
    b.record("ok".into(), false, vec![ToolImage { mime_type: "image/png".into(), data: "QQ==".into() }], false);
    assert_eq!(b.next_call(), Some(1));
    b.record("stopped".into(), true, vec![], true);
    assert_eq!(b.next_call(), None);
    let ids: Vec<&str> = b.results.iter().map(|r| r.call_id.as_str()).collect();
    assert_eq!(ids, vec!["a", "b", "c"]);
    assert_eq!(b.results[2].output, "Tool call cancelled.");
    assert!(b.results[2].is_error);

    let blocks = tool_result_blocks(b.results.clone());
    assert_eq!(blocks.len(), 4);
    assert_eq!(blocks[0], Block::ToolResult { tool_use_id: "a".into(), content: "ok".into(), is_error: false });
    assert_eq!(blocks[1], Block::Image { mime_type: "image/png".into(), data: "QQ==".into() });
    assert_eq!(blocks[3], Block::ToolResult { tool_use_id: "c".into(), content: "Tool call cancelled.".into(), is_error: true });
}

#[test]
fn batch_runs_every_call_when_not_cancelled() {
    let mut b = ToolBatch::new(vec!["x".into(), "y".into()]);
    while let Some(i) = b.next_call() {
        let out = format!("ran {}", i);
        b.record(out, false, vec![], false);
    }
    assert_eq!(b.results.len(), 2);
    assert_eq!(b.results[1].output, "ran 1");
}

#[test]
fn results_message_answers_under_the_assistant_message() {
    let rs = unanswered_results(&vec!["c1".to_string(), "c2".to_string()], "Tool call cancelled before execution.");
    assert_eq!(rs[1], ToolOutcome { call_id: "c2".into(), output: "Tool call cancelled before execution.".into(), is_error: true, images: vec![] });
    let m = tool_results_message("asst", rs).unwrap();
    assert_eq!(m.parent_id.as_deref(), Some("asst"));
    assert_eq!(m.id.len(), 36);
    assert_eq!(m.content.len(), 2);
    assert!(tool_results_message("asst", vec![]).is_none());
}

#[test]
fn stop_reasons_have_labels() {
    assert_eq!(stop_reason_label(StopReason::EndTurn), "完成");
    assert_eq!(stop_reason_label(StopReason::ToolUse), "工具调用");
    assert_eq!(stop_reason_label(StopReason::MaxTokens), "达到输出上限");
    assert_eq!(stop_reason_label(StopReason::Cancelled), "已取消");
    assert_eq!(stop_reason_label(StopReason::Error), "出错");
}
