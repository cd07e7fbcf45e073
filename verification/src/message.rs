//! The messages of a conversation: who sent them and the blocks they hold.
use vstd::prelude::*;

use crate::json::{Json, JsonValue};

verus! {

/// Who sent a message.
#[derive(Debug, Clone, Copy, PartialEq, Eq)]
pub enum Role {
    User,
    Assistant,
    System,
}

/// One block of a message.
#[derive(Debug, PartialEq)]
pub enum Block {
    Text { text: String },
    Thinking { thinking: String },
    ToolUse { id: String, name: String, input: JsonValue },
    ToolResult { tool_use_id: String, content: String, is_error: bool },
    Image { mime_type: String, data: String },
}

/// One message of a conversation tree.
#[derive(Debug, PartialEq)]
pub struct ChatMessage {
    pub id: String,
    pub parent_id: Option<String>,
    pub role: Role,
    pub content: Vec<Block>,
    pub created_at: i64,
}

/// What a block holds.
pub enum BlockView {
    Text(Seq<char>),
    Thinking(Seq<char>),
    /// Call id, tool name, input.
    ToolUse(Seq<char>, Seq<char>, Json),
    /// Call id, content, whether it reports an error.
    ToolResult(Seq<char>, Seq<char>, bool),
    /// Media type, base64 data.
    Image(Seq<char>, Seq<char>),
}

impl View for Block {
    type V = BlockView;

    open spec fn view(&self) -> BlockView {
        match self {
            Block::Text { text } => BlockView::Text(text@),
            Block::Thinking { thinking } => BlockView::Thinking(thinking@),
            Block::ToolUse { id, name, input } => BlockView::ToolUse(id@, name@, input@),
            Block::ToolResult { tool_use_id, content, is_error } => BlockView::ToolResult(
                tool_use_id@,
                content@,
                *is_error,
            ),
            Block::Image { mime_type, data } => BlockView::Image(mime_type@, data@),
        }
    }
}

/// What a message holds.
pub struct MessageView {
    pub id: Seq<char>,
    pub parent_id: Option<Seq<char>>,
    pub role: Role,
    pub content: Seq<BlockView>,
    pub created_at: i64,
}

pub open spec fn blocks_view(bs: Seq<Block>) -> Seq<BlockView> {
    Seq::new(bs.len(), |i: int| bs[i]@)
}

impl View for ChatMessage {
    type V = MessageView;

    open spec fn view(&self) -> MessageView {
        MessageView {
            id: self.id@,
            parent_id: match self.parent_id {
                Some(p) => Some(p@),
                None => None,
            },
            role: self.role,
            content: blocks_view(self.content@),
            created_at: self.created_at,
        }
    }
}

pub open spec fn messages_view(ms: Seq<ChatMessage>) -> Seq<MessageView> {
    Seq::new(ms.len(), |i: int| ms[i]@)
}

} // verus!
