use vstd::prelude::*;

pub mod apply_patch;
pub mod edit;
pub mod encoding;
pub mod endpoint;
pub mod grep;
pub mod hunks;
pub mod image;
pub mod json;
pub mod keys;
pub mod listing;
pub mod message;
pub mod patch_apply;
pub mod plugin;
pub mod provider;
pub mod read;
pub mod request;
pub mod room;
pub mod runtime;
pub mod schema;
pub mod screen;
pub mod search;
pub mod session;
pub mod sse;
pub mod storage;
pub mod subagent;
pub mod text;
pub mod tools;
pub mod tree;
pub mod tui;
pub mod turn;

pub use crate::encoding::base64_encode;

verus! {

} // verus!
