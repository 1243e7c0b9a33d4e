//! A wire adapter for chat completions.
//!
//! The library translates between the requests and events of the Responses model and the chat
//! wire:
//!
//! - [`build_chat_request`] builds the JSON body of a chat request;
//! - [`ChatStream`] reads the chat response from a stream of server-sent events, step by step, and
//!   tells it as events;
//! - [`encode_name`] and [`decode_name`] take a tool's namespace and name over the wire in one name;
//! - the tools in [`apply_patch_spec`] let a model edit files.
//!
//! It makes no requests and owns no stream: whoever uses it does. What holds of it as a whole is
//! stated in [`laws`].

pub mod apply_patch_spec;
pub mod chunk;
pub mod error;
pub mod ids;
pub mod json;
pub mod laws;
pub mod protocol;
pub mod request;
pub mod response;
pub mod sse;
pub mod stream;
pub mod text;
pub mod tool_map;
pub mod turn;
pub mod xml_calls;

pub use crate::apply_patch_spec::{
    create_apply_patch_freeform_tool, create_apply_patch_function_tool,
};
pub use crate::request::build_chat_request;
pub use crate::stream::ChatStream;
pub use crate::tool_map::{decode_name, encode_name, translate_tools, ToolKind, ToolReverseMap};
