//! Streaming chat-completion client core: a frame splitter for the
//! server-sent event stream, the payload queue with its end-of-stream
//! marker, the content accumulator, the token-budgeted conversation window
//! and the assembly of outbound requests.
pub mod client;
pub mod conversation;
pub mod error;
pub mod frame;
pub mod model;
pub mod reader;
pub mod request;
