//! The OpenAI Codex responses client.

pub mod auth;
pub mod body;
pub mod endpoint;
pub mod images;
pub mod input;
pub mod json;
pub mod laws;
pub mod model;
pub mod options;
pub mod provider;
pub mod request;
pub mod session;
pub mod sse;
pub mod stream_event;
pub mod text;
pub mod utf8_stream;
pub mod wire;
