//! A real-time chat view's protocol core: the JSON wire envelope, its codec, and the
//! state machine that keeps the roster of users and the transcript of messages.
pub mod text;
pub mod json;
pub mod envelope;
pub mod chat;
