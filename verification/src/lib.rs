//! Core of a small coding agent: conversation-context compression, the
//! text logic of its file, edit and shell tools, tool lookup, and the
//! decisions of the chat loop.

pub mod text;
pub mod message;
pub mod context;
pub mod scale;
pub mod pattern;
pub mod tools;
pub mod agent;
