//! An approval-gated agent loop between an operator, a language model and a script VM.
pub mod adapter;
pub mod agent;
pub mod codec;
pub mod config;
pub mod registry;
pub mod script;
pub mod stream;
pub mod text;
