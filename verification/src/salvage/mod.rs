//! Recovering tool calls that a model wrote into its reply as text instead
//! of through the structured tool-calling channel.

pub mod spans;
pub mod tidy;
pub mod marker;
pub mod tags;
pub mod offsets;
pub mod attrs;
pub mod words;
pub mod calls;
pub mod schema;
pub mod candidates;
pub mod recover;
pub mod authorize;
pub mod laws;
pub mod call_laws;
