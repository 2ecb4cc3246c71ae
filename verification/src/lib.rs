//! Verified core of the opencompany harness: recovering tool calls that a
//! model wrote as text, the team section of an agent's prompt, the confined
//! turn, the hand-off rule and the direct-message reach brief.

pub mod text;
pub mod order;
pub mod json;
pub mod tools;
pub mod team;
pub mod handoff;
pub mod dm_reach;
pub mod confine;
pub mod pool_handle;
pub mod salvage;
