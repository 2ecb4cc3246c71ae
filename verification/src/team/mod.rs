//! The part of each agent's prompt that introduces its colleagues: their
//! ids, roles and mandates, and the desks the agent itself belongs to.
//!
//! The roster is rendered into every agent's prompt, statically, so that a
//! teammate never tells the operator a colleague is out of reach. It lists
//! ids, roles and mandates, the desks this agent sits on with their
//! members and lead, and, when the agent's entry narrows whom it may bring
//! in, exactly who that is.

pub mod words;
pub mod record;
pub mod section;
