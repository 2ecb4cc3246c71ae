//! The tool-calling vocabulary a model request and response carry: the
//! schemas a turn offers, the choice it makes about them, and the calls that
//! come back.

use vstd::prelude::*;
use crate::json::{Json, JsonV, jview};

verus! {

/// One tool as a request offers it: its name, what it does, and the JSON
/// Schema of its arguments.
pub struct ToolSchema {
    pub name: String,
    pub description: String,
    pub parameters: Json,
}

impl ToolSchema {
    pub fn new(name: String, description: String, parameters: Json) -> (r: ToolSchema)
        ensures
            r.name@ == name@,
            r.description@ == description@,
            jview(r.parameters) == jview(parameters),
    {
        ToolSchema { name, description, parameters }
    }
}

/// How much a tool may change when it runs. The tools of this library all
/// act within the company, so one level is all they declare.
#[derive(PartialEq, Eq, Structural, Debug, Clone, Copy)]
pub enum PermissionLevel {
    /// The tool changes state: it writes, or spends another agent's turn.
    Write,
}

/// What a request tells the model about calling its tools.
pub enum ToolChoice {
    /// The model may call any offered tool, or none.
    Auto,
    /// The model must call some offered tool.
    Required,
    /// The model must not call any tool (`"none"` on the wire).
    NoTools,
    /// The model must call the named tool.
    Tool(String),
}

/// One call a model asked for: the id that pairs it with its result, the
/// tool's name, its arguments, and, when its body would not parse, why.
pub struct ToolCall {
    pub id: String,
    pub name: String,
    pub arguments: Json,
    pub invalid: Option<String>,
}

/// A call as plain values: `(id, name, arguments)`.
pub type CallV = (Seq<char>, Seq<char>, JsonV);

pub open spec fn call_v(c: ToolCall) -> CallV {
    (c.id@, c.name@, jview(c.arguments))
}

pub open spec fn calls_view(v: Seq<ToolCall>) -> Seq<CallV> {
    Seq::new(v.len(), |k: int| call_v(v[k]))
}

} // verus!
