//! A turn whose agent can use nothing beyond the text it is handed.
//!
//! Such a turn is built for one answer and then dropped. Its tool policy,
//! [`ConfinedToolPolicy`], turns down any call at all, so the limit holds even
//! if a tool were wired in by mistake; [`ConfinedContext`] is a memory store
//! that keeps nothing; and [`confined_persona`] tells the model that the
//! message is all it has.

pub mod words;

use vstd::prelude::*;
use crate::confine::words::{
    w_address_prefix, w_address_prefix_chars, w_persona_head, w_persona_head_chars, w_persona_mid,
    w_persona_mid_chars, w_persona_tail, w_persona_tail_chars, w_policy_name, w_policy_name_chars,
    w_refusal_head, w_refusal_head_chars, w_refusal_mid, w_refusal_mid_chars, w_refusal_tail,
    w_refusal_tail_chars,
};
use crate::text::{chars_of, push_all, string_of};

verus! {

/// What one confined turn is confined **to**.
pub enum Confinement {
    /// The workflow copilot: one saved workflow, named by id.
    Workflow { id: String },
}

impl Confinement {
    /// The confinement to the workflow `id`.
    pub fn workflow(id: String) -> (r: Confinement)
        ensures
            r matches Confinement::Workflow { id: i } && i@ == id@,
    {
        Confinement::Workflow { id }
    }

    /// What the turn is confined to: the workflow's id.
    pub fn subject(&self) -> (r: &str)
        ensures
            r@ == subject_of(*self),
    {
        match self {
            Confinement::Workflow { id } => id.as_str(),
        }
    }
}

/// What a confinement is about: the workflow's id.
pub open spec fn subject_of(c: Confinement) -> Seq<char> {
    match c {
        Confinement::Workflow { id } => id@,
    }
}

/// A store that stores nothing and finds nothing: writes are accepted and
/// dropped, reads answer empty, and deletes find nothing to delete.
pub struct ConfinedContext;

/// The address a write of a chunk labelled `label` is answered with.
pub open spec fn confined_address(label: Seq<char>) -> Seq<char> {
    w_address_prefix() + label
}

impl ConfinedContext {
    /// Accepts a chunk labelled `label` and drops it, answering with an
    /// address derived from the label.
    pub fn put(&self, label: &str) -> (r: String)
        ensures
            r@ == confined_address(label@),
    {
        let mut m = w_address_prefix_chars();
        let l = chars_of(label);
        push_all(&mut m, l.as_slice());
        string_of(m.as_slice())
    }

    /// The addresses of the chunks stored under `prefix`: none.
    pub fn list(&self, prefix: &str) -> (r: Vec<String>)
        ensures
            r@.len() == 0,
    {
        Vec::new()
    }

    /// The addresses of the chunks, at most `limit`, that match `query`:
    /// none.
    pub fn search(&self, query: &str, limit: usize) -> (r: Vec<String>)
        ensures
            r@.len() == 0,
    {
        Vec::new()
    }

    /// What is stored at `addr`: nothing.
    pub fn peek(&self, addr: &str) -> (r: String)
        ensures
            r@.len() == 0,
    {
        String::new()
    }

    /// Deletes what is stored at `addr`: nothing was, so nothing is.
    pub fn delete(&self, addr: &str) -> (r: bool)
        ensures
            !r,
    {
        false
    }

    /// Deletes the claim `label` at `addr`: none was stored.
    pub fn delete_label(&self, addr: &str, label: &str) -> (r: bool)
        ensures
            !r,
    {
        false
    }
}

/// What a tool policy decides about one call.
pub enum ToolPolicyDecision {
    /// The call may run.
    Allow,
    /// The call is refused, with the reason the model reads.
    Deny(String),
}

/// Denies every tool call, whatever the belt holds.
pub struct ConfinedToolPolicy {
    confinement: Confinement,
}

/// The refusal a denied call to `tool` carries on a turn confined to the
/// workflow `id`: it names the tool and the boundary.
pub open spec fn refusal_text(tool: Seq<char>, id: Seq<char>) -> Seq<char> {
    w_refusal_head() + tool + w_refusal_mid() + id + w_refusal_tail()
}

impl ConfinedToolPolicy {
    /// The policy for a turn confined by `confinement`.
    pub fn new(confinement: Confinement) -> (r: ConfinedToolPolicy)
        ensures
            r.subject_spec() == subject_of(confinement),
    {
        ConfinedToolPolicy { confinement }
    }

    /// What the confinement this policy enforces is about.
    pub closed spec fn subject_spec(&self) -> Seq<char> {
        subject_of(self.confinement)
    }

    /// The text a refused call to `tool_name` comes back with: it names the
    /// tool and the workflow the turn is limited to.
    pub fn refusal(&self, tool_name: &str) -> (r: String)
        ensures
            r@ == refusal_text(tool_name@, self.subject_spec()),
    {
        match &self.confinement {
            Confinement::Workflow { id } => {
                let mut m = w_refusal_head_chars();
                let t = chars_of(tool_name);
                push_all(&mut m, t.as_slice());
                let mid = w_refusal_mid_chars();
                push_all(&mut m, mid.as_slice());
                let i = chars_of(id.as_str());
                push_all(&mut m, i.as_slice());
                let tail = w_refusal_tail_chars();
                push_all(&mut m, tail.as_slice());
                string_of(m.as_slice())
            },
        }
    }

    /// The policy's name.
    pub fn name(&self) -> (r: String)
        ensures
            r@ == w_policy_name(),
    {
        string_of(w_policy_name_chars().as_slice())
    }

    /// Decides a call to `tool_name`: every call is denied, with the
    /// refusal for that tool.
    pub fn check(&self, tool_name: &str) -> (r: ToolPolicyDecision)
        ensures
            r matches ToolPolicyDecision::Deny(reason) && reason@ == refusal_text(tool_name@, self.subject_spec()),
    {
        ToolPolicyDecision::Deny(self.refusal(tool_name))
    }
}

/// The persona text: the company, the workflow, what the model has to work
/// from, and how to answer beyond it.
pub open spec fn persona_text(company: Seq<char>, id: Seq<char>) -> Seq<char> {
    w_persona_head() + company + w_persona_mid() + id + w_persona_tail()
}

/// The confined agent's persona.
pub fn confined_persona(company_name: &str, confinement: &Confinement) -> (r: String)
    ensures
        r@ == persona_text(company_name@, subject_of(*confinement)),
{
    match confinement {
        Confinement::Workflow { id } => {
            let mut m = w_persona_head_chars();
            let c = chars_of(company_name);
            push_all(&mut m, c.as_slice());
            let mid = w_persona_mid_chars();
            push_all(&mut m, mid.as_slice());
            let i = chars_of(id.as_str());
            push_all(&mut m, i.as_slice());
            let tail = w_persona_tail_chars();
            push_all(&mut m, tail.as_slice());
            string_of(m.as_slice())
        },
    }
}

/// Every call on a confined turn is refused, and the refusal names both
/// the tool that was asked for and the workflow the turn is confined to.
pub proof fn lemma_refusal_names_tool_and_workflow(tool: Seq<char>, id: Seq<char>)
    ensures
        refusal_text(tool, id).subrange(1, 1 + tool.len() as int) == tool,
        refusal_text(tool, id).subrange(
            1 + tool.len() + w_refusal_mid().len() as int,
            1 + tool.len() + w_refusal_mid().len() + id.len() as int,
        ) == id,
{
    let r = refusal_text(tool, id);
    let m = w_refusal_mid().len() as int;
    reveal_strlit("`");
    assert(w_refusal_head().len() == 1);
    assert(r.subrange(1, 1 + tool.len() as int) =~= tool);
    assert(r.subrange(1 + tool.len() + m, 1 + tool.len() + m + id.len() as int) =~= id);
}

} // verus!
