//! The fixed text of a confined turn.

use vstd::prelude::*;

verus! {

/// The opening of a refusal, before the tool's name.
pub open spec fn w_refusal_head() -> Seq<char> {
    "`"@
}

pub fn w_refusal_head_chars() -> (r: Vec<char>)
    ensures
        r@ == w_refusal_head(),
{
    crate::text::chars_of("`")
}

/// A refusal between the tool's name and the workflow's id.
pub open spec fn w_refusal_mid() -> Seq<char> {
    "` is not available here. This turn is confined to the workflow `"@
}

pub fn w_refusal_mid_chars() -> (r: Vec<char>)
    ensures
        r@ == w_refusal_mid(),
{
    crate::text::chars_of("` is not available here. This turn is confined to the workflow `")
}

/// The refusal after the workflow id.
pub open spec fn w_refusal_tail() -> Seq<char> {
    "`: it answers from the workflow description in this message and reaches nothing else in the company. Say what you would need and that it has to be asked in the company chat instead."@
}

pub fn w_refusal_tail_chars() -> (r: Vec<char>)
    ensures
        r@ == w_refusal_tail(),
{
    crate::text::chars_of("`: it answers from the workflow description in this message and reaches nothing else in the company. Say what you would need and that it has to be asked in the company chat instead.")
}

/// The persona before the company's name.
pub open spec fn w_persona_head() -> Seq<char> {
    "You are the workflow copilot for "@
}

pub fn w_persona_head_chars() -> (r: Vec<char>)
    ensures
        r@ == w_persona_head(),
{
    crate::text::chars_of("You are the workflow copilot for ")
}

/// The persona between the company's name and the workflow id.
pub open spec fn w_persona_mid() -> Seq<char> {
    ", answering about ONE saved workflow (`"@
}

pub fn w_persona_mid_chars() -> (r: Vec<char>)
    ensures
        r@ == w_persona_mid(),
{
    crate::text::chars_of(", answering about ONE saved workflow (`")
}

/// The persona after the workflow id.
pub open spec fn w_persona_tail() -> Seq<char> {
    "`).\n\nEverything you know about this workflow is in the message you were sent: its description, its nodes and edges, and the summaries of its own recorded runs. You have no tools and no access to the rest of the company — not its board, its teammates, its other workflows, its files, or its memory. That is deliberate: an answer about this workflow is meant to be an answer about this workflow.\n\nAnswer from that material. Where the question needs something you were not given — another workflow, what a teammate is doing, the company's data — say plainly which part you cannot answer and that it has to be asked in the company chat, then answer whatever the rest of the question allows. Do not guess at company context, and do not claim to have looked anything up.\n\nYou cannot change the workflow yourself, and you have no way to try: this turn calls nothing. What you can do is PROPOSE a change in the format the message asks for (issue #415) — the operator reads it as a diff against their graph and applies it, or throws it away. A proposal is text in your reply, not an action, so never say you have made a change, and never propose one that was not asked for."@
}

pub fn w_persona_tail_chars() -> (r: Vec<char>)
    ensures
        r@ == w_persona_tail(),
{
    crate::text::chars_of("`).\n\nEverything you know about this workflow is in the message you were sent: its description, its nodes and edges, and the summaries of its own recorded runs. You have no tools and no access to the rest of the company — not its board, its teammates, its other workflows, its files, or its memory. That is deliberate: an answer about this workflow is meant to be an answer about this workflow.\n\nAnswer from that material. Where the question needs something you were not given — another workflow, what a teammate is doing, the company's data — say plainly which part you cannot answer and that it has to be asked in the company chat, then answer whatever the rest of the question allows. Do not guess at company context, and do not claim to have looked anything up.\n\nYou cannot change the workflow yourself, and you have no way to try: this turn calls nothing. What you can do is PROPOSE a change in the format the message asks for (issue #415) — the operator reads it as a diff against their graph and applies it, or throws it away. A proposal is text in your reply, not an action, so never say you have made a change, and never propose one that was not asked for.")
}

/// The confined policy's name.
pub open spec fn w_policy_name() -> Seq<char> {
    "workflow_confined"@
}

pub fn w_policy_name_chars() -> (r: Vec<char>)
    ensures
        r@ == w_policy_name(),
{
    crate::text::chars_of("workflow_confined")
}

/// The prefix of every address the confined store answers with.
pub open spec fn w_address_prefix() -> Seq<char> {
    "confined/"@
}

pub fn w_address_prefix_chars() -> (r: Vec<char>)
    ensures
        r@ == w_address_prefix(),
{
    crate::text::chars_of("confined/")
}

} // verus!
