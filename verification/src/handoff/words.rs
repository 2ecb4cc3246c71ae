//! The fixed text of the hand-off tool.

use vstd::prelude::*;

verus! {

/// The refusal for a blank name.
pub open spec fn w_ask_for_name() -> Seq<char> {
    "name the teammate you are handing to"@
}

pub fn w_ask_for_name_chars() -> (r: Vec<char>)
    ensures
        r@ == w_ask_for_name(),
{
    crate::text::chars_of("name the teammate you are handing to")
}

/// The refusal for handing to oneself.
pub open spec fn w_not_yourself() -> Seq<char> {
    "you cannot hand to yourself; answer the operator, or name somebody else"@
}

pub fn w_not_yourself_chars() -> (r: Vec<char>)
    ensures
        r@ == w_not_yourself(),
{
    crate::text::chars_of("you cannot hand to yourself; answer the operator, or name somebody else")
}

/// The refusal for a retired teammate, after the name.
pub open spec fn w_retired_tail() -> Seq<char> {
    "` has been retired from this company and cannot pick anything up"@
}

pub fn w_retired_tail_chars() -> (r: Vec<char>)
    ensures
        r@ == w_retired_tail(),
{
    crate::text::chars_of("` has been retired from this company and cannot pick anything up")
}

/// The refusal for an unknown name, before the name.
pub open spec fn w_unknown_head() -> Seq<char> {
    "no teammate here is called `"@
}

pub fn w_unknown_head_chars() -> (r: Vec<char>)
    ensures
        r@ == w_unknown_head(),
{
    crate::text::chars_of("no teammate here is called `")
}

/// The refusal for an unknown name, before the choices.
pub open spec fn w_unknown_mid() -> Seq<char> {
    "`; the ones you can hand to are: "@
}

pub fn w_unknown_mid_chars() -> (r: Vec<char>)
    ensures
        r@ == w_unknown_mid(),
{
    crate::text::chars_of("`; the ones you can hand to are: ")
}

/// The choices when there is nobody else.
pub open spec fn w_only_one() -> Seq<char> {
    "nobody — you are the only teammate"@
}

pub fn w_only_one_chars() -> (r: Vec<char>)
    ensures
        r@ == w_only_one(),
{
    crate::text::chars_of("nobody — you are the only teammate")
}

/// The opening brief before the handing teammate's id.
pub open spec fn w_brief_open() -> Seq<char> {
    "I am @"@
}

pub fn w_brief_open_chars() -> (r: Vec<char>)
    ensures
        r@ == w_brief_open(),
{
    crate::text::chars_of("I am @")
}

/// The opening brief between the handing teammate's id and the ask.
pub open spec fn w_brief_after_from() -> Seq<char> {
    ", and I am handing this to you. It is yours from here, and this is the ask:\n\n"@
}

pub fn w_brief_after_from_chars() -> (r: Vec<char>)
    ensures
        r@ == w_brief_after_from(),
{
    crate::text::chars_of(", and I am handing this to you. It is yours from here, and this is the ask:\n\n")
}

/// The opening brief after the ask.
pub open spec fn w_brief_rest() -> Seq<char> {
    "\n\nAct on it. If something in it is genuinely unclear, ask me — here, not the operator, and only about what the ask does not already say.\n\n**The operator hears from you, not from me, and only through `dm_operator`.** Anything you say in this room reaches me alone. So tell them twice: once now, that you have taken it on and what you understand it to be, and again when you have something — what you produced and where it is. Between those two they are waiting, so do not leave the second one unsaid. They have been talking to me about this, so pick it up where it left off rather than opening as though it were new."@
}

pub fn w_brief_rest_chars() -> (r: Vec<char>)
    ensures
        r@ == w_brief_rest(),
{
    crate::text::chars_of("\n\nAct on it. If something in it is genuinely unclear, ask me — here, not the operator, and only about what the ask does not already say.\n\n**The operator hears from you, not from me, and only through `dm_operator`.** Anything you say in this room reaches me alone. So tell them twice: once now, that you have taken it on and what you understand it to be, and again when you have something — what you produced and where it is. Between those two they are waiting, so do not leave the second one unsaid. They have been talking to me about this, so pick it up where it left off rather than opening as though it were new.")
}

/// The argument naming the receiving teammate.
pub open spec fn w_to() -> Seq<char> {
    "to"@
}

pub fn w_to_chars() -> (r: Vec<char>)
    ensures
        r@ == w_to(),
{
    crate::text::chars_of("to")
}

/// The argument carrying the ask.
pub open spec fn w_brief() -> Seq<char> {
    "brief"@
}

pub fn w_brief_chars() -> (r: Vec<char>)
    ensures
        r@ == w_brief(),
{
    crate::text::chars_of("brief")
}

/// The refusal for a call with no usable brief.
pub open spec fn w_need_brief() -> Seq<char> {
    "a hand-off needs a `brief`: they cannot see this conversation"@
}

pub fn w_need_brief_chars() -> (r: Vec<char>)
    ensures
        r@ == w_need_brief(),
{
    crate::text::chars_of("a hand-off needs a `brief`: they cannot see this conversation")
}

/// The delivery report before the receiving teammate's id.
pub open spec fn w_delivered_open() -> Seq<char> {
    "Delivered. @"@
}

pub fn w_delivered_open_chars() -> (r: Vec<char>)
    ensures
        r@ == w_delivered_open(),
{
    crate::text::chars_of("Delivered. @")
}

/// The delivery report after the receiving teammate's id.
pub open spec fn w_delivered_rest() -> Seq<char> {
    " has the ask in the channel you share, and is taking it on there now — this returns before their first turn, so say you have handed it over, not that they have finished. They speak to the operator themselves from here: do not relay for them and do not promise anything on their behalf. If they need something from you they will ask you directly. You are no longer on this — say who you handed to and why, and stop."@
}

pub fn w_delivered_rest_chars() -> (r: Vec<char>)
    ensures
        r@ == w_delivered_rest(),
{
    crate::text::chars_of(" has the ask in the channel you share, and is taking it on there now — this returns before their first turn, so say you have handed it over, not that they have finished. They speak to the operator themselves from here: do not relay for them and do not promise anything on their behalf. If they need something from you they will ask you directly. You are no longer on this — say who you handed to and why, and stop.")
}

/// The failed pick-up row before the handing teammate's id.
pub open spec fn w_pickup_open() -> Seq<char> {
    "@"@
}

pub fn w_pickup_open_chars() -> (r: Vec<char>)
    ensures
        r@ == w_pickup_open(),
{
    crate::text::chars_of("@")
}

/// The failed pick-up row before the error.
pub open spec fn w_pickup_mid() -> Seq<char> {
    " handed this to me but I could not pick it up: "@
}

pub fn w_pickup_mid_chars() -> (r: Vec<char>)
    ensures
        r@ == w_pickup_mid(),
{
    crate::text::chars_of(" handed this to me but I could not pick it up: ")
}

/// The failed pick-up row after the error.
pub open spec fn w_pickup_rest() -> Seq<char> {
    ". Please say again what you need and I will start from there."@
}

pub fn w_pickup_rest_chars() -> (r: Vec<char>)
    ensures
        r@ == w_pickup_rest(),
{
    crate::text::chars_of(". Please say again what you need and I will start from there.")
}

/// How the driver's turn-wall error reads.
pub open spec fn w_turn_wall() -> Seq<char> {
    "turn wall"@
}

pub fn w_turn_wall_chars() -> (r: Vec<char>)
    ensures
        r@ == w_turn_wall(),
{
    crate::text::chars_of("turn wall")
}

/// How the wall-clock bound's error reads.
pub open spec fn w_ran_past() -> Seq<char> {
    "ran past"@
}

pub fn w_ran_past_chars() -> (r: Vec<char>)
    ensures
        r@ == w_ran_past(),
{
    crate::text::chars_of("ran past")
}

/// The hand-over room's title between the two ids.
pub open spec fn w_room_mid() -> Seq<char> {
    " handing to "@
}

pub fn w_room_mid_chars() -> (r: Vec<char>)
    ensures
        r@ == w_room_mid(),
{
    crate::text::chars_of(" handing to ")
}

/// The refusal when the host has no agent pool in place.
pub open spec fn w_not_wired() -> Seq<char> {
    "handing off is not wired on this host"@
}

pub fn w_not_wired_chars() -> (r: Vec<char>)
    ensures
        r@ == w_not_wired(),
{
    crate::text::chars_of("handing off is not wired on this host")
}

/// The refusal when the company record is missing.
pub open spec fn w_gone() -> Seq<char> {
    "this company is no longer loaded"@
}

pub fn w_gone_chars() -> (r: Vec<char>)
    ensures
        r@ == w_gone(),
{
    crate::text::chars_of("this company is no longer loaded")
}

/// What leads the refusal when the company record could not be read.
pub open spec fn w_unreadable() -> Seq<char> {
    "this company could not be read: "@
}

pub fn w_unreadable_chars() -> (r: Vec<char>)
    ensures
        r@ == w_unreadable(),
{
    crate::text::chars_of("this company could not be read: ")
}

/// What leads the refusal when the brief could not be journaled.
pub open spec fn w_not_journaled() -> Seq<char> {
    "the hand-over could not be journaled, so nobody was told: "@
}

pub fn w_not_journaled_chars() -> (r: Vec<char>)
    ensures
        r@ == w_not_journaled(),
{
    crate::text::chars_of("the hand-over could not be journaled, so nobody was told: ")
}

/// What leads the error of a room that outran its wall-clock bound.
pub open spec fn w_abandon_head() -> Seq<char> {
    "the hand-over room "@
}

pub fn w_abandon_head_chars() -> (r: Vec<char>)
    ensures
        r@ == w_abandon_head(),
{
    crate::text::chars_of("the hand-over room ")
}

/// What ends the error of a room that outran its wall-clock bound.
pub open spec fn w_abandon_tail() -> Seq<char> {
    "s and was abandoned"@
}

pub fn w_abandon_tail_chars() -> (r: Vec<char>)
    ensures
        r@ == w_abandon_tail(),
{
    crate::text::chars_of("s and was abandoned")
}

/// What the tool tells the model it is for.
pub open spec fn w_description() -> Seq<char> {
    "Hand this conversation to the teammate who should be having it, and stop. Use it when the work turns out to be somebody else's, or when you have taken it as far as you own. They pick it up in their own channel with the operator and open the conversation themselves, so do not promise to come back with anything. After calling this, say in your reply who you handed to and why — that sentence is what the operator reads. If you only need something from a teammate and are still the one answering, delegate to them instead; this gives the conversation away."@
}

/// How the `to` argument is described to the model.
pub open spec fn w_to_help() -> Seq<char> {
    "The teammate taking it over, by roster id."@
}

pub fn w_to_help_chars() -> (r: Vec<char>)
    ensures
        r@ == w_to_help(),
{
    crate::text::chars_of("The teammate taking it over, by roster id.")
}

/// How the `brief` argument is described to the model.
pub open spec fn w_brief_help() -> Seq<char> {
    "The ask, written so they can act on it without coming back to you: what is being asked for, what you have already done or ruled out, what is still open, and anything the operator told you that bears on it. State the deliverable plainly — they should be able to start from this alone."@
}

pub fn w_brief_help_chars() -> (r: Vec<char>)
    ensures
        r@ == w_brief_help(),
{
    crate::text::chars_of("The ask, written so they can act on it without coming back to you: what is being asked for, what you have already done or ruled out, what is still open, and anything the operator told you that bears on it. State the deliverable plainly — they should be able to start from this alone.")
}

} // verus!
