//! The fixed text of the direct-message reach brief.

use vstd::prelude::*;

verus! {

/// The brief up to the room tool's name.
pub open spec fn w_reach_head() -> Seq<char> {
    "\n\n## When the answer is not yours alone\n\nYou are talking to the operator directly, and two more moves are open to you here besides answering it yourself.\n\nWhen a question needs several of your colleagues **in the same conversation** — a call that crosses their work, a trade-off with more than one right answer, a plan no one of them can size alone — bring them into a room with `"@
}

pub fn w_reach_head_chars() -> (r: Vec<char>)
    ensures
        r@ == w_reach_head(),
{
    crate::text::chars_of("\n\n## When the answer is not yours alone\n\nYou are talking to the operator directly, and two more moves are open to you here besides answering it yourself.\n\nWhen a question needs several of your colleagues **in the same conversation** — a call that crosses their work, a trade-off with more than one right answer, a plan no one of them can size alone — bring them into a room with `")
}

/// The brief between the two tool names.
pub open spec fn w_reach_middle() -> Seq<char> {
    "`. Name them by roster id from Your team above. They talk it through among themselves, not each to you separately, and everything they said comes back to you before you reply — so answer the operator yourself, saying what they worked out. Ask the way you would ask people who have not been reading over your shoulder: they cannot see this conversation, so put the question, what it is for, and anything they would otherwise have to ask you for, all in the one message. Name only who the question needs. Every seat is another voice to reconcile, and a room is the most expensive thing you can do in a turn.\n\nWhen the conversation itself belongs to somebody else — the work turned out to be another's, or you have taken it as far as you own — give it to them with `"@
}

pub fn w_reach_middle_chars() -> (r: Vec<char>)
    ensures
        r@ == w_reach_middle(),
{
    crate::text::chars_of("`. Name them by roster id from Your team above. They talk it through among themselves, not each to you separately, and everything they said comes back to you before you reply — so answer the operator yourself, saying what they worked out. Ask the way you would ask people who have not been reading over your shoulder: they cannot see this conversation, so put the question, what it is for, and anything they would otherwise have to ask you for, all in the one message. Name only who the question needs. Every seat is another voice to reconcile, and a room is the most expensive thing you can do in a turn.\n\nWhen the conversation itself belongs to somebody else — the work turned out to be another's, or you have taken it as far as you own — give it to them with `")
}

/// The brief after the hand-off tool's name.
pub open spec fn w_reach_tail() -> Seq<char> {
    "`. They pick it up in their own channel with the operator and open it themselves, so you are finished: say in your reply who you handed it to and why, and do not promise to come back with anything. Use it when you are no longer the one answering — it gives the whole conversation away.\n\nBetween them these cover the case you must never resolve by declining: there is no question here that is nobody's. If it is yours, answer it; if it needs several people together, convene them; if it is somebody else's, hand it to them by name.\n"@
}

pub fn w_reach_tail_chars() -> (r: Vec<char>)
    ensures
        r@ == w_reach_tail(),
{
    crate::text::chars_of("`. They pick it up in their own channel with the operator and open it themselves, so you are finished: say in your reply who you handed it to and why, and do not promise to come back with anything. Use it when you are no longer the one answering — it gives the whole conversation away.\n\nBetween them these cover the case you must never resolve by declining: there is no question here that is nobody's. If it is yours, answer it; if it needs several people together, convene them; if it is somebody else's, hand it to them by name.\n")
}

/// The room tool's name.
pub open spec fn w_consult_teammates() -> Seq<char> {
    "consult_teammates"@
}

pub fn w_consult_teammates_chars() -> (r: Vec<char>)
    ensures
        r@ == w_consult_teammates(),
{
    crate::text::chars_of("consult_teammates")
}

/// The hand-off tool's name.
pub open spec fn w_hand_off() -> Seq<char> {
    "hand_off"@
}

pub fn w_hand_off_chars() -> (r: Vec<char>)
    ensures
        r@ == w_hand_off(),
{
    crate::text::chars_of("hand_off")
}

} // verus!
