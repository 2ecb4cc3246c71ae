//! The persona brief for the two moves a teammate answering an operator
//! directly has for reaching the rest of the company: convening several
//! colleagues in a room, and handing the conversation to somebody else.

pub mod words;

use vstd::prelude::*;
use crate::dm_reach::words::{
    w_consult_teammates, w_consult_teammates_chars, w_hand_off, w_hand_off_chars, w_reach_head,
    w_reach_head_chars, w_reach_middle, w_reach_middle_chars, w_reach_tail, w_reach_tail_chars,
};
use crate::text::{push_all, string_of};

verus! {

/// The name of the tool that convenes several teammates in one room.
pub const CONSULT_TEAMMATES_TOOL: &'static str = "consult_teammates";

/// The brief: its own section, saying when to convene colleagues with the
/// room tool and when to give the conversation away with the hand-off tool,
/// each named as the belt calls it.
pub open spec fn reach_text() -> Seq<char> {
    w_reach_head() + w_consult_teammates() + w_reach_middle() + w_hand_off() + w_reach_tail()
}

/// The reach brief, with both tool names filled in.
pub fn dm_reach_brief() -> (r: String)
    ensures
        r@ == reach_text(),
{
    let mut m = w_reach_head_chars();
    let c = w_consult_teammates_chars();
    push_all(&mut m, c.as_slice());
    let mid = w_reach_middle_chars();
    push_all(&mut m, mid.as_slice());
    let h = w_hand_off_chars();
    push_all(&mut m, h.as_slice());
    let tail = w_reach_tail_chars();
    push_all(&mut m, tail.as_slice());
    string_of(m.as_slice())
}

} // verus!
