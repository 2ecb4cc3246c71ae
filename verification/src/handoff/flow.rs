//! A hand-off call, one decision at a time.
//!
//! Answering a `hand_off` call takes the host four trips: reading the
//! company, journaling the brief in the channel the two teammates share,
//! assembling the room and launching it. Between trips the tool decides
//! whether to go on, and with what. `HandOffTool::step` is that decision:
//! from where the call stands and what the host last reported, the next
//! stage and what the host should do. Once launched, the room runs detached;
//! `after_room` decides what, if anything, the receiving teammate says when
//! it has ended.

use vstd::prelude::*;
use crate::handoff::{
    HandOffTool, RoomOutcome, brief_arg, brief_of, delivered, delivered_text, missing_brief,
    opening_text, pickup_failure, pickup_failure_text, room_failed, room_failed_spec, room_title,
    room_title_text, target_check, target_of, to_arg, lemma_hand_off_target,
};
use crate::handoff::words::{
    w_abandon_head, w_abandon_head_chars, w_abandon_tail, w_abandon_tail_chars, w_gone, w_gone_chars,
    w_need_brief, w_not_journaled, w_not_journaled_chars, w_not_wired, w_not_wired_chars, w_ran_past,
    w_ran_past_chars, w_unreadable, w_unreadable_chars,
};
use crate::json::{Json, JsonV, jview};
use crate::salvage::calls::strings_view;
use crate::text::{chars_of, decimal, decimal_chars, find_in, matches_at, push_all, string_of};

verus! {

broadcast use vstd::std_specs::vec::group_vec_axioms;

/// Where a hand-off call stands.
pub enum HandOffStage {
    /// Nothing has happened yet.
    Ready,
    /// The brief is in hand and the company is being read; `to` is the
    /// receiver as the call named it.
    Loading { brief: String, to: String },
    /// The receiver is settled and the brief is being journaled; `seats` is
    /// how many teammates the company has.
    Journaling { to: String, seats: u64 },
    /// The brief was journaled under `handed_at` and the room is being
    /// assembled.
    Assembling { to: String, handed_at: u64 },
    /// The call has been answered.
    Answered,
}

/// What the host reports back.
pub enum HandOffEvent {
    /// The model called the tool with `args`; `wired` says whether the host
    /// has its agent pool in place.
    Called { args: Json, wired: bool },
    /// The company was read: the ids of its effective roster and of its
    /// retired teammates.
    Loaded { roster: Vec<String>, retired: Vec<String> },
    /// The company is no longer loaded.
    Gone,
    /// Reading the company failed; the error as it displays.
    Unreadable(String),
    /// The brief was journaled under this sequence number.
    Journaled(u64),
    /// Journaling the brief failed; the error as it displays.
    NotJournaled(String),
    /// The room was assembled.
    Assembled,
    /// Assembling the room failed; the error as it displays.
    NotAssembled(String),
}

/// What the host is asked to do next.
pub enum HandOffAction {
    /// Answer the call with this error.
    Fail(String),
    /// Read the company's record.
    Load,
    /// Journal `text` from the handing teammate in the channel it shares
    /// with `to`.
    Journal { to: String, text: String },
    /// Assemble the room titled `title` for `members`, out of a company of
    /// `seats` teammates.
    Assemble { title: String, members: Vec<String>, seats: u64 },
    /// Launch the room rooted at `handed_at`, with `to` opening it, and
    /// answer the call with `reply`.
    Launch { to: String, handed_at: u64, reply: String },
    /// The report does not belong at this stage; nothing changes.
    Wait,
}

pub enum StageV {
    Ready,
    Loading { brief: Seq<char>, to: Seq<char> },
    Journaling { to: Seq<char>, seats: u64 },
    Assembling { to: Seq<char>, handed_at: u64 },
    Answered,
}

pub enum EventV {
    Called { args: JsonV, wired: bool },
    Loaded { roster: Seq<Seq<char>>, retired: Seq<Seq<char>> },
    Gone,
    Unreadable(Seq<char>),
    Journaled(u64),
    NotJournaled(Seq<char>),
    Assembled,
    NotAssembled(Seq<char>),
}

pub enum ActionV {
    Fail(Seq<char>),
    Load,
    Journal { to: Seq<char>, text: Seq<char> },
    Assemble { title: Seq<char>, members: Seq<Seq<char>>, seats: u64 },
    Launch { to: Seq<char>, handed_at: u64, reply: Seq<char> },
    Wait,
}

impl View for HandOffStage {
    type V = StageV;

    open spec fn view(&self) -> StageV {
        match self {
            HandOffStage::Ready => StageV::Ready,
            HandOffStage::Loading { brief, to } => StageV::Loading { brief: brief@, to: to@ },
            HandOffStage::Journaling { to, seats } => StageV::Journaling { to: to@, seats: *seats },
            HandOffStage::Assembling { to, handed_at } => StageV::Assembling { to: to@, handed_at: *handed_at },
            HandOffStage::Answered => StageV::Answered,
        }
    }
}

impl View for HandOffEvent {
    type V = EventV;

    open spec fn view(&self) -> EventV {
        match self {
            HandOffEvent::Called { args, wired } => EventV::Called { args: jview(*args), wired: *wired },
            HandOffEvent::Loaded { roster, retired } => EventV::Loaded {
                roster: strings_view(roster@),
                retired: strings_view(retired@),
            },
            HandOffEvent::Gone => EventV::Gone,
            HandOffEvent::Unreadable(e) => EventV::Unreadable(e@),
            HandOffEvent::Journaled(n) => EventV::Journaled(*n),
            HandOffEvent::NotJournaled(e) => EventV::NotJournaled(e@),
            HandOffEvent::Assembled => EventV::Assembled,
            HandOffEvent::NotAssembled(e) => EventV::NotAssembled(e@),
        }
    }
}

impl View for HandOffAction {
    type V = ActionV;

    open spec fn view(&self) -> ActionV {
        match self {
            HandOffAction::Fail(e) => ActionV::Fail(e@),
            HandOffAction::Load => ActionV::Load,
            HandOffAction::Journal { to, text } => ActionV::Journal { to: to@, text: text@ },
            HandOffAction::Assemble { title, members, seats } => ActionV::Assemble {
                title: title@,
                members: strings_view(members@),
                seats: *seats,
            },
            HandOffAction::Launch { to, handed_at, reply } => ActionV::Launch {
                to: to@,
                handed_at: *handed_at,
                reply: reply@,
            },
            HandOffAction::Wait => ActionV::Wait,
        }
    }
}

/// The next stage and action of a hand-off by `agent`, from `stage` on
/// `event`.
pub open spec fn step_spec(agent: Seq<char>, stage: StageV, event: EventV) -> (StageV, ActionV) {
    match (stage, event) {
        (StageV::Ready, EventV::Called { args, wired }) => match brief_arg(args) {
            None => (StageV::Answered, ActionV::Fail(w_need_brief())),
            Some(brief) => if !wired {
                (StageV::Answered, ActionV::Fail(w_not_wired()))
            } else {
                (StageV::Loading { brief, to: to_arg(args) }, ActionV::Load)
            },
        },
        (StageV::Loading { brief, to }, EventV::Loaded { roster, retired }) => match target_check(
            roster,
            retired,
            agent,
            to,
        ) {
            Err(reason) => (StageV::Answered, ActionV::Fail(reason)),
            Ok(t) => (
                StageV::Journaling { to: t, seats: roster.len() as u64 },
                ActionV::Journal { to: t, text: opening_text(agent, brief) },
            ),
        },
        (StageV::Loading { .. }, EventV::Gone) => (StageV::Answered, ActionV::Fail(w_gone())),
        (StageV::Loading { .. }, EventV::Unreadable(e)) => (
            StageV::Answered,
            ActionV::Fail(w_unreadable() + e),
        ),
        (StageV::Journaling { to, seats }, EventV::Journaled(n)) => (
            StageV::Assembling { to, handed_at: n },
            ActionV::Assemble { title: room_title_text(agent, to), members: seq![to, agent], seats },
        ),
        (StageV::Journaling { .. }, EventV::NotJournaled(e)) => (
            StageV::Answered,
            ActionV::Fail(w_not_journaled() + e),
        ),
        (StageV::Assembling { to, handed_at }, EventV::Assembled) => (
            StageV::Answered,
            ActionV::Launch { to, handed_at, reply: delivered_text(to) },
        ),
        (StageV::Assembling { .. }, EventV::NotAssembled(e)) => (StageV::Answered, ActionV::Fail(e)),
        _ => (stage, ActionV::Wait),
    }
}

fn joined(head: Vec<char>, tail: &str) -> (r: String)
    ensures
        r@ == head@ + tail@,
{
    let mut m = head;
    let t = chars_of(tail);
    push_all(&mut m, t.as_slice());
    string_of(m.as_slice())
}

impl HandOffTool {
    /// One decision of a hand-off call: from where the call stands and what
    /// the host last reported, the next stage and what the host should do.
    ///
    /// A call without a usable brief, on a host without its agent pool, for
    /// a company that is gone or unreadable, to a receiver the roster
    /// refuses, whose brief could not be journaled or whose room could not
    /// be assembled, is answered with the matching error. Otherwise the brief
    /// is journaled, the room assembled and launched, and the call answered
    /// with the delivery note.
    pub fn step(&self, stage: HandOffStage, event: HandOffEvent) -> (r: (HandOffStage, HandOffAction))
        ensures
            (r.0@, r.1@) == step_spec(self.agent@, stage@, event@),
    {
        match (stage, event) {
            (HandOffStage::Ready, HandOffEvent::Called { args, wired }) => match brief_of(&args) {
                None => (HandOffStage::Answered, HandOffAction::Fail(missing_brief())),
                Some(brief) => {
                    if !wired {
                        (HandOffStage::Answered, HandOffAction::Fail(string_of(w_not_wired_chars().as_slice())))
                    } else {
                        let to = target_of(&args);
                        (HandOffStage::Loading { brief, to }, HandOffAction::Load)
                    }
                },
            },
            (HandOffStage::Loading { brief, to }, HandOffEvent::Loaded { roster, retired }) => {
                match HandOffTool::check_target(roster.as_slice(), retired.as_slice(), self.agent.as_str(), to.as_str()) {
                    Err(reason) => (HandOffStage::Answered, HandOffAction::Fail(reason)),
                    Ok(t) => {
                        let text = HandOffTool::opening_brief(self.agent.as_str(), brief.as_str());
                        let seats = roster.len() as u64;
                        assert(strings_view(roster@).len() == roster@.len());
                        let to2 = t.clone();
                        (HandOffStage::Journaling { to: to2, seats }, HandOffAction::Journal { to: t, text })
                    },
                }
            },
            (HandOffStage::Loading { .. }, HandOffEvent::Gone) => (
                HandOffStage::Answered,
                HandOffAction::Fail(string_of(w_gone_chars().as_slice())),
            ),
            (HandOffStage::Loading { .. }, HandOffEvent::Unreadable(e)) => (
                HandOffStage::Answered,
                HandOffAction::Fail(joined(w_unreadable_chars(), e.as_str())),
            ),
            (HandOffStage::Journaling { to, seats }, HandOffEvent::Journaled(n)) => {
                let title = room_title(self.agent.as_str(), to.as_str());
                let members = vec![to.clone(), self.agent.clone()];
                assert(strings_view(members@) =~= seq![to@, self.agent@]);
                (
                    HandOffStage::Assembling { to, handed_at: n },
                    HandOffAction::Assemble { title, members, seats },
                )
            },
            (HandOffStage::Journaling { .. }, HandOffEvent::NotJournaled(e)) => (
                HandOffStage::Answered,
                HandOffAction::Fail(joined(w_not_journaled_chars(), e.as_str())),
            ),
            (HandOffStage::Assembling { to, handed_at }, HandOffEvent::Assembled) => {
                let reply = delivered(to.as_str());
                (HandOffStage::Answered, HandOffAction::Launch { to, handed_at, reply })
            },
            (HandOffStage::Assembling { .. }, HandOffEvent::NotAssembled(e)) => (
                HandOffStage::Answered,
                HandOffAction::Fail(e),
            ),
            (s, _) => (s, HandOffAction::Wait),
        }
    }
}

// ------------------------------------------------------------- the room

/// How many seats speak in each round of a hand-over room: both of them.
pub const HAND_OVER_ROUND_WIDTH: usize = 2;

/// How many rounds a hand-over room runs at most: enough for the receiver
/// to read the ask, put one question and hear the answer.
pub const HAND_OVER_MAX_ROUNDS: usize = 2;

/// The wall-clock bound of a hand-over room, in seconds: the per-turn
/// timeout for each seat of a round, saturating at the largest `u64`.
pub open spec fn room_wall(turn_timeout_secs: u64) -> u64 {
    let width: int = if HAND_OVER_ROUND_WIDTH < 255 {
        HAND_OVER_ROUND_WIDTH as int
    } else {
        255
    };
    if turn_timeout_secs * width > u64::MAX {
        u64::MAX
    } else {
        (turn_timeout_secs * width) as u64
    }
}

/// The wall-clock bound of a hand-over room, in seconds, for a per-turn
/// timeout of `turn_timeout_secs`.
pub fn room_wall_secs(turn_timeout_secs: u64) -> (r: u64)
    ensures
        r == room_wall(turn_timeout_secs),
{
    let width: u64 = if HAND_OVER_ROUND_WIDTH < 255 {
        HAND_OVER_ROUND_WIDTH as u64
    } else {
        255
    };
    match turn_timeout_secs.checked_mul(width) {
        Some(w) => w,
        None => u64::MAX,
    }
}

/// The error a room that outran its wall-clock bound of `wall` seconds
/// ends with.
pub open spec fn abandoned_text(wall: u64) -> Seq<char> {
    w_abandon_head() + w_ran_past() + seq![' '] + decimal(wall as nat) + w_abandon_tail()
}

/// The error a room that outran its wall-clock bound of `wall` seconds
/// ends with.
pub fn abandoned(wall: u64) -> (r: String)
    ensures
        r@ == abandoned_text(wall),
{
    let mut m = w_abandon_head_chars();
    let p = w_ran_past_chars();
    push_all(&mut m, p.as_slice());
    m.push(' ');
    let d = decimal_chars(wall);
    push_all(&mut m, d.as_slice());
    let t = w_abandon_tail_chars();
    push_all(&mut m, t.as_slice());
    string_of(m.as_slice())
}

/// What the receiving teammate says in its own channel once the room has
/// ended.
pub open spec fn after_room_spec(handing: Seq<char>, outcome: RoomOutcome, shown: Seq<char>) -> Option<Seq<char>> {
    if room_failed_spec(outcome) {
        Some(pickup_failure_text(handing, shown))
    } else {
        None
    }
}

/// What the receiving teammate says in its own channel once a room handed
/// over by `handing` has ended this way, `shown` being its error as it
/// displays: that it could not pick the work up, when the room failed to
/// run; nothing otherwise.
pub fn after_room(handing: &str, outcome: &RoomOutcome, shown: &str) -> (r: Option<String>)
    ensures
        (match r {
            Some(s) => Some(s@),
            None => None::<Seq<char>>,
        }) == after_room_spec(handing@, *outcome, shown@),
{
    if room_failed(outcome) {
        Some(pickup_failure(handing, shown))
    } else {
        None
    }
}

// ---------------------------------------------------------------- laws

/// Where a hand-off call stands says nothing wrong about its receiver: a
/// receiver, once settled, is a non-blank name other than the handing
/// teammate.
pub open spec fn receiver_sound(agent: Seq<char>, stage: StageV) -> bool {
    match stage {
        StageV::Journaling { to, .. } => to.len() > 0 && to != agent,
        StageV::Assembling { to, .. } => to.len() > 0 && to != agent,
        _ => true,
    }
}

/// No hand-off is journaled or launched toward the handing teammate itself
/// or toward a blank name, at any stage: each step keeps a settled receiver
/// sound, and the receiver of every journal and launch it asks for is a
/// roster teammate the check accepted.
pub proof fn lemma_never_hands_to_itself(agent: Seq<char>, stage: StageV, event: EventV)
    requires
        receiver_sound(agent, stage),
    ensures
        receiver_sound(agent, step_spec(agent, stage, event).0),
        step_spec(agent, stage, event).1 matches ActionV::Journal { to, .. } ==> to.len() > 0 && to != agent,
        step_spec(agent, stage, event).1 matches ActionV::Launch { to, .. } ==> to.len() > 0 && to != agent,
        step_spec(agent, stage, event).1 matches ActionV::Assemble { members, .. } ==> members.len() == 2
            && members[1] == agent && members[0] != agent,
{
    match (stage, event) {
        (StageV::Loading { brief, to }, EventV::Loaded { roster, retired }) => {
            lemma_hand_off_target(roster, retired, agent, to);
        },
        _ => {},
    }
}

/// A call is answered exactly once: every step that answers it, with an
/// error or a launch, leaves it answered, and an answered call does
/// nothing more whatever is reported.
pub proof fn lemma_answered_once(agent: Seq<char>, stage: StageV, event: EventV)
    ensures
        (step_spec(agent, stage, event).1 is Fail || step_spec(agent, stage, event).1 is Launch)
            <==> (stage !is Answered && step_spec(agent, stage, event).0 is Answered),
        stage is Answered ==> step_spec(agent, stage, event) == (StageV::Answered, ActionV::Wait),
{
}

proof fn lemma_found(s: Seq<char>, i: int, hi: int, p: int, pat: Seq<char>)
    requires
        0 <= i <= p,
        p + pat.len() <= hi <= s.len(),
        matches_at(s, p, pat),
    ensures
        find_in(s, i, hi, pat) is Some,
    decreases p - i,
{
    if s.subrange(i, i + pat.len()) != pat {
        lemma_found(s, i + 1, hi, p, pat);
    }
}

/// Reaching the wall-clock bound is the expected ending of a hand-over
/// room, not a failure: a room abandoned at its bound leaves no failure
/// note, whatever the bound.
pub proof fn lemma_abandoned_room_is_no_failure(handing: Seq<char>, outcome: RoomOutcome, wall: u64, shown: Seq<char>)
    requires
        outcome matches RoomOutcome::HarnessError(text) && text@ == abandoned_text(wall),
    ensures
        after_room_spec(handing, outcome, shown) is None,
{
    let s = abandoned_text(wall);
    let p = w_abandon_head().len() as int;
    assert(s.subrange(p, p + w_ran_past().len()) =~= w_ran_past());
    lemma_found(s, 0, s.len() as int, p, w_ran_past());
}

} // verus!
