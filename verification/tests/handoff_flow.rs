//! A hand-off call taken step by step, and how its room is bounded and
//! reported.

use opencompany_core::handoff::flow::{
    abandoned, after_room, room_wall_secs, HandOffAction, HandOffEvent, HandOffStage, HAND_OVER_MAX_ROUNDS,
    HAND_OVER_ROUND_WIDTH,
};
use opencompany_core::handoff::{delivered, HandOffTool, RoomOutcome};
use opencompany_core::json::Json;

fn tool() -> HandOffTool {
    HandOffTool::new("acme".to_owned(), "ceo".to_owned())
}

fn args(to: &str, brief: &str) -> Json {
    Json::Object(vec![
        ("to".to_owned(), Json::Str(to.to_owned())),
        ("brief".to_owned(), Json::Str(brief.to_owned())),
    ])
}

fn names(ids: &[&str]) -> Vec<String> {
    ids.iter().map(|id| (*id).to_owned()).collect()
}

fn failure(action: HandOffAction) -> String {
    match action {
        HandOffAction::Fail(text) => text,
        _ => panic!("expected the call to be refused"),
    }
}

fn loading(tool: &HandOffTool) -> HandOffStage {
    let (stage, action) = tool.step(
        HandOffStage::Ready,
        HandOffEvent::Called { args: args(" engineer ", "ship the thing"), wired: true },
    );
    assert!(matches!(action, HandOffAction::Load));
    stage
}

#[test]
fn a_hand_off_runs_through_journal_room_and_launch() {
    let tool = tool();
    let stage = loading(&tool);
    match &stage {
        HandOffStage::Loading { brief, to } => {
            assert_eq!(brief, "ship the thing");
            assert_eq!(to, " engineer ");
        }
        _ => panic!("expected to be reading the company"),
    }
    let (stage, action) = tool.step(
        stage,
        HandOffEvent::Loaded { roster: names(&["ceo", "engineer", "writer"]), retired: vec![] },
    );
    match action {
        HandOffAction::Journal { to, text } => {
            assert_eq!(to, "engineer");
            assert_eq!(text, HandOffTool::opening_brief("ceo", "ship the thing"));
        }
        _ => panic!("expected the brief to be journaled"),
    }
    match &stage {
        HandOffStage::Journaling { to, seats } => {
            assert_eq!(to, "engineer");
            assert_eq!(*seats, 3);
        }
        _ => panic!("expected to be journaling"),
    }
    let (stage, action) = tool.step(stage, HandOffEvent::Journaled(41));
    match action {
        HandOffAction::Assemble { title, members, seats } => {
            assert_eq!(title, "ceo handing to engineer");
            assert_eq!(members, names(&["engineer", "ceo"]));
            assert_eq!(seats, 3);
        }
        _ => panic!("expected the room to be assembled"),
    }
    let (stage, action) = tool.step(stage, HandOffEvent::Assembled);
    match action {
        HandOffAction::Launch { to, handed_at, reply } => {
            assert_eq!(to, "engineer");
            assert_eq!(handed_at, 41);
            assert_eq!(reply, delivered("engineer"));
        }
        _ => panic!("expected the room to be launched"),
    }
    assert!(matches!(stage, HandOffStage::Answered));
    let (stage, action) = tool.step(stage, HandOffEvent::Assembled);
    assert!(matches!(action, HandOffAction::Wait));
    assert!(matches!(stage, HandOffStage::Answered));
}

#[test]
fn a_call_without_a_brief_is_refused_at_once() {
    let (stage, action) =
        tool().step(HandOffStage::Ready, HandOffEvent::Called { args: args("engineer", "   "), wired: true });
    assert_eq!(failure(action), "a hand-off needs a `brief`: they cannot see this conversation");
    assert!(matches!(stage, HandOffStage::Answered));
}

#[test]
fn an_unwired_host_refuses_the_hand_off() {
    let (_, action) =
        tool().step(HandOffStage::Ready, HandOffEvent::Called { args: args("engineer", "go"), wired: false });
    assert_eq!(failure(action), "handing off is not wired on this host");
}

#[test]
fn a_missing_or_unreadable_company_is_reported() {
    let tool = tool();
    let (_, action) = tool.step(loading(&tool), HandOffEvent::Gone);
    assert_eq!(failure(action), "this company is no longer loaded");
    let (_, action) = tool.step(loading(&tool), HandOffEvent::Unreadable("disk full".to_owned()));
    assert_eq!(failure(action), "this company could not be read: disk full");
}

#[test]
fn a_refused_receiver_ends_the_call_with_the_reason() {
    let tool = tool();
    let (stage, action) =
        tool.step(loading(&tool), HandOffEvent::Loaded { roster: names(&["ceo", "engineer"]), retired: names(&["engineer"]) });
    assert_eq!(failure(action), "`engineer` has been retired from this company and cannot pick anything up");
    assert!(matches!(stage, HandOffStage::Answered));
}

#[test]
fn a_brief_that_could_not_be_journaled_is_reported() {
    let tool = tool();
    let (stage, _) = tool.step(loading(&tool), HandOffEvent::Loaded { roster: names(&["ceo", "engineer"]), retired: vec![] });
    let (_, action) = tool.step(stage, HandOffEvent::NotJournaled("log closed".to_owned()));
    assert_eq!(failure(action), "the hand-over could not be journaled, so nobody was told: log closed");
}

#[test]
fn a_room_that_could_not_be_assembled_is_reported_as_is() {
    let tool = tool();
    let (stage, _) = tool.step(loading(&tool), HandOffEvent::Loaded { roster: names(&["ceo", "engineer"]), retired: vec![] });
    let (stage, _) = tool.step(stage, HandOffEvent::Journaled(1));
    let (_, action) = tool.step(stage, HandOffEvent::NotAssembled("no seat for engineer".to_owned()));
    assert_eq!(failure(action), "no seat for engineer");
}

#[test]
fn a_report_out_of_turn_changes_nothing() {
    let (stage, action) = tool().step(HandOffStage::Ready, HandOffEvent::Journaled(3));
    assert!(matches!(action, HandOffAction::Wait));
    assert!(matches!(stage, HandOffStage::Ready));
}

#[test]
fn the_room_is_two_seats_two_rounds_and_two_turns_of_wall_clock() {
    assert_eq!(HAND_OVER_ROUND_WIDTH, 2);
    assert_eq!(HAND_OVER_MAX_ROUNDS, 2);
    assert_eq!(room_wall_secs(300), 600);
    assert_eq!(room_wall_secs(0), 0);
    assert_eq!(room_wall_secs(u64::MAX), u64::MAX);
}

#[test]
fn an_abandoned_room_reads_its_bound_and_is_no_failure() {
    let text = abandoned(600);
    assert_eq!(text, "the hand-over room ran past 600s and was abandoned");
    assert_eq!(after_room("ceo", &RoomOutcome::HarnessError(text), "shown"), None);
}

#[test]
fn only_a_room_that_could_not_run_leaves_a_note() {
    assert_eq!(after_room("ceo", &RoomOutcome::Finished, ""), None);
    assert_eq!(
        after_room("ceo", &RoomOutcome::HarnessError("the room hit the turn wall".to_owned()), "x"),
        None
    );
    let note = after_room("ceo", &RoomOutcome::OtherError, "store offline").expect("a failure note");
    assert_eq!(
        note,
        "@ceo handed this to me but I could not pick it up: store offline. Please say again what you need and I will start from there."
    );
}

fn value_of(j: &Json) -> serde_json::Value {
    match j {
        Json::Null => serde_json::Value::Null,
        Json::Bool(b) => serde_json::Value::Bool(*b),
        Json::Number(n) => serde_json::from_str(n).expect("a number"),
        Json::Str(s) => serde_json::Value::String(s.clone()),
        Json::Array(a) => serde_json::Value::Array(a.iter().map(value_of).collect()),
        Json::Object(p) => serde_json::Value::Object(p.iter().map(|(k, v)| (k.clone(), value_of(v))).collect()),
    }
}

#[test]
fn the_tool_offers_a_to_and_a_brief_and_nothing_else() {
    let expected: serde_json::Value = serde_json::from_str(
        r#"{
            "type": "object",
            "properties": {
                "to": {"type": "string", "description": "The teammate taking it over, by roster id."},
                "brief": {"type": "string", "description": "The ask, written so they can act on it without coming back to you: what is being asked for, what you have already done or ruled out, what is still open, and anything the operator told you that bears on it. State the deliverable plainly — they should be able to start from this alone."}
            },
            "required": ["to", "brief"],
            "additionalProperties": false
        }"#,
    )
    .expect("valid JSON");
    assert_eq!(value_of(&tool().parameters_schema()), expected);
    let description = tool().description();
    assert!(description.starts_with("Hand this conversation to the teammate who should be having it, and stop."));
    assert!(description.ends_with("this gives the conversation away."));
}

#[test]
fn handing_off_is_a_write() {
    assert_eq!(tool().permission_level(), opencompany_core::tools::PermissionLevel::Write);
}
