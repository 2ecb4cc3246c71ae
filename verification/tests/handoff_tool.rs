//! Who a teammate may hand to, and what it is told when it may not.

use opencompany_core::handoff::{
    brief_of, delivered, missing_brief, pickup_failure, room_failed, room_title, target_of, HandOffTool,
    RoomOutcome, HAND_OFF_TOOL,
};
use opencompany_core::json::Json;

fn check(roster: &[&str], retired: &[&str], from: &str, to: &str) -> Result<String, String> {
    let roster: Vec<String> = roster.iter().map(|id| (*id).to_owned()).collect();
    let retired: Vec<String> = retired.iter().map(|id| (*id).to_owned()).collect();
    HandOffTool::check_target(&roster, &retired, from, to)
}

#[test]
fn a_teammate_on_the_roster_is_accepted() {
    assert_eq!(check(&["ceo", "engineer"], &[], "ceo", "engineer").as_deref(), Ok("engineer"));
}

#[test]
fn the_name_is_taken_trimmed() {
    assert_eq!(check(&["ceo", "engineer"], &[], "ceo", "  engineer ").as_deref(), Ok("engineer"));
}

#[test]
fn handing_to_yourself_is_refused() {
    let refusal = check(&["ceo", "engineer"], &[], "ceo", "ceo").expect_err("self hand-off");
    assert!(refusal.contains("yourself"), "{refusal}");
}

#[test]
fn an_unknown_teammate_is_refused_with_the_ones_that_exist() {
    let refusal = check(&["ceo", "engineer", "writer"], &[], "ceo", "designer").expect_err("no such id");
    assert!(refusal.contains("designer"), "{refusal}");
    assert!(refusal.contains("engineer"), "{refusal}");
    assert!(refusal.contains("writer"), "{refusal}");
}

#[test]
fn the_choices_never_include_the_one_asking() {
    let refusal = check(&["ceo", "engineer"], &[], "ceo", "designer").expect_err("no such id");
    assert!(!refusal.contains("ceo"), "{refusal}");
}

#[test]
fn a_retired_teammate_is_refused_as_retired() {
    let refusal = check(&["ceo", "engineer"], &["writer"], "ceo", "writer").expect_err("retired");
    assert!(refusal.contains("retired"), "{refusal}");
}

#[test]
fn an_empty_name_asks_for_one() {
    let refusal = check(&["ceo", "engineer"], &[], "ceo", "   ").expect_err("no name");
    assert!(refusal.contains("name the teammate"), "{refusal}");
}

#[test]
fn a_lone_teammate_is_told_there_is_nobody() {
    let refusal = check(&["ceo"], &[], "ceo", "engineer").expect_err("nobody else");
    assert!(refusal.contains("only teammate"), "{refusal}");
}

// ------------------------------------------------------------ further cases

#[test]
fn the_choices_are_listed_in_order_exactly() {
    let refusal = check(&["writer", "ceo", "engineer", "analyst"], &[], "ceo", "designer").expect_err("no such id");
    assert_eq!(
        refusal,
        "no teammate here is called `designer`; the ones you can hand to are: analyst, engineer, writer"
    );
    let alone = check(&["ceo"], &[], "ceo", "x").expect_err("nobody");
    assert_eq!(alone, "no teammate here is called `x`; the ones you can hand to are: nobody \u{2014} you are the only teammate");
}

#[test]
fn each_refusal_reads_exactly() {
    assert_eq!(check(&["ceo"], &[], "ceo", "").unwrap_err(), "name the teammate you are handing to");
    assert_eq!(
        check(&["ceo"], &[], "ceo", " ceo ").unwrap_err(),
        "you cannot hand to yourself; answer the operator, or name somebody else"
    );
    assert_eq!(
        check(&["ceo", "writer"], &["writer"], "ceo", "writer").unwrap_err(),
        "`writer` has been retired from this company and cannot pick anything up"
    );
}

#[test]
fn the_opening_brief_carries_the_ask_and_the_sender() {
    let brief = HandOffTool::opening_brief("ceo", "Ship the release notes.");
    assert!(brief.starts_with("I am @ceo, and I am handing this to you."), "{brief}");
    assert!(brief.contains("this is the ask:\n\nShip the release notes.\n\nAct on it."), "{brief}");
    assert!(brief.contains("only through `dm_operator`"), "{brief}");
    assert!(brief.ends_with("rather than opening as though it were new."), "{brief}");
}

#[test]
fn the_tool_reads_its_brief_trimmed_and_its_target_as_written() {
    let args = Json::Object(vec![
        ("to".to_string(), Json::Str(" engineer ".to_string())),
        ("brief".to_string(), Json::Str("  do it  ".to_string())),
    ]);
    assert_eq!(brief_of(&args).as_deref(), Some("do it"));
    assert_eq!(target_of(&args), " engineer ");
    let blank = Json::Object(vec![("brief".to_string(), Json::Str("   ".to_string()))]);
    assert_eq!(brief_of(&blank), None);
    assert_eq!(target_of(&blank), "");
    let not_text = Json::Object(vec![("to".to_string(), Json::Bool(true))]);
    assert_eq!(target_of(&not_text), "");
    assert_eq!(missing_brief(), "a hand-off needs a `brief`: they cannot see this conversation");
}

#[test]
fn only_a_room_that_could_not_run_is_reported() {
    assert!(!room_failed(&RoomOutcome::Finished));
    assert!(!room_failed(&RoomOutcome::HarnessError("conducted: turn wall reached at 4".to_string())));
    assert!(!room_failed(&RoomOutcome::HarnessError("the hand-over room ran past 600s and was abandoned".to_string())));
    assert!(room_failed(&RoomOutcome::HarnessError("seat crashed".to_string())));
    assert!(room_failed(&RoomOutcome::OtherError));
}

#[test]
fn the_reports_name_who_took_it() {
    let text = delivered("engineer");
    assert!(text.starts_with("Delivered. @engineer has the ask in the channel you share"), "{text}");
    assert_eq!(room_title("ceo", "engineer"), "ceo handing to engineer");
    assert_eq!(
        pickup_failure("ceo", "boom"),
        "@ceo handed this to me but I could not pick it up: boom. Please say again what you need and I will start from there."
    );
    let tool = HandOffTool::new("acme".to_string(), "ceo".to_string());
    assert_eq!(tool.name(), HAND_OFF_TOOL);
    assert_eq!(HAND_OFF_TOOL, "hand_off");
}
