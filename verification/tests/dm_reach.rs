//! The brief that makes a model in a direct message aware of its two moves.

use opencompany_core::dm_reach::{dm_reach_brief, CONSULT_TEAMMATES_TOOL};
use opencompany_core::handoff::HAND_OFF_TOOL;

#[test]
fn the_brief_names_the_tools_by_their_real_names() {
    let brief = dm_reach_brief();
    for tool in [CONSULT_TEAMMATES_TOOL, HAND_OFF_TOOL] {
        assert!(brief.contains(&format!("`{tool}`")), "{brief}");
    }
}

#[test]
fn the_brief_says_a_room_is_several_people_at_once() {
    let brief = dm_reach_brief();
    assert!(brief.contains("in the same conversation"), "{brief}");
    assert!(brief.contains("not each to you separately"), "{brief}");
}

#[test]
fn the_brief_says_where_the_names_come_from() {
    let brief = dm_reach_brief();
    assert!(brief.contains("roster id"), "{brief}");
    assert!(brief.contains("Your team"), "{brief}");
}

#[test]
fn the_brief_states_what_a_room_costs() {
    let brief = dm_reach_brief();
    assert!(brief.contains("Name only who the question needs"), "{brief}");
    assert!(brief.contains("most expensive thing you can do"), "{brief}");
}

#[test]
fn the_brief_says_a_hand_off_finishes_this_teammates_part() {
    let brief = dm_reach_brief();
    assert!(brief.contains("their own channel"), "{brief}");
    assert!(brief.contains("do not promise to come back"), "{brief}");
    assert!(brief.contains("gives the whole conversation away"), "{brief}");
}

#[test]
fn the_brief_forecloses_declining() {
    let brief = dm_reach_brief();
    assert!(brief.contains("nobody's"), "{brief}");
}

#[test]
fn the_brief_is_a_section_of_its_own() {
    let brief = dm_reach_brief();
    assert!(brief.starts_with("\n\n## "), "{brief:?}");
    assert!(brief.ends_with('\n'), "{brief:?}");
}

#[test]
fn the_brief_opens_with_its_heading_and_names_each_tool_once() {
    let brief = dm_reach_brief();
    assert!(brief.starts_with("\n\n## When the answer is not yours alone\n\n"), "{brief:?}");
    assert_eq!(brief.matches("`consult_teammates`").count(), 1);
    assert_eq!(brief.matches("`hand_off`").count(), 1);
    assert!(brief.ends_with("hand it to them by name.\n"), "{brief:?}");
}
