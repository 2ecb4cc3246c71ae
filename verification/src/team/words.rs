//! The fixed text of the team section.

use vstd::prelude::*;

verus! {

/// The section's heading.
pub open spec fn w_team_heading() -> Seq<char> {
    "## Your team"@
}

pub fn w_team_heading_chars() -> (r: Vec<char>)
    ensures
        r@ == w_team_heading(),
{
    crate::text::chars_of("## Your team")
}

/// The head count line, before the count.
pub open spec fn w_intro_count() -> Seq<char> {
    "\n\nYou are one of "@
}

pub fn w_intro_count_chars() -> (r: Vec<char>)
    ensures
        r@ == w_intro_count(),
{
    crate::text::chars_of("\n\nYou are one of ")
}

/// The head count line, before the company's name.
pub open spec fn w_intro_at() -> Seq<char> {
    " teammates at "@
}

pub fn w_intro_at_chars() -> (r: Vec<char>)
    ensures
        r@ == w_intro_at(),
{
    crate::text::chars_of(" teammates at ")
}

/// The head count line, after the company's name.
pub open spec fn w_intro_alone() -> Seq<char> {
    ", and you are not working alone. "@
}

pub fn w_intro_alone_chars() -> (r: Vec<char>)
    ensures
        r@ == w_intro_alone(),
{
    crate::text::chars_of(", and you are not working alone. ")
}

/// The standing line that every teammate can be brought in.
pub open spec fn w_reach() -> Seq<char> {
    "Every teammate below is a real agent you can bring in, and they answer in this same turn. Never tell anyone a teammate is out of reach or that you cannot contact them — you can."@
}

pub fn w_reach_chars() -> (r: Vec<char>)
    ensures
        r@ == w_reach(),
{
    crate::text::chars_of("Every teammate below is a real agent you can bring in, and they answer in this same turn. Never tell anyone a teammate is out of reach or that you cannot contact them — you can.")
}

/// The heading of the teammate list.
pub open spec fn w_list_head() -> Seq<char> {
    "\n\nTeammates (roster id — role: mandate), named exactly as written:\n"@
}

pub fn w_list_head_chars() -> (r: Vec<char>)
    ensures
        r@ == w_list_head(),
{
    crate::text::chars_of("\n\nTeammates (roster id — role: mandate), named exactly as written:\n")
}

/// The opening of a list line.
pub open spec fn w_item_open() -> Seq<char> {
    "- `"@
}

pub fn w_item_open_chars() -> (r: Vec<char>)
    ensures
        r@ == w_item_open(),
{
    crate::text::chars_of("- `")
}

/// A list line between the id and what follows.
pub open spec fn w_item_mid() -> Seq<char> {
    "` — "@
}

pub fn w_item_mid_chars() -> (r: Vec<char>)
    ensures
        r@ == w_item_mid(),
{
    crate::text::chars_of("` — ")
}

/// The separator between a name and a role, and between listed members.
pub open spec fn w_comma() -> Seq<char> {
    ", "@
}

pub fn w_comma_chars() -> (r: Vec<char>)
    ensures
        r@ == w_comma(),
{
    crate::text::chars_of(", ")
}

/// The note marking the orchestrator's line.
pub open spec fn w_orchestrator_note() -> Seq<char> {
    " (the orchestrator: the operator's point of contact, who can bring anyone in and owns the board)"@
}

pub fn w_orchestrator_note_chars() -> (r: Vec<char>)
    ensures
        r@ == w_orchestrator_note(),
{
    crate::text::chars_of(" (the orchestrator: the operator's point of contact, who can bring anyone in and owns the board)")
}

/// The separator before a mandate or a desk's members.
pub open spec fn w_colon() -> Seq<char> {
    ": "@
}

pub fn w_colon_chars() -> (r: Vec<char>)
    ensures
        r@ == w_colon(),
{
    crate::text::chars_of(": ")
}

/// The heading of the desk block.
pub open spec fn w_sit_head() -> Seq<char> {
    "\nYou sit on (desk id — name: members):\n"@
}

pub fn w_sit_head_chars() -> (r: Vec<char>)
    ensures
        r@ == w_sit_head(),
{
    crate::text::chars_of("\nYou sit on (desk id — name: members):\n")
}

/// What a desk with no roster member lists.
pub open spec fn w_nobody_yet() -> Seq<char> {
    "nobody on the roster yet"@
}

pub fn w_nobody_yet_chars() -> (r: Vec<char>)
    ensures
        r@ == w_nobody_yet(),
{
    crate::text::chars_of("nobody on the roster yet")
}

/// The mark after a desk's lead.
pub open spec fn w_lead_note() -> Seq<char> {
    " (lead)"@
}

pub fn w_lead_note_chars() -> (r: Vec<char>)
    ensures
        r@ == w_lead_note(),
{
    crate::text::chars_of(" (lead)")
}

/// The tier that marks the orchestrator.
pub open spec fn w_orchestrator() -> Seq<char> {
    "orchestrator"@
}

pub fn w_orchestrator_chars() -> (r: Vec<char>)
    ensures
        r@ == w_orchestrator(),
{
    crate::text::chars_of("orchestrator")
}

/// What leads the line naming the teammates a narrowed reach allows.
pub open spec fn w_bring_in() -> Seq<char> {
    "You may bring in: "@
}

pub fn w_bring_in_chars() -> (r: Vec<char>)
    ensures
        r@ == w_bring_in(),
{
    crate::text::chars_of("You may bring in: ")
}

/// The line for a reach that allows no teammate at all.
pub open spec fn w_reach_nobody() -> Seq<char> {
    "Your reach does not let you bring in any teammate."@
}

pub fn w_reach_nobody_chars() -> (r: Vec<char>)
    ensures
        r@ == w_reach_nobody(),
{
    crate::text::chars_of("Your reach does not let you bring in any teammate.")
}

} // verus!
