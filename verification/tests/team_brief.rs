//! The team section of every agent's prompt, and the roster's orchestrator.

use opencompany_core::team::record::{
    desk_label, orchestrator_id, AgentSpec, CompanyRecord, DeskSeats, NamedDesk, OverlayAgent,
};
use opencompany_core::team::section::{team_section, teammate_targets};

fn agent(id: &str, role: &str, tier: Option<&str>, description: Option<&str>) -> AgentSpec {
    AgentSpec {
        id: id.to_string(),
        name: None,
        role: role.to_string(),
        description: description.map(str::to_string),
        tier: tier.map(str::to_string),
        delegates_to: None,
    }
}

fn tiered(id: &str, tier: Option<&str>) -> AgentSpec {
    agent(id, "Role", tier, None)
}

fn desk(id: &str, members: &[&str], lead: Option<&str>) -> DeskSeats {
    DeskSeats {
        id: id.to_string(),
        members: members.iter().map(|m| m.to_string()).collect(),
        lead: lead.map(str::to_string),
    }
}

fn named(id: &str, name: &str) -> NamedDesk {
    NamedDesk { id: id.to_string(), name: name.to_string() }
}

/// The Acme company: a product manager who orchestrates, an engineering
/// desk led by the backend engineer, and a content desk.
fn team() -> CompanyRecord {
    CompanyRecord {
        company_name: "Acme".to_string(),
        agents: vec![
            agent("pm", "Product Manager", Some("orchestrator"), Some("Own the roadmap.")),
            AgentSpec {
                delegates_to: Some(vec!["engineering".to_string()]),
                ..agent("backend", "Backend Engineer", None, Some("Build the services."))
            },
            agent("designer", "Designer", None, None),
            agent("writer", "Writer", None, None),
        ],
        overlay_agents: Vec::new(),
        group_chats: vec![named("engineering", "Engineering"), named("content", "Content")],
        overlay_desks: Vec::new(),
        desks: vec![
            desk("engineering", &["backend", "designer"], Some("backend")),
            desk("content", &["writer"], None),
        ],
    }
}

fn solo() -> CompanyRecord {
    CompanyRecord {
        company_name: "Acme".to_string(),
        agents: vec![agent("solo", "Everything", None, None)],
        overlay_agents: Vec::new(),
        group_chats: Vec::new(),
        overlay_desks: Vec::new(),
        desks: Vec::new(),
    }
}

#[test]
fn a_solo_roster_gets_no_section() {
    assert_eq!(team_section(&solo(), "solo"), "");
}

#[test]
fn every_other_teammate_is_listed_with_role_and_mandate_but_not_the_agent_itself() {
    let section = team_section(&team(), "designer");
    assert!(section.starts_with("\n\n## Your team"), "{section}");
    assert!(section.contains("one of 4 teammates at Acme"), "{section}");
    assert!(section.contains("- `pm` \u{2014} Product Manager (the orchestrator"), "{section}");
    assert!(section.contains("owns the board): Own the roadmap.\n"), "{section}");
    assert!(section.contains("- `backend` \u{2014} Backend Engineer: Build the services.\n"), "{section}");
    assert!(section.contains("- `writer` \u{2014} Writer\n"), "{section}");
    assert!(!section.contains("- `designer`"), "{section}");
}

#[test]
fn desks_list_their_members_and_lead_and_the_agents_own_seat() {
    let section = team_section(&team(), "designer");
    assert!(
        section.contains("- `engineering` \u{2014} Engineering: backend (lead), designer\n"),
        "{section}"
    );
    assert!(!section.contains("- `content` \u{2014} Content"), "{section}");
    assert!(section.contains("You sit on (desk id \u{2014} name: members):"), "{section}");
    assert!(section.contains("- `writer` \u{2014} Writer"), "{section}");
}

#[test]
fn an_unrestricted_reach_is_stated_once_at_the_top_and_not_as_a_list() {
    let section = team_section(&team(), "designer");
    assert!(section.contains("Every teammate below is a real agent you can bring in"), "{section}");
    assert!(!section.contains("You may bring in:"), "{section}");
    assert!(!section.contains("does not let you bring in"), "{section}");
}

#[test]
fn a_narrowed_reach_names_exactly_who_the_tool_would_accept() {
    // `backend` may reach the engineering desk only: its desk-mate `designer`,
    // and nobody on the content desk or the orchestrator.
    let section = team_section(&team(), "backend");
    assert!(section.contains("\nYou may bring in: `designer`."), "{section}");
    let reach = teammate_targets(&team(), "backend", &["engineering".to_string()]);
    assert_eq!(reach, vec!["designer".to_string()]);
}

#[test]
fn a_reach_by_desk_and_by_name_lists_both_in_roster_order_and_ends_the_section() {
    let mut record = team();
    record.agents[1].delegates_to = Some(vec!["writer".to_string(), "engineering".to_string()]);
    let section = team_section(&record, "backend");
    assert!(section.ends_with("\nYou may bring in: `designer`, `writer`.\n"), "{section}");
    assert_eq!(
        teammate_targets(&record, "backend", &["writer".to_string(), "engineering".to_string()]),
        vec!["designer".to_string(), "writer".to_string()]
    );
}

#[test]
fn a_reach_that_takes_in_everyone_writes_no_line() {
    let mut record = team();
    record.agents[1].delegates_to = Some(vec!["pm".to_string(), "engineering".to_string(), "content".to_string()]);
    let section = team_section(&record, "backend");
    assert!(!section.contains("You may bring in:"), "{section}");
    assert!(!section.contains("does not let you bring in"), "{section}");
}

#[test]
fn a_reach_that_takes_in_nobody_says_so() {
    let mut record = team();
    record.agents[1].delegates_to = Some(Vec::new());
    let section = team_section(&record, "backend");
    assert!(section.ends_with("\nYour reach does not let you bring in any teammate.\n"), "{section}");
}

#[test]
fn the_section_names_no_tool() {
    let section = team_section(&team(), "writer");
    for tool in ["delegate_to_teammate", "delegate_to_desk", "consult_teammates", "hand_off"] {
        assert!(!section.contains(tool), "{tool} is named here: {section}");
    }
    assert!(section.contains("- `backend`"), "{section}");
}

#[test]
fn the_section_does_not_advertise_the_desk_hand_off() {
    let section = team_section(&team(), "writer");
    assert!(!section.contains("delegate_to_desk"), "{section}");
}

#[test]
fn a_company_without_desks_lists_no_desk_block() {
    let record = CompanyRecord {
        company_name: "Acme".to_string(),
        agents: vec![agent("a", "A", None, None), agent("b", "B", None, None)],
        overlay_agents: Vec::new(),
        group_chats: Vec::new(),
        overlay_desks: Vec::new(),
        desks: Vec::new(),
    };
    let section = team_section(&record, "a");
    assert!(section.contains("- `b` \u{2014} B\n"), "{section}");
    assert!(!section.contains("Desks ("), "{section}");
    assert!(!section.contains("You sit on"), "{section}");
}

#[test]
fn an_operator_added_teammate_is_listed_by_name_and_role() {
    let mut record = team();
    record.overlay_agents.push(OverlayAgent {
        id: "sam".to_string(),
        name: "Sam".to_string(),
        role: "Copywriter".to_string(),
        description: Some("Write the words.".to_string()),
    });
    let section = team_section(&record, "designer");
    assert!(section.contains("one of 5 teammates"), "{section}");
    assert!(section.contains("- `sam` \u{2014} Sam, Copywriter: Write the words.\n"), "{section}");
}

#[test]
fn a_manifest_teammates_operator_rename_is_the_name_other_agents_are_given() {
    let mut record = team();
    record.agents[1].name = Some("Johnny".to_string());
    let section = team_section(&record, "writer");
    assert!(
        section.contains("- `backend` \u{2014} Johnny, Backend Engineer: Build the services."),
        "{section}"
    );
    assert!(section.contains("you can bring in"), "{section}");
}

#[test]
fn orchestrator_id_prefers_the_tagged_agent() {
    let roster = vec![tiered("ceo", None), tiered("chief", Some("orchestrator")), tiered("eng", Some("reasoning"))];
    assert_eq!(orchestrator_id(&roster).as_deref(), Some("chief"));
}

#[test]
fn orchestrator_id_falls_back_to_first_agent() {
    let roster = vec![tiered("ceo", None), tiered("eng", None)];
    assert_eq!(orchestrator_id(&roster).as_deref(), Some("ceo"));
}

#[test]
fn orchestrator_id_is_none_for_an_empty_roster() {
    assert_eq!(orchestrator_id(&[]), None);
}

// ------------------------------------------------------------ further cases

#[test]
fn the_whole_section_reads_exactly() {
    let section = team_section(&team(), "designer");
    let expected = [
        "\n\n## Your team\n\nYou are one of 4 teammates at Acme, and you are not working alone. ",
        "Every teammate below is a real agent you can bring in, and they answer in this same turn. ",
        "Never tell anyone a teammate is out of reach or that you cannot contact them \u{2014} you can.",
        "\n\nTeammates (roster id \u{2014} role: mandate), named exactly as written:\n",
        "- `pm` \u{2014} Product Manager (the orchestrator: the operator's point of contact, who can bring ",
        "anyone in and owns the board): Own the roadmap.\n",
        "- `backend` \u{2014} Backend Engineer: Build the services.\n",
        "- `writer` \u{2014} Writer\n",
        "\nYou sit on (desk id \u{2014} name: members):\n",
        "- `engineering` \u{2014} Engineering: backend (lead), designer\n",
    ]
    .concat();
    assert_eq!(section, expected);
}

#[test]
fn a_name_that_only_repeats_the_role_is_not_said_twice() {
    let mut record = team();
    record.agents[3].name = Some("  WRITER ".to_string());
    let section = team_section(&record, "pm");
    assert!(section.contains("- `writer` \u{2014} Writer\n"), "{section}");
}

#[test]
fn a_desk_with_nobody_on_the_roster_says_so() {
    let mut record = team();
    record.desks.push(desk("ghosts", &["designer_alias", "designer"], None));
    record.agents.retain(|a| a.id != "designer");
    record.agents.push(agent("lead", "Lead", None, None));
    let section = team_section(&record, "designer");
    assert!(section.contains("- `ghosts` \u{2014} ghosts: nobody on the roster yet\n"), "{section}");
}

#[test]
fn a_desk_label_falls_back_to_the_overlay_and_then_the_id() {
    let mut record = team();
    record.overlay_desks.push(named("ops", "Operations"));
    record.group_chats.push(named("blank", "   "));
    assert_eq!(desk_label(&record, &['o', 'p', 's']).iter().collect::<String>(), "Operations");
    assert_eq!(desk_label(&record, &['b', 'l', 'a', 'n', 'k']).iter().collect::<String>(), "blank");
    assert_eq!(desk_label(&record, &['n', 'o', 'n', 'e']).iter().collect::<String>(), "none");
    assert_eq!(
        desk_label(&record, &"engineering".chars().collect::<Vec<_>>()).iter().collect::<String>(),
        "Engineering"
    );
}

#[test]
fn an_overlay_teammate_with_a_manifest_row_is_listed_once() {
    let mut record = team();
    record.overlay_agents.push(OverlayAgent {
        id: "writer".to_string(),
        name: "Other".to_string(),
        role: "Other".to_string(),
        description: None,
    });
    let section = team_section(&record, "pm");
    assert!(section.contains("one of 4 teammates"), "{section}");
    assert_eq!(section.matches("- `writer`").count(), 1, "{section}");
}
