//! A confined turn reaches nothing but the message it was given.

use opencompany_core::confine::{
    confined_persona, ConfinedContext, ConfinedToolPolicy, Confinement, ToolPolicyDecision,
};

#[test]
fn a_workflow_confinement_is_about_that_workflow() {
    let confinement = Confinement::workflow("wf_42".to_string());
    assert_eq!(confinement.subject(), "wf_42");
}

#[test]
fn every_tool_call_is_refused_naming_the_tool_and_the_workflow() {
    let policy = ConfinedToolPolicy::new(Confinement::workflow("wf_42".to_string()));
    assert_eq!(policy.name(), "workflow_confined");
    for tool in ["query_company", "read_ledger", "made_up_tool"] {
        match policy.check(tool) {
            ToolPolicyDecision::Deny(reason) => {
                assert_eq!(reason, policy.refusal(tool));
                assert!(reason.starts_with(&format!("`{tool}` is not available here.")), "{reason}");
                assert!(reason.contains("confined to the workflow `wf_42`"), "{reason}");
            },
            ToolPolicyDecision::Allow => panic!("{tool} was allowed on a confined turn"),
        }
    }
}

#[test]
fn the_refusal_reads_exactly() {
    let policy = ConfinedToolPolicy::new(Confinement::workflow("wf".to_string()));
    assert_eq!(
        policy.refusal("t"),
        "`t` is not available here. This turn is confined to the workflow `wf`: it answers from the \
         workflow description in this message and reaches nothing else in the company. Say what you \
         would need and that it has to be asked in the company chat instead."
    );
}

#[test]
fn the_persona_names_the_company_and_the_workflow() {
    let persona = confined_persona("Acme", &Confinement::workflow("wf_42".to_string()));
    assert!(
        persona.starts_with("You are the workflow copilot for Acme, answering about ONE saved workflow (`wf_42`).\n\n"),
        "{persona}"
    );
    assert!(persona.contains("You have no tools and no access to the rest of the company"), "{persona}");
    assert!(persona.contains("(issue #415)"), "{persona}");
    assert!(persona.ends_with("never propose one that was not asked for."), "{persona}");
}

#[test]
fn the_confined_store_keeps_nothing() {
    let store = ConfinedContext;
    assert_eq!(store.put("notes"), "confined/notes");
    assert_eq!(store.peek("confined/notes"), "");
    assert!(!store.delete("confined/notes"));
    assert!(!store.delete_label("confined/notes", "notes"));
}

#[test]
fn the_confined_store_lists_and_finds_nothing() {
    let store = ConfinedContext;
    let _ = store.put("notes");
    assert!(store.list("").is_empty());
    assert!(store.list("confined/").is_empty());
    assert!(store.search("notes", 10).is_empty());
}
