//! Recovering tool calls a model wrote into its reply as text.

use opencompany_core::json::Json;
use opencompany_core::salvage::authorize::{authorized_tool_names, authorized_tool_schemas};
use opencompany_core::salvage::recover::{recover_text_tool_calls, salvaged_call_id};
use opencompany_core::tools::{ToolCall, ToolChoice, ToolSchema};
use serde_json::Value;

fn to_json(v: &Value) -> Json {
    match v {
        Value::Null => Json::Null,
        Value::Bool(b) => Json::Bool(*b),
        Value::Number(n) => Json::Number(n.to_string()),
        Value::String(s) => Json::Str(s.clone()),
        Value::Array(a) => Json::Array(a.iter().map(to_json).collect()),
        Value::Object(m) => Json::Object(m.iter().map(|(k, v)| (k.clone(), to_json(v))).collect()),
    }
}

fn value_of(j: &Json) -> Value {
    match j {
        Json::Null => Value::Null,
        Json::Bool(b) => Value::Bool(*b),
        Json::Number(n) => serde_json::from_str(n).expect("a number serde_json wrote"),
        Json::Str(s) => Value::String(s.clone()),
        Json::Array(a) => Value::Array(a.iter().map(value_of).collect()),
        Json::Object(p) => Value::Object(p.iter().map(|(k, v)| (k.clone(), value_of(v))).collect()),
    }
}

fn parsed(text: &str) -> Value {
    serde_json::from_str(text).expect("valid JSON")
}

fn args(call: &ToolCall) -> Value {
    value_of(&call.arguments)
}

fn belt() -> Vec<String> {
    ["read_ledger", "list_desks", "write_file"]
        .into_iter()
        .map(str::to_string)
        .collect()
}

fn offered(names: &[&str]) -> Vec<String> {
    names.iter().map(|n| n.to_string()).collect()
}

/// What the provider does with a text-only response: hand the content and
/// the turn's offered tools to the recovery.
fn recover(text: &str) -> (String, Vec<ToolCall>) {
    recover_with_schemas(text, &Vec::new())
}

fn recover_with_schemas(text: &str, schemas: &Vec<(String, Json)>) -> (String, Vec<ToolCall>) {
    match recover_text_tool_calls(text, &belt(), schemas) {
        Some((cleaned, calls)) => (cleaned, calls),
        None => (text.to_string(), Vec::new()),
    }
}

fn names(calls: &[ToolCall]) -> Vec<&str> {
    calls.iter().map(|call| call.name.as_str()).collect()
}

#[test]
fn a_decorated_invoke_dialect_is_recovered() {
    let (cleaned, calls) = recover(
        &[
            "Let me check the ledger.\n\n",
            "<\u{ff5c}\u{ff5c}DSML\u{ff5c}\u{ff5c}tool_calls>\n",
            "<\u{ff5c}\u{ff5c}DSML\u{ff5c}\u{ff5c}invoke name=\"read_ledger\">\n",
            "<\u{ff5c}\u{ff5c}DSML\u{ff5c}\u{ff5c}parameter name=\"ledger\" string=\"true\">tasks",
            "</\u{ff5c}\u{ff5c}DSML\u{ff5c}\u{ff5c}parameter>\n",
            "</\u{ff5c}\u{ff5c}DSML\u{ff5c}\u{ff5c}invoke>\n",
            "</\u{ff5c}\u{ff5c}DSML\u{ff5c}\u{ff5c}tool_calls>",
        ]
        .concat(),
    );

    assert_eq!(calls.len(), 1, "one call recovered");
    assert_eq!(calls[0].name, "read_ledger");
    assert_eq!(args(&calls[0]), parsed(r#"{ "ledger": "tasks" }"#));
    assert_eq!(cleaned, "Let me check the ledger.");
}

#[test]
fn every_call_in_one_decorated_envelope_is_recovered() {
    let (cleaned, calls) = recover(
        &[
            "Checking.\n",
            "<\u{ff5c}\u{ff5c}DSML\u{ff5c}\u{ff5c}tool_calls>\n",
            "<\u{ff5c}\u{ff5c}DSML\u{ff5c}\u{ff5c}invoke name=\"list_desks\">\n",
            "</\u{ff5c}\u{ff5c}DSML\u{ff5c}\u{ff5c}invoke>\n",
            "<\u{ff5c}\u{ff5c}DSML\u{ff5c}\u{ff5c}invoke name=\"read_ledger\">\n",
            "<\u{ff5c}\u{ff5c}DSML\u{ff5c}\u{ff5c}parameter name=\"ledger\" string=\"true\">risks",
            "</\u{ff5c}\u{ff5c}DSML\u{ff5c}\u{ff5c}parameter>\n",
            "</\u{ff5c}\u{ff5c}DSML\u{ff5c}\u{ff5c}invoke>\n",
            "</\u{ff5c}\u{ff5c}DSML\u{ff5c}\u{ff5c}tool_calls>",
        ]
        .concat(),
    );

    assert_eq!(names(&calls), ["list_desks", "read_ledger"], "both calls, in the order written");
    assert_eq!(args(&calls[0]), parsed("{}"));
    assert_eq!(args(&calls[1]), parsed(r#"{ "ledger": "risks" }"#));
    assert_eq!(cleaned, "Checking.");
    assert_eq!(calls[0].id, "salvaged_call_0");
    assert_eq!(calls[1].id, "salvaged_call_1");
}

#[test]
fn an_envelope_tag_around_no_recovered_call_survives() {
    let text = [
        "Here is the syntax: <tool_calls><invoke name=\"unlisted_tool\">",
        "</invoke></tool_calls>\n",
        "Now actually calling it.\n",
        "<invoke name=\"list_desks\"></invoke>",
    ]
    .concat();
    let (cleaned, calls) = recover(&text);

    assert_eq!(calls.len(), 1, "only the real call is recovered");
    assert_eq!(calls[0].name, "list_desks");
    assert!(
        cleaned.contains("<tool_calls><invoke name=\"unlisted_tool\">"),
        "the documented example must survive verbatim: {cleaned:?}"
    );
    assert!(!cleaned.contains("list_desks"), "the real call is still removed: {cleaned:?}");
}

#[test]
fn a_bare_invoke_tag_is_recovered() {
    let (cleaned, calls) = recover(
        &[
            "One moment.\n",
            "<invoke name=\"read_ledger\">",
            "<parameter name=\"ledger\">tasks</parameter>",
            "</invoke>",
        ]
        .concat(),
    );

    assert_eq!(calls.len(), 1);
    assert_eq!(args(&calls[0]), parsed(r#"{ "ledger": "tasks" }"#));
    assert_eq!(cleaned, "One moment.");
}

#[test]
fn a_parameter_body_is_json_unless_declared_a_string() {
    let (_, calls) = recover(
        &[
            "<invoke name=\"write_file\">",
            "<parameter name=\"content\">{\"rows\":[1,2]}</parameter>",
            "<parameter name=\"path\" string=\"true\">2026</parameter>",
            "</invoke>",
        ]
        .concat(),
    );

    assert_eq!(calls.len(), 1);
    assert_eq!(
        args(&calls[0]),
        parsed(r#"{ "content": { "rows": [1, 2] }, "path": "2026" }"#),
        "the object parses; the declared string stays a string"
    );
}

#[test]
fn a_schema_typed_string_parameter_is_not_coerced_to_a_number() {
    let schemas = vec![(
        "read_ledger".to_string(),
        to_json(&parsed(r#"{ "type": "object", "properties": { "query": { "type": "string" } } }"#)),
    )];
    let (_, calls) = recover_with_schemas(
        &[
            "<invoke name=\"read_ledger\">",
            "<parameter name=\"query\">2026</parameter>",
            "</invoke>",
        ]
        .concat(),
        &schemas,
    );

    assert_eq!(calls.len(), 1);
    assert_eq!(
        args(&calls[0]),
        parsed(r#"{ "query": "2026" }"#),
        "the schema says string, so the digits stay a string"
    );
}

#[test]
fn a_parameter_absent_from_the_schema_still_gets_the_parse_or_string_guess() {
    let schemas = vec![(
        "read_ledger".to_string(),
        to_json(&parsed(r#"{ "type": "object", "properties": {} }"#)),
    )];
    let (_, calls) = recover_with_schemas(
        &[
            "<invoke name=\"read_ledger\">",
            "<parameter name=\"limit\">5</parameter>",
            "</invoke>",
        ]
        .concat(),
        &schemas,
    );

    assert_eq!(calls.len(), 1);
    assert_eq!(args(&calls[0]), parsed(r#"{ "limit": 5 }"#));
}

#[test]
fn a_json_body_inside_a_call_is_not_a_second_call() {
    let (_, calls) = recover(
        &[
            "<invoke name=\"write_file\">",
            "<parameter name=\"content\">",
            "function_call:{\"call\":\"read_ledger\",\"arguments\":{\"ledger\":\"tasks\"}}",
            "</parameter>",
            "</invoke>",
        ]
        .concat(),
    );

    assert_eq!(names(&calls), ["write_file"], "only the call that was actually made");
}

#[test]
fn an_invoke_naming_an_unoffered_tool_is_left_alone() {
    let text = "<invoke name=\"drop_database\"><parameter name=\"id\">1</parameter></invoke>";
    let (cleaned, calls) = recover(text);

    assert!(calls.is_empty(), "nothing recovered");
    assert_eq!(cleaned, text, "and the reply is untouched");
}

#[test]
fn an_unclosed_invoke_is_left_verbatim() {
    let text = "<invoke name=\"read_ledger\"><parameter name=\"ledger\">tas";
    let (cleaned, calls) = recover(text);

    assert!(calls.is_empty());
    assert_eq!(cleaned, text);
}

#[test]
fn an_invoke_with_an_unclosed_parameter_is_rejected_whole() {
    let text = [
        "<invoke name=\"read_ledger\">",
        "<parameter name=\"ledger\">tasks</parameter>",
        "<parameter name=\"query\">unfinished",
        "</invoke>",
    ]
    .concat();
    let (cleaned, calls) = recover(&text);

    assert!(calls.is_empty(), "an incomplete argument object must not dispatch");
    assert_eq!(cleaned, text, "left verbatim, like an unclosed invoke");
}

#[test]
fn an_ascii_lookalike_tag_is_not_a_call() {
    let text = "<invoker name=\"read_ledger\">whatever</invoker>";
    let (cleaned, calls) = recover(text);

    assert!(calls.is_empty(), "`<invoker>` is not `<invoke>`");
    assert_eq!(cleaned, text);
}

#[test]
fn function_call_marker_with_call_name_key_is_recovered() {
    let raw = "Let me proceed with querying the tasks ledger. \
               function_call:{\"id\":\"call_3rY\",\"call\":\"read_ledger\",\
               \"arguments\":{\"ledger\":\"tasks\",\"query\":\"2026-09-01\"}}";
    let (text, calls) = recover(raw);

    assert_eq!(calls.len(), 1, "the call must be recovered");
    assert_eq!(calls[0].name, "read_ledger");
    assert_eq!(args(&calls[0])["ledger"], "tasks");
    assert_eq!(calls[0].id, "salvaged_call_0", "a synthesized id is what keeps the cycle paired");
    assert!(calls[0].invalid.is_none());
    assert!(!text.contains("function_call"), "the marker and object must not survive in chat: {text:?}");
    assert!(text.starts_with("Let me proceed"), "the narrative must survive: {text:?}");
}

#[test]
fn fenced_block_is_recovered_and_the_empty_fence_removed() {
    let raw = "I'll share the company's task board.\n\n```json\n\
               {\n  \"call\": \"read_ledger\",\n  \"arguments\": {\n    \
               \"ledger\": \"tasks\"\n  }\n}\n```";
    let (text, calls) = recover(raw);

    assert_eq!(calls.len(), 1);
    assert_eq!(calls[0].name, "read_ledger");
    assert_eq!(text, "I'll share the company's task board.");
}

#[test]
fn a_plain_json_reply_is_not_a_call() {
    let raw = "{\"name\":\"Alice\",\"input\":\"hi\"}";
    let (text, calls) = recover(raw);

    assert!(calls.is_empty(), "an unoffered name must never dispatch");
    assert_eq!(text, raw, "and the reply must reach chat unchanged");
}

#[test]
fn narrating_a_tool_name_is_not_a_call() {
    let raw = "The step ran: {\"name\":\"read_ledger\",\"duration_ms\":51}";
    let (_, calls) = recover(raw);

    assert!(calls.is_empty(), "an offered name with unrelated keys and no arguments is narrative");
}

#[test]
fn a_bare_no_argument_call_is_recovered() {
    let raw = "{\"call\":\"list_desks\"}";
    let (text, calls) = recover(raw);

    assert_eq!(calls.len(), 1);
    assert_eq!(calls[0].name, "list_desks");
    assert_eq!(args(&calls[0]), parsed("{}"));
    assert!(text.is_empty(), "the whole message was the call: {text:?}");
}

#[test]
fn the_function_wrapper_shape_with_stringified_arguments_is_recovered() {
    let raw = "Writing that file now. {\"type\":\"function\",\"function\":\
               {\"name\":\"write_file\",\"arguments\":\"{\\\"path\\\":\\\"x\\\"}\"}}";
    let (text, calls) = recover(raw);

    assert_eq!(calls.len(), 1);
    assert_eq!(calls[0].name, "write_file");
    assert_eq!(args(&calls[0])["path"], "x");
    assert_eq!(text, "Writing that file now.");
}

#[test]
fn two_recovered_calls_get_distinct_ids() {
    let raw = "{\"call\":\"list_desks\"}\nthen\n\
               {\"call\":\"read_ledger\",\"arguments\":{\"ledger\":\"tasks\"}}";
    let (_, calls) = recover(raw);

    assert_eq!(calls.len(), 2);
    assert_eq!(calls[0].id, "salvaged_call_0");
    assert_eq!(calls[1].id, "salvaged_call_1");
}

#[test]
fn a_brace_inside_a_string_does_not_split_the_span() {
    let raw = "{\"call\":\"write_file\",\"arguments\":{\"path\":\"a{b\",\
               \"content\":\"}\"}}";
    let (_, calls) = recover(raw);

    assert_eq!(calls.len(), 1);
    assert_eq!(args(&calls[0])["path"], "a{b");
    assert_eq!(args(&calls[0])["content"], "}");
}

#[test]
fn a_turn_that_offered_no_tools_never_recovers() {
    let raw = "{\"call\":\"read_ledger\",\"arguments\":{\"ledger\":\"tasks\"}}";
    assert!(recover_text_tool_calls(raw, &Vec::new(), &Vec::new()).is_none());
}

#[test]
fn a_fenced_block_with_content_survives() {
    let raw = "Here is the fix:\n\n```rust\nlet x = 1;\n```\n\n\
               {\"call\":\"list_desks\"}";
    let (text, calls) = recover(raw);

    assert_eq!(calls.len(), 1);
    assert!(text.contains("let x = 1;"), "an unrelated code block must survive: {text:?}");
}

#[test]
fn non_object_arguments_are_refused() {
    let raw = "{\"call\":\"read_ledger\",\"arguments\":\"the tasks one\"}";
    let (_, calls) = recover(raw);

    assert!(calls.is_empty());
}

#[test]
fn non_object_arguments_are_refused_inside_the_function_wrapper() {
    let raw = "Calling it: {\"function\":{\"name\":\"read_ledger\",\
               \"arguments\":\"the tasks one\"}}";
    let (text, calls) = recover(raw);

    assert!(calls.is_empty());
    assert_eq!(text, raw, "and a refused call stays visible, not silently dropped");
}

#[test]
fn indentation_in_the_surviving_narrative_is_preserved() {
    let raw = "Steps:\n  1. Review releases\n      - check the ledger\n\n\n\
               {\"call\":\"list_desks\"}\n\nDone.";
    let (text, calls) = recover(raw);

    assert_eq!(calls.len(), 1);
    assert_eq!(text, "Steps:\n  1. Review releases\n      - check the ledger\n\nDone.");
}

#[test]
fn a_marker_on_its_own_line_is_removed_with_the_object() {
    let raw = "Let me look that up.\nfunction_call:\n{\"call\":\"list_desks\"}";
    let (text, calls) = recover(raw);

    assert_eq!(calls.len(), 1);
    assert_eq!(text, "Let me look that up.", "the marker must not survive into chat");
}

#[test]
fn a_marker_on_its_own_crlf_line_is_removed_with_the_object() {
    let raw = "Let me look that up.\r\nfunction_call:\r\n{\"call\":\"list_desks\"}";
    let (text, calls) = recover(raw);

    assert_eq!(calls.len(), 1);
    assert!(!text.contains("function_call"), "the marker must not survive into chat: {text:?}");
}

#[test]
fn a_blank_line_leaves_the_word_above_as_narrative() {
    let raw = "Here is what I found.\ncall:\n\n{\"call\":\"list_desks\"}";
    let (text, calls) = recover(raw);

    assert_eq!(calls.len(), 1);
    assert_eq!(text, "Here is what I found.\ncall:");
}

#[test]
fn a_documented_example_keyed_only_by_name_is_not_dispatched() {
    let raw = "Example: {\"name\":\"write_file\",\"arguments\":\
               {\"path\":\"demo\",\"content\":\"hi\"}}";
    let (text, calls) = recover(raw);

    assert!(calls.is_empty(), "a bare `name` object with no marker must not run a tool");
    assert_eq!(text, raw, "and the example must reach chat unchanged");
}

#[test]
fn a_name_keyed_object_behind_a_marker_is_dispatched() {
    let raw = "Writing it now. function_call:{\"name\":\"write_file\",\
               \"arguments\":{\"path\":\"demo\"}}";
    let (text, calls) = recover(raw);

    assert_eq!(calls.len(), 1);
    assert_eq!(calls[0].name, "write_file");
    assert_eq!(text, "Writing it now.");
}

#[test]
fn a_call_keyed_object_needs_no_marker() {
    let raw = "Here is the board.\n\n```json\n{\"call\":\"read_ledger\",\
               \"arguments\":{\"ledger\":\"tasks\"}}\n```";
    let (_, calls) = recover(raw);

    assert_eq!(calls.len(), 1);
    assert_eq!(calls[0].name, "read_ledger");
}

#[test]
fn a_marker_matched_inside_a_word_is_not_stripped() {
    let raw = "Recall: {\"call\":\"list_desks\"}";
    let (text, calls) = recover(raw);

    assert_eq!(calls.len(), 1, "the object is still a call");
    assert_eq!(text, "Recall:", "but the word must survive intact");
}

#[test]
fn an_inline_backtick_span_is_not_swept_as_an_empty_fence() {
    let raw = "Important ```do not delete``` and now: {\"call\":\"list_desks\"}";
    let (text, calls) = recover(raw);

    assert_eq!(calls.len(), 1);
    assert!(text.contains("do not delete"), "an inline code span must survive: {text:?}");
}

#[test]
fn tool_choice_none_authorizes_nothing() {
    let schemas = [ToolSchema::new("read_ledger".to_string(), "d".to_string(), to_json(&parsed("{}")))];
    assert!(authorized_tool_names(&schemas, &ToolChoice::NoTools).is_empty());
}

#[test]
fn a_pinned_tool_choice_authorizes_only_that_tool() {
    let schemas = [
        ToolSchema::new("read_ledger".to_string(), "d".to_string(), to_json(&parsed("{}"))),
        ToolSchema::new("write_file".to_string(), "d".to_string(), to_json(&parsed("{}"))),
    ];
    let authorized = authorized_tool_names(&schemas, &ToolChoice::Tool("read_ledger".to_string()));

    assert_eq!(authorized.len(), 1);
    assert!(authorized.iter().any(|n| n == "read_ledger"));
    assert!(
        !authorized.iter().any(|n| n == "write_file"),
        "a sibling schema is not authorized by a pinned choice"
    );
}

#[test]
fn a_multi_byte_character_before_the_object_does_not_panic() {
    let raw = "Checking the ledger\u{2026} {\"call\":\"list_desks\"}";
    let (text, calls) = recover(raw);

    assert_eq!(calls.len(), 1);
    assert_eq!(text, "Checking the ledger\u{2026}");
}

#[test]
fn a_tool_named_by_its_own_element_is_recovered() {
    let offered = offered(&["mcp_call_tool"]);
    let text = "<tool_call> <mcp_call_tool server=\"opencompany\" tool=\"workspace_search\" \
                arguments='{\"query\": \"checkout\"}' /> </tool_call>";

    let (cleaned, calls) =
        recover_text_tool_calls(text, &offered, &Vec::new()).expect("the call is recoverable");

    assert_eq!(calls.len(), 1);
    assert_eq!(calls[0].name, "mcp_call_tool");
    let a = args(&calls[0]);
    assert_eq!(a["server"], "opencompany");
    assert_eq!(a["tool"], "workspace_search");
    assert_eq!(a["arguments"]["query"], "checkout");
    assert!(!cleaned.contains("tool_call") && !cleaned.contains("mcp_call_tool"), "{cleaned:?}");
}

#[test]
fn an_element_naming_an_unoffered_tool_is_left_alone() {
    let offered = offered(&["mcp_call_tool"]);
    let text = "<workspace_search query=\"checkout\" />";

    assert!(recover_text_tool_calls(text, &offered, &Vec::new()).is_none());
}

#[test]
fn a_tool_element_with_its_arguments_in_the_body_is_recovered() {
    let offered = offered(&["mcp_call_tool"]);
    let text = "<tool_call> <mcp_call_tool> server=\"opencompany\", tool=\"hand_off\", \
                arguments={\"to\": \"qa_engineer\", \"brief\": \"You own this.\"} \
                </mcp_call_tool> </tool_call>";

    let (cleaned, calls) = recover_text_tool_calls(text, &offered, &Vec::new()).expect("recoverable");

    assert_eq!(calls.len(), 1);
    assert_eq!(calls[0].name, "mcp_call_tool");
    let a = args(&calls[0]);
    assert_eq!(a["server"], "opencompany");
    assert_eq!(a["tool"], "hand_off");
    assert_eq!(a["arguments"]["to"], "qa_engineer");
    assert!(!cleaned.contains("mcp_call_tool"), "{cleaned:?}");
}

#[test]
fn a_tool_element_with_child_arguments_is_recovered() {
    let offered = offered(&["mcp_call_tool"]);
    let text = "Own it. Let me pull the relevant standards first.\n\n\
                <tool_call>\n<mcp_call_tool>\n<server>opencompany</server>\n\
                <tool>workspace_search</tool>\n<arguments>{\"query\": \"test plan\"}</arguments>\n\
                </mcp_call_tool>\n</tool_calls>";

    let (cleaned, calls) = recover_text_tool_calls(text, &offered, &Vec::new()).expect("recoverable");

    assert_eq!(calls.len(), 1);
    let a = args(&calls[0]);
    assert_eq!(a["server"], "opencompany");
    assert_eq!(a["tool"], "workspace_search");
    assert_eq!(a["arguments"]["query"], "test plan");
    assert!(cleaned.starts_with("Own it."), "{cleaned:?}");
}

// ------------------------------------------------------------ further cases

#[test]
fn an_empty_reply_recovers_nothing() {
    assert!(recover_text_tool_calls("", &belt(), &Vec::new()).is_none());
}

#[test]
fn recovered_call_ids_count_past_nine() {
    assert_eq!(salvaged_call_id(0), "salvaged_call_0");
    assert_eq!(salvaged_call_id(10), "salvaged_call_10");
    assert_eq!(salvaged_call_id(123), "salvaged_call_123");
}

#[test]
fn eleven_calls_get_eleven_distinct_ids() {
    let raw = vec!["{\"call\":\"list_desks\"}"; 11].join("\n");
    let (text, calls) = recover(&raw);

    assert_eq!(calls.len(), 11);
    assert!(text.is_empty(), "{text:?}");
    let ids: Vec<&str> = calls.iter().map(|c| c.id.as_str()).collect();
    for (i, id) in ids.iter().enumerate() {
        assert_eq!(*id, format!("salvaged_call_{i}"));
    }
}

#[test]
fn an_automatic_choice_authorizes_every_offered_tool_once() {
    let schemas = [
        ToolSchema::new("read_ledger".to_string(), "d".to_string(), to_json(&parsed("{}"))),
        ToolSchema::new("write_file".to_string(), "d".to_string(), to_json(&parsed("{}"))),
        ToolSchema::new("read_ledger".to_string(), "again".to_string(), to_json(&parsed("{}"))),
    ];
    let authorized = authorized_tool_names(&schemas, &ToolChoice::Auto);
    assert_eq!(authorized, vec!["read_ledger".to_string(), "write_file".to_string()]);
    let required = authorized_tool_names(&schemas, &ToolChoice::Required);
    assert_eq!(required, authorized);
}

#[test]
fn a_pinned_tool_that_is_not_offered_authorizes_nothing() {
    let schemas = [ToolSchema::new("read_ledger".to_string(), "d".to_string(), to_json(&parsed("{}")))];
    assert!(authorized_tool_names(&schemas, &ToolChoice::Tool("write_file".to_string())).is_empty());
}

#[test]
fn authorized_schemas_carry_each_tools_parameters() {
    let read = parsed(r#"{ "type": "object", "properties": { "ledger": { "type": "string" } } }"#);
    let schemas = [
        ToolSchema::new("read_ledger".to_string(), "d".to_string(), to_json(&read)),
        ToolSchema::new("write_file".to_string(), "d".to_string(), to_json(&parsed("{}"))),
    ];
    let pinned = authorized_tool_schemas(&schemas, &ToolChoice::Tool("read_ledger".to_string()));
    assert_eq!(pinned.len(), 1);
    assert_eq!(pinned[0].0, "read_ledger");
    assert_eq!(value_of(&pinned[0].1), read);
    assert!(authorized_tool_schemas(&schemas, &ToolChoice::NoTools).is_empty());
    assert_eq!(authorized_tool_schemas(&schemas, &ToolChoice::Auto).len(), 2);
}

#[test]
fn a_schema_declared_type_behind_an_escaped_pointer_token_is_found() {
    // A parameter named `a/b` is addressed as `/properties/a/b/type`, which
    // walks `properties` → `a` → `b`.
    let schemas = vec![(
        "read_ledger".to_string(),
        to_json(&parsed(r#"{ "properties": { "a": { "b": { "type": "string" } } } }"#)),
    )];
    let (_, calls) = recover_with_schemas(
        "<invoke name=\"read_ledger\"><parameter name=\"a/b\">42</parameter></invoke>",
        &schemas,
    );
    assert_eq!(args(&calls[0]), parsed(r#"{ "a/b": "42" }"#));
}

#[test]
fn a_parameter_named_twice_keeps_the_last_value() {
    let (_, calls) = recover(
        "<invoke name=\"read_ledger\"><parameter name=\"ledger\">a</parameter>\
         <parameter name=\"ledger\">b</parameter></invoke>",
    );
    assert_eq!(args(&calls[0]), parsed(r#"{ "ledger": "b" }"#));
}

#[test]
fn a_string_declared_parameter_keeps_its_surrounding_whitespace() {
    let (_, calls) = recover(
        "<invoke name=\"read_ledger\"><parameter name=\"ledger\" string=\"TRUE\">  tasks </parameter></invoke>",
    );
    assert_eq!(args(&calls[0]), parsed(r#"{ "ledger": "  tasks " }"#));
}

#[test]
fn a_decoration_that_is_too_long_is_not_a_tag() {
    // Eleven three-byte glyphs is 33 bytes, one past the cap.
    let decoration = "\u{ff5c}".repeat(11);
    let text = format!("<{decoration}invoke name=\"list_desks\"></{decoration}invoke>");
    let (cleaned, calls) = recover(&text);
    assert!(calls.is_empty());
    assert_eq!(cleaned, text);
}

#[test]
fn an_object_call_and_a_tag_call_come_back_in_text_order() {
    let raw = "<invoke name=\"list_desks\"></invoke> then {\"call\":\"read_ledger\"}";
    let (text, calls) = recover(raw);
    assert_eq!(names(&calls), ["list_desks", "read_ledger"]);
    assert_eq!(text, "then");
}

#[test]
fn a_paired_tool_element_with_an_unclosed_body_is_left_alone() {
    let offered = offered(&["mcp_call_tool"]);
    let text = "<mcp_call_tool> server=\"opencompany\"";
    assert!(recover_text_tool_calls(text, &offered, &Vec::new()).is_none());
}

#[test]
fn a_turn_told_to_call_nothing_recovers_nothing() {
    let tools = [ToolSchema::new("read_ledger".to_string(), "d".to_string(), to_json(&parsed("{}")))];
    let reply = "function_call:{\"call\":\"read_ledger\",\"arguments\":{\"ledger\":\"tasks\"}}";
    for choice in [ToolChoice::NoTools, ToolChoice::Tool("write_file".to_string())] {
        let authorized = authorized_tool_names(&tools, &choice);
        let schemas = authorized_tool_schemas(&tools, &choice);
        assert!(recover_text_tool_calls(reply, &authorized, &schemas).is_none());
    }
    let authorized = authorized_tool_names(&tools, &ToolChoice::Auto);
    let schemas = authorized_tool_schemas(&tools, &ToolChoice::Auto);
    assert!(recover_text_tool_calls(reply, &authorized, &schemas).is_some());
}

#[test]
fn a_name_offered_twice_takes_the_schema_it_was_first_offered_with() {
    let tools = [
        ToolSchema::new("read_ledger".to_string(), "d".to_string(), to_json(&parsed("{\"first\":true}"))),
        ToolSchema::new("write_file".to_string(), "d".to_string(), to_json(&parsed("{}"))),
        ToolSchema::new("read_ledger".to_string(), "d".to_string(), to_json(&parsed("{\"first\":false}"))),
    ];
    let schemas = authorized_tool_schemas(&tools, &ToolChoice::Auto);
    let names: Vec<&str> = schemas.iter().map(|(n, _)| n.as_str()).collect();
    assert_eq!(names, vec!["read_ledger", "write_file"]);
    assert_eq!(value_of(&schemas[0].1), parsed("{\"first\":true}"));
}
