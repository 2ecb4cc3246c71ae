//! The pieces the recovery is built from, each on its own.

use opencompany_core::json::Json;
use opencompany_core::salvage::candidates::{tag_call_candidates, tool_element_candidates};
use opencompany_core::salvage::attrs::{attr, attribute_names, attrs_as_arguments, children_as_arguments};
use opencompany_core::salvage::marker::marker_start;
use opencompany_core::salvage::recover::recover_text_tool_calls;
use opencompany_core::salvage::spans::json_object_spans;
use opencompany_core::salvage::tags::{find_tag, tag_at, undecorated};
use opencompany_core::salvage::tidy::{collapse_blank_runs, cut_and_tidy, drop_empty_fences};

fn chars(s: &str) -> Vec<char> {
    s.chars().collect()
}

fn text(v: &[char]) -> String {
    v.iter().collect()
}

fn member_text(pairs: &[(String, Json)], key: &str) -> Option<String> {
    pairs.iter().find(|(k, _)| k == key).and_then(|(_, v)| match v {
        Json::Str(s) => Some(s.clone()),
        Json::Number(n) => Some(n.clone()),
        _ => None,
    })
}

#[test]
fn object_spans_are_outermost_and_skip_braces_in_strings() {
    let spans = json_object_spans("a {\"x\":{\"y\":\"}\"}} b {} c {unclosed");
    assert_eq!(spans, vec![(2, 17), (20, 22)]);
}

#[test]
fn object_spans_are_byte_offsets_into_the_text() {
    let text = "\u{2026} {\"a\":\"\u{e9}\"} x";
    let spans = json_object_spans(text);
    assert_eq!(spans, vec![(4, 14)]);
    assert_eq!(&text[spans[0].0..spans[0].1], "{\"a\":\"\u{e9}\"}");
}

#[test]
fn blank_runs_collapse_to_one_break_and_the_ends_are_trimmed() {
    let t = chars("\n \nfirst\n\n\n  second\n\t\nthird  \n\n");
    assert_eq!(text(&collapse_blank_runs(&t)), "first\n\n  second\n\nthird");
}

#[test]
fn only_empty_fenced_blocks_are_dropped() {
    let t = chars("a\n```json\n  \n```\nb\n```\nkeep\n```\n```");
    assert_eq!(text(&drop_empty_fences(&t)), "a\n\nb\n```\nkeep\n```\n```");
}

#[test]
fn cutting_clamps_overlapping_spans_and_tidies() {
    let cuts = vec![(5, 9), (7, 8), (20, 21)];
    assert_eq!(cut_and_tidy("keep CUT more\n\n\n```\nX\n```\nend", &cuts), "keep more\n\nend");
    // Cuts are byte spans: `\u{e9}` is two bytes.
    assert_eq!(cut_and_tidy("\u{e9}\u{e9}CUT tail", &[(4, 8)]), "\u{e9}\u{e9}tail");
}

#[test]
fn a_marker_is_taken_only_when_it_is_a_word_of_its_own() {
    assert_eq!(marker_start("see TOOL_CALL:  {", 16), 4);
    assert_eq!(marker_start("xcall:{", 6), 6);
    assert_eq!(marker_start("call:\r\n{", 7), 0);
    assert_eq!(marker_start("call:\n\n{", 7), 7);
    // Byte offsets: the ellipsis in front is three bytes.
    assert_eq!(marker_start("\u{2026} call: {", 10), 4);
}

#[test]
fn attributes_are_read_in_either_quote_and_not_inside_longer_names() {
    let t = chars(" substring=\"no\" string='yes' name = \"x\"");
    assert_eq!(attr(&t, 0, t.len(), &chars("string")).map(|v| text(&v)), Some("yes".to_string()));
    assert_eq!(attr(&t, 0, t.len(), &chars("name")).map(|v| text(&v)), Some("x".to_string()));
    assert_eq!(attr(&t, 0, t.len(), &chars("missing")), None);
    let bare = chars("=\"x\" rest");
    assert_eq!(attr(&bare, 0, bare.len(), &chars("")).map(|v| text(&v)), Some("x".to_string()));
    let names: Vec<String> = attribute_names(&t, 0, t.len()).iter().map(|n| text(n)).collect();
    assert_eq!(names, vec!["substring", "string", "name"]);
}

#[test]
fn attribute_values_parse_as_json_when_they_can() {
    let t = chars("n='5' s=\"text\" obj={\"a\": [1]} b=bare");
    let args = attrs_as_arguments(&t, 0, t.len());
    assert_eq!(member_text(&args, "n"), Some("5".to_string()));
    assert_eq!(member_text(&args, "s"), Some("text".to_string()));
    assert!(matches!(args.iter().find(|(k, _)| k == "obj").map(|(_, v)| v), Some(Json::Object(_))));
    assert!(args.iter().all(|(k, _)| k != "b"), "a bare word has no sure end");
    // The unquoted form is looked up at the key's first occurrence, as a
    // plain substring: here `o` first occurs inside `word`, so it is missed.
    let t = chars("s=\"word\" o={\"a\": 1}");
    let args = attrs_as_arguments(&t, 0, t.len());
    assert!(args.iter().all(|(k, _)| k != "o"));
}

#[test]
fn child_elements_with_plain_names_become_arguments() {
    let t = chars("<a>1</a> <not a tag> <b> two </b> <c>open");
    let args = children_as_arguments(&t, 0, t.len());
    let keys: Vec<&str> = args.iter().map(|(k, _)| k.as_str()).collect();
    assert_eq!(keys, vec!["a", "b"]);
    assert_eq!(member_text(&args, "b"), Some("two".to_string()));
}

#[test]
fn a_tag_is_found_through_a_marked_decoration_only() {
    let t = "x <\u{ff5c}DSML\u{ff5c}invoke name=\"a\"> y";
    let g = find_tag(t, 0, "invoke", false).expect("decorated tag");
    // Byte offsets: each `\u{ff5c}` is three bytes.
    assert_eq!((g.start, g.after), (2, 29));
    assert_eq!(&t[g.attrs_lo..g.attrs_hi], " name=\"a\"");
    assert!(find_tag(t, 4, "invoke", false).is_none(), "4 is not a boundary of the text");
    assert!(tag_at("<abcinvoke>", 0, "invoke", false).is_none(), "an ASCII run is a tag name");
    assert!(tag_at("</invoke >", 0, "invoke", true).is_some());
    assert!(tag_at("</invoke >", 0, "invoke", false).is_none());
    assert_eq!(undecorated("invoke x", "invoke").as_deref(), Some("invoke x"));
    assert_eq!(
        undecorated("\u{ff5c}DSML\u{ff5c}invoke>", "invoke").as_deref(),
        Some("invoke>")
    );
    assert_eq!(undecorated("abcinvoke>", "invoke"), None);
}

#[test]
fn an_escaped_pointer_token_reaches_a_parameter_with_a_slash_in_its_name() {
    let schema = Json::Object(vec![(
        "properties".to_string(),
        Json::Object(vec![(
            "x/y".to_string(),
            Json::Object(vec![("type".to_string(), Json::Str("string".to_string()))]),
        )]),
    )]);
    let offered = vec!["read_ledger".to_string()];
    let schemas = vec![("read_ledger".to_string(), schema)];
    let (_, calls) = recover_text_tool_calls(
        "<invoke name=\"read_ledger\"><parameter name=\"x~1y\">42</parameter></invoke>",
        &offered,
        &schemas,
    )
    .expect("recovered");
    match &calls[0].arguments {
        Json::Object(p) => assert_eq!(member_text(p, "x~1y"), Some("42".to_string())),
        other => panic!("{other:?}"),
    }
    assert!(matches!(&calls[0].arguments, Json::Object(p) if matches!(p[0].1, Json::Str(_))));
}

#[test]
fn candidate_spans_are_byte_offsets_into_the_text() {
    let text = "\u{e9}t\u{e9} <invoke name=\"read\"></invoke> <list_desks/>";
    let known = vec!["read".to_string(), "list_desks".to_string()];
    let tags = tag_call_candidates(text, &known, &Vec::new());
    assert_eq!(tags.len(), 1);
    assert_eq!((tags[0].start, tags[0].end), (6, 35));
    assert_eq!(&text[tags[0].start..tags[0].end], "<invoke name=\"read\"></invoke>");
    let elements = tool_element_candidates(text, &known);
    assert_eq!(elements.len(), 1);
    assert_eq!(&text[elements[0].start..elements[0].end], "<list_desks/>");
}
