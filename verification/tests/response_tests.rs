//! Response normalization: completion lists in both shapes, item skipping,
//! and the hover content forms.

use code_furnace::json::{parse, JsonValue};
use code_furnace::lsp_types::{parse_completion_response, parse_hover_response, LSPDocumentation};

fn msg(text: &str) -> JsonValue {
    parse(&text.as_bytes().to_vec()).expect("test document parses")
}

#[test]
fn bare_array_and_list_object_normalize_identically() {
    let bare = msg("{\"jsonrpc\":\"2.0\",\"id\":2,\"result\":[{\"label\":\"foo\"}]}");
    let listed = msg("{\"jsonrpc\":\"2.0\",\"id\":2,\"result\":{\"items\":[{\"label\":\"foo\"}]}}");
    let a = parse_completion_response(&bare);
    let b = parse_completion_response(&listed);
    assert_eq!(a.len(), 1);
    assert_eq!(b.len(), 1);
    assert_eq!(a[0].label, "foo");
    assert_eq!(b[0].label, "foo");
    assert_eq!(a[0].kind, None);
    assert_eq!(b[0].kind, None);
}

#[test]
fn completion_fields_carry_over() {
    let m = msg(
        "{\"id\":2,\"result\":[{\"label\":\"push\",\"kind\":2,\"detail\":\"fn push\",\"documentation\":{\"kind\":\"markdown\",\"value\":\"adds\"},\"insertText\":\"push($0)\",\"sortText\":\"0001\",\"filterText\":\"push\",\"preselect\":true}]}",
    );
    let items = parse_completion_response(&m);
    assert_eq!(items.len(), 1);
    let it = &items[0];
    assert_eq!(it.label, "push");
    assert_eq!(it.kind, Some(2));
    assert_eq!(it.detail.as_deref(), Some("fn push"));
    match &it.documentation {
        Some(LSPDocumentation::Markup { kind, value }) => {
            assert_eq!(kind, "markdown");
            assert_eq!(value, "adds");
        },
        _ => panic!("markup documentation survives"),
    }
    assert_eq!(it.insert_text.as_deref(), Some("push($0)"));
    assert_eq!(it.sort_text.as_deref(), Some("0001"));
    assert_eq!(it.filter_text.as_deref(), Some("push"));
    assert_eq!(it.preselect, Some(true));
}

#[test]
fn unreadable_items_are_skipped_individually() {
    let m = msg(
        "{\"id\":2,\"result\":[{\"label\":\"good\"},{\"kind\":1},{\"label\":\"also\",\"kind\":\"nope\"},{\"label\":\"kept\"}]}",
    );
    let items = parse_completion_response(&m);
    assert_eq!(items.len(), 2);
    assert_eq!(items[0].label, "good");
    assert_eq!(items[1].label, "kept");
}

#[test]
fn malformed_results_normalize_to_empty() {
    assert!(parse_completion_response(&msg("{\"id\":2,\"result\":null}")).is_empty());
    assert!(parse_completion_response(&msg("{\"id\":2,\"result\":{\"items\":3}}")).is_empty());
    assert!(parse_completion_response(&msg("{\"id\":2}")).is_empty());
    assert!(parse_completion_response(&msg("{\"id\":2,\"result\":7}")).is_empty());
}

#[test]
fn string_documentation_form() {
    let m = msg("{\"id\":2,\"result\":[{\"label\":\"x\",\"documentation\":\"plain words\"}]}");
    let items = parse_completion_response(&m);
    match &items[0].documentation {
        Some(LSPDocumentation::Text(s)) => assert_eq!(s, "plain words"),
        _ => panic!("string documentation survives"),
    }
}

#[test]
fn hover_null_and_missing_results_mean_no_hover() {
    assert!(parse_hover_response(&msg("{\"id\":3,\"result\":null}")).is_none());
    assert!(parse_hover_response(&msg("{\"id\":3}")).is_none());
}

#[test]
fn hover_string_contents() {
    let h = parse_hover_response(&msg("{\"id\":3,\"result\":{\"contents\":\"a type\"}}"))
        .expect("hover present");
    assert_eq!(h.contents, vec!["a type".to_string()]);
    assert!(h.range.is_none());
}

#[test]
fn hover_array_contents_mix() {
    let h = parse_hover_response(&msg(
        "{\"id\":3,\"result\":{\"contents\":[\"one\",{\"value\":\"two\"},{\"contents\":\"three\"},7,{\"language\":\"rust\",\"other\":1}]}}",
    ))
    .expect("hover present");
    assert_eq!(
        h.contents,
        vec!["one".to_string(), "two".to_string(), "three".to_string()]
    );
}

#[test]
fn hover_markup_object_contents() {
    let h = parse_hover_response(&msg(
        "{\"id\":3,\"result\":{\"contents\":{\"kind\":\"markdown\",\"value\":\"# doc\"},\"range\":{\"start\":{\"line\":1,\"character\":2},\"end\":{\"line\":1,\"character\":5}}}}",
    ))
    .expect("hover present");
    assert_eq!(h.contents, vec!["# doc".to_string()]);
    let r = h.range.expect("range read back");
    assert_eq!((r.start.line, r.start.character), (1, 2));
    assert_eq!((r.end.line, r.end.character), (1, 5));
}

#[test]
fn hover_language_value_object_renders_a_code_block() {
    let h = parse_hover_response(&msg(
        "{\"id\":3,\"result\":{\"contents\":{\"language\":\"rust\",\"value\":\"fn f()\"}}}",
    ))
    .expect("hover present");
    assert_eq!(h.contents, vec!["```rust\nfn f()\n```".to_string()]);
}

#[test]
fn hover_without_contents_is_empty_but_present() {
    let h = parse_hover_response(&msg("{\"id\":3,\"result\":{}}")).expect("hover present");
    assert!(h.contents.is_empty());
}

#[test]
fn hover_bad_range_is_dropped_quietly() {
    let h = parse_hover_response(&msg(
        "{\"id\":3,\"result\":{\"contents\":\"x\",\"range\":{\"start\":{\"line\":1}}}}",
    ))
    .expect("hover present");
    assert_eq!(h.contents, vec!["x".to_string()]);
    assert!(h.range.is_none());
}
