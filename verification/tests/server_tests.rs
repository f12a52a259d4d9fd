//! One server's state machine: id allocation, the pending table under
//! delivery and timeout eviction, diagnostics replacement, document
//! versions and the lifecycle frames.

use code_furnace::json::{parse, JsonValue};
use code_furnace::server::{Dispatch, LSPServer, ServerLifecycle};

fn server() -> LSPServer {
    LSPServer::new("rust".to_string(), "rust-analyzer".to_string(), Vec::new())
}

fn msg(text: &str) -> JsonValue {
    parse(&text.as_bytes().to_vec()).expect("test message parses")
}

fn frame_text(frame: &[u8]) -> String {
    String::from_utf8(frame.to_vec()).expect("frames here are utf-8")
}

#[test]
fn request_ids_start_at_two_and_never_repeat() {
    let mut s = server();
    let (id1, _) = s.completion("file:///a.rs", 1, 2);
    let (id2, _) = s.hover("file:///a.rs", 1, 2);
    let (id3, _) = s.completion("file:///b.rs", 9, 0);
    assert_eq!(id1, 2);
    assert_eq!(id2, 3);
    assert_eq!(id3, 4);
    assert_eq!(s.next_id, 5);
}

#[test]
fn fresh_process_gets_fresh_counter() {
    let mut s1 = server();
    let (id_a, _) = s1.completion("file:///a.rs", 0, 0);
    let mut s2 = server();
    let (id_b, _) = s2.completion("file:///a.rs", 0, 0);
    assert_eq!(id_a, 2);
    assert_eq!(id_b, 2);
}

#[test]
fn matched_response_is_delivered_and_evicted() {
    let mut s = server();
    let (id, _) = s.completion("file:///a.rs", 1, 2);
    assert_eq!(id, 2);
    let response = msg("{\"jsonrpc\":\"2.0\",\"id\":2,\"result\":[]}");
    match s.process_message(response) {
        Dispatch::Delivered(rid, payload) => {
            assert_eq!(rid, 2);
            assert_eq!(payload, msg("{\"jsonrpc\":\"2.0\",\"id\":2,\"result\":[]}"));
        },
        _ => panic!("a pending id must be delivered"),
    }
    // a second copy of the same response finds no entry
    match s.process_message(msg("{\"jsonrpc\":\"2.0\",\"id\":2,\"result\":[]}")) {
        Dispatch::Stale(rid) => assert_eq!(rid, 2),
        _ => panic!("an evicted id is stale"),
    }
}

#[test]
fn timed_out_request_is_evicted_and_late_response_ignored() {
    let mut s = server();
    let (id, _) = s.completion("file:///a.rs", 1, 2);
    // the caller stops waiting: the correlator evicts the entry itself
    s.cancel_pending(id);
    let late = msg("{\"jsonrpc\":\"2.0\",\"id\":2,\"result\":{\"items\":[]}}");
    match s.process_message(late) {
        Dispatch::Stale(rid) => assert_eq!(rid, id),
        _ => panic!("a late response to a cancelled request is dropped silently"),
    }
}

#[test]
fn unknown_id_response_is_stale() {
    let mut s = server();
    match s.process_message(msg("{\"jsonrpc\":\"2.0\",\"id\":99,\"result\":null}")) {
        Dispatch::Stale(rid) => assert_eq!(rid, 99),
        _ => panic!("an unknown id is stale"),
    }
}

#[test]
fn diagnostics_replace_not_merge() {
    let mut s = server();
    let two = msg(
        "{\"jsonrpc\":\"2.0\",\"method\":\"textDocument/publishDiagnostics\",\"params\":{\"uri\":\"file:///a.rs\",\"diagnostics\":[{\"range\":{\"start\":{\"line\":0,\"character\":0},\"end\":{\"line\":0,\"character\":1}},\"severity\":1,\"message\":\"first\"},{\"range\":{\"start\":{\"line\":1,\"character\":0},\"end\":{\"line\":1,\"character\":2}},\"severity\":2,\"message\":\"second\"}]}}",
    );
    match s.process_message(two) {
        Dispatch::Diagnostics(uri) => assert_eq!(uri, "file:///a.rs"),
        _ => panic!("a publish notification updates the cache"),
    }
    let cached = s.get_diagnostics("file:///a.rs").expect("two diagnostics cached");
    assert_eq!(cached.len(), 2);
    assert_eq!(cached[0].message, "first");
    assert_eq!(cached[1].message, "second");

    let one = msg(
        "{\"jsonrpc\":\"2.0\",\"method\":\"textDocument/publishDiagnostics\",\"params\":{\"uri\":\"file:///a.rs\",\"diagnostics\":[{\"range\":{\"start\":{\"line\":5,\"character\":0},\"end\":{\"line\":5,\"character\":3}},\"severity\":4,\"message\":\"third\"}]}}",
    );
    s.process_message(one);
    let cached = s.get_diagnostics("file:///a.rs").expect("one diagnostic cached");
    assert_eq!(cached.len(), 1);
    assert_eq!(cached[0].message, "third");
    assert_eq!(cached[0].severity, 4);
}

#[test]
fn diagnostics_are_per_uri() {
    let mut s = server();
    let a = msg(
        "{\"jsonrpc\":\"2.0\",\"method\":\"textDocument/publishDiagnostics\",\"params\":{\"uri\":\"file:///a.rs\",\"diagnostics\":[]}}",
    );
    s.process_message(a);
    assert!(s.get_diagnostics("file:///a.rs").is_some());
    assert!(s.get_diagnostics("file:///b.rs").is_none());
}

#[test]
fn unparsable_diagnostic_items_are_skipped() {
    let mut s = server();
    let mixed = msg(
        "{\"jsonrpc\":\"2.0\",\"method\":\"textDocument/publishDiagnostics\",\"params\":{\"uri\":\"file:///a.rs\",\"diagnostics\":[{\"nonsense\":true},{\"range\":{\"start\":{\"line\":0,\"character\":0},\"end\":{\"line\":0,\"character\":0}},\"severity\":3,\"message\":\"kept\"}]}}",
    );
    s.process_message(mixed);
    let cached = s.get_diagnostics("file:///a.rs").expect("cache updated");
    assert_eq!(cached.len(), 1);
    assert_eq!(cached[0].message, "kept");
}

#[test]
fn notifications_with_ids_and_other_methods_are_ignored() {
    let mut s = server();
    match s.process_message(msg("{\"jsonrpc\":\"2.0\",\"method\":\"window/logMessage\",\"params\":{}}")) {
        Dispatch::Ignored => {},
        _ => panic!("unknown notifications are ignored"),
    }
    match s.process_message(msg(
        "{\"jsonrpc\":\"2.0\",\"id\":1,\"method\":\"workspace/configuration\",\"params\":{}}",
    )) {
        Dispatch::Ignored => {},
        _ => panic!("server-side requests are ignored"),
    }
}

#[test]
fn versions_run_one_two_three_four() {
    let mut s = server();
    let open_frame = s.did_open("file:///a.rs", "rust", "fn main() {}");
    assert!(frame_text(&open_frame).contains("\"version\":1"));
    let (f2, v2) = s.did_change("file:///a.rs", "fn main() { }");
    let (f3, v3) = s.did_change("file:///a.rs", "fn main() {  }");
    let (f4, v4) = s.did_change("file:///a.rs", "fn main() {   }");
    assert_eq!((v2, v3, v4), (2, 3, 4));
    assert!(frame_text(&f2).contains("\"version\":2"));
    assert!(frame_text(&f3).contains("\"version\":3"));
    assert!(frame_text(&f4).contains("\"version\":4"));
}

#[test]
fn reopening_reseeds_the_version() {
    let mut s = server();
    s.did_open("file:///a.rs", "rust", "x");
    s.did_change("file:///a.rs", "xy");
    s.did_open("file:///a.rs", "rust", "fresh");
    let (_, v) = s.did_change("file:///a.rs", "fresh2");
    assert_eq!(v, 2);
}

#[test]
fn start_emits_initialize_then_initialized() {
    let mut s = server();
    assert_eq!(s.state, ServerLifecycle::NotStarted);
    let frames = frame_text(&s.start(4242, "/work/demo", "demo"));
    assert_eq!(s.state, ServerLifecycle::Starting);
    s.mark_running();
    assert_eq!(s.state, ServerLifecycle::Running);
    assert!(frames.contains("\"method\":\"initialize\""));
    assert!(frames.contains("\"id\":1"));
    assert!(frames.contains("\"processId\":4242"));
    assert!(frames.contains("\"rootUri\":\"file:///work/demo\""));
    assert!(frames.contains("\"method\":\"initialized\""));
    // the capability table announces what the client supports
    assert!(frames.contains("\"publishDiagnostics\":{\"relatedInformation\":true"));
    assert!(frames.contains("\"snippetSupport\":true"));
    assert!(frames.contains("\"documentationFormat\":[\"markdown\",\"plaintext\"]"));
    assert!(frames.contains("\"hover\":{\"dynamicRegistration\":true,\"contentFormat\":[\"markdown\",\"plaintext\"]}"));
    assert!(frames.contains("\"synchronization\":"));
    assert!(frames.contains("\"workspace\":{\"applyEdit\":true"));
    let init_at = frames.find("\"method\":\"initialize\"").unwrap();
    let inited_at = frames.find("\"method\":\"initialized\"").unwrap();
    assert!(init_at < inited_at);
}

#[test]
fn shutdown_emits_reserved_id_then_exit() {
    let mut s = server();
    s.start(1, "/w", "w");
    let frames = frame_text(&s.shutdown());
    assert_eq!(s.state, ServerLifecycle::ShuttingDown);
    assert!(frames.contains("\"id\":999"));
    assert!(frames.contains("\"method\":\"shutdown\""));
    assert!(frames.contains("{\"jsonrpc\":\"2.0\",\"method\":\"exit\"}"));
    s.terminated();
    assert_eq!(s.state, ServerLifecycle::Terminated);
    assert!(s.get_diagnostics("file:///a.rs").is_none());
}

#[test]
fn completion_frame_carries_position_and_context() {
    let mut s = server();
    let (id, frame) = s.completion("file:///a.rs", 10, 4);
    let text = frame_text(&frame);
    assert!(text.contains(&format!("\"id\":{}", id)));
    assert!(text.contains("\"method\":\"textDocument/completion\""));
    assert!(text.contains("\"position\":{\"line\":10,\"character\":4}"));
    assert!(text.contains("\"triggerKind\":1"));
    let (_, hover_frame) = s.hover("file:///a.rs", 10, 4);
    let hover_text = frame_text(&hover_frame);
    assert!(hover_text.contains("\"method\":\"textDocument/hover\""));
    assert!(!hover_text.contains("triggerKind"));
}
