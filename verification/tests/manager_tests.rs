//! The pool: lazy start planning, forwarding, the quiet no-ops for
//! languages without tooling, extension mapping and shutdown.

use code_furnace::manager::{LSPManager, StartPlan};
use code_furnace::server::LSPServer;

fn manager_with_rust_server() -> LSPManager {
    let mut m = LSPManager::new();
    let mut srv = LSPServer::new("rust".to_string(), "rust-analyzer".to_string(), Vec::new());
    srv.start(77, "/work/demo", "demo");
    srv.mark_running();
    m.register_server(srv);
    m
}

#[test]
fn unknown_language_operations_return_nothing() {
    let mut m = LSPManager::new();
    assert!(m.get_hover("cobol", "file:///a.cbl", 0, 0).is_none());
    assert!(m.get_completion("cobol", "file:///a.cbl", 0, 0).is_none());
    assert!(m.get_diagnostics("cobol", "file:///a.cbl").is_none());
    assert!(m.did_open_document("file:///a.cbl", "cobol", "x").is_none());
    assert!(m.did_change_document("file:///a.cbl", "cobol", "y", 9).is_none());
}

#[test]
fn ensure_server_plans() {
    let m = manager_with_rust_server();
    match m.ensure_server("rust") {
        StartPlan::AlreadyPresent => {},
        _ => panic!("a pooled language needs no start"),
    }
    match m.ensure_server("python") {
        StartPlan::Launch(cmd, args) => {
            assert_eq!(cmd, "pylsp");
            assert!(args.is_empty());
        },
        _ => panic!("a configured language launches"),
    }
    match m.ensure_server("typescript") {
        StartPlan::Launch(cmd, args) => {
            assert_eq!(cmd, "typescript-language-server");
            assert_eq!(args, vec!["--stdio".to_string()]);
        },
        _ => panic!("a configured language launches"),
    }
    match m.ensure_server("cobol") {
        StartPlan::NoConfig => {},
        _ => panic!("an unconfigured language stays without tooling"),
    }
}

#[test]
fn forwarding_reaches_the_pooled_server() {
    let mut m = manager_with_rust_server();
    let frame = m
        .did_open_document("file:///lib.rs", "rust", "fn f() {}")
        .expect("the rust server takes the open");
    let text = String::from_utf8(frame).unwrap();
    assert!(text.contains("\"method\":\"textDocument/didOpen\""));
    assert!(text.contains("\"version\":1"));

    let (frame, v) = m
        .did_change_document("file:///lib.rs", "rust", "fn f() { }", 12345)
        .expect("the rust server takes the change");
    // the caller's version hint is not trusted: the table announces 2
    assert_eq!(v, 2);
    assert!(String::from_utf8(frame).unwrap().contains("\"version\":2"));

    let (id, frame) = m
        .get_completion("rust", "file:///lib.rs", 3, 1)
        .expect("the rust server takes the request");
    assert_eq!(id, 2);
    assert!(String::from_utf8(frame).unwrap().contains("textDocument/completion"));

    let (id2, _) = m.get_hover("rust", "file:///lib.rs", 3, 1).expect("hover request");
    assert_eq!(id2, 3);
}

#[test]
fn extension_mapping() {
    let m = LSPManager::new();
    assert_eq!(m.get_language_for_extension("rs"), Some("rust".to_string()));
    assert_eq!(m.get_language_for_extension("ts"), Some("typescript".to_string()));
    assert_eq!(m.get_language_for_extension("tsx"), Some("typescript".to_string()));
    assert_eq!(m.get_language_for_extension("jsx"), Some("javascript".to_string()));
    assert_eq!(m.get_language_for_extension("py"), Some("python".to_string()));
    assert_eq!(m.get_language_for_extension("go"), Some("go".to_string()));
    assert_eq!(m.get_language_for_extension("zig"), None);
}

#[test]
fn shutdown_all_drains_the_pool() {
    let mut m = manager_with_rust_server();
    let mut py = LSPServer::new("python".to_string(), "pylsp".to_string(), Vec::new());
    py.start(78, "/work/demo", "demo");
    py.mark_running();
    m.register_server(py);
    let frames = m.shutdown_all();
    assert_eq!(frames.len(), 2);
    for f in frames {
        let text = String::from_utf8(f).unwrap();
        assert!(text.contains("\"method\":\"shutdown\""));
        assert!(text.contains("\"id\":999"));
        assert!(text.contains("{\"jsonrpc\":\"2.0\",\"method\":\"exit\"}"));
    }
    assert!(m.servers.is_empty());
    // the pool is usable again: a fresh server can be registered
    match m.ensure_server("rust") {
        StartPlan::Launch(cmd, _) => assert_eq!(cmd, "rust-analyzer"),
        _ => panic!("after shutdown the language is absent again"),
    }
}
