//! The surrounding vocabulary: platform detection, commit messages, the
//! plugin API policies and arena, and the small defaults.

use code_furnace::agents::AgentType;
use code_furnace::editor::CursorPosition;
use code_furnace::git::{GitManager, GitPlatform};
use code_furnace::plugins::{
    ApiError, CanvasAPI, FilesystemAPI, HostFunctions, NetworkAPI, PluginAPI, TerminalAPI,
    WasmMemory,
};
use code_furnace::workspace::ProjectConfig;

#[test]
fn platform_detection() {
    assert_eq!(GitPlatform::detect_from_url("https://github.com/o/r.git"), GitPlatform::GitHub);
    assert_eq!(GitPlatform::detect_from_url("git@gitlab.com:o/r.git"), GitPlatform::GitLab);
    assert_eq!(GitPlatform::detect_from_url("https://gitlab.example.org/o/r"), GitPlatform::GitLab);
    assert_eq!(GitPlatform::detect_from_url("https://gitlab.selfhosted/o/r"), GitPlatform::GitLab);
    assert_eq!(GitPlatform::detect_from_url("https://gitea.example.com/o/r"), GitPlatform::Gitea);
    assert_eq!(GitPlatform::detect_from_url("https://code.host/gitea/r"), GitPlatform::Gitea);
    assert_eq!(GitPlatform::detect_from_url("https://forgejo.org/o/r"), GitPlatform::Forgejo);
    assert_eq!(GitPlatform::detect_from_url("https://bitbucket.org/o/r"), GitPlatform::Bitbucket);
    assert_eq!(GitPlatform::detect_from_url("https://example.com/o/r"), GitPlatform::Generic);
}

#[test]
fn commit_messages() {
    let g = GitManager::new();
    assert_eq!(g.generate_ai_commit_message("/repo", &vec![]), "Update multiple files");
    assert_eq!(
        g.generate_ai_commit_message("/repo", &vec!["src/lib.rs".to_string()]),
        "Update src/lib.rs"
    );
    assert_eq!(
        g.generate_ai_commit_message(
            "/repo",
            &vec!["a".to_string(), "b".to_string(), "c".to_string()]
        ),
        "Update 3 files"
    );
}

#[test]
fn terminal_api_echoes() {
    let t = TerminalAPI::new();
    assert_eq!(t.execute_command("ls -la").unwrap(), "Executed: ls -la");
    assert!(t.get_active_session().is_none());
}

#[test]
fn canvas_modes() {
    let mut c = CanvasAPI::new();
    assert_eq!(c.get_current_mode(), "freeform");
    assert!(c.set_mode("flowchart").is_ok());
    assert_eq!(c.get_current_mode(), "flowchart");
    assert_eq!(c.set_mode("dada"), Err(ApiError::InvalidMode));
    assert_eq!(c.get_current_mode(), "flowchart");
    assert_eq!(c.export_canvas("png").unwrap(), b"placeholder_export_data".to_vec());
    assert_eq!(c.export_canvas("gif"), Err(ApiError::UnsupportedFormat));
}

#[test]
fn filesystem_policy_denies_by_default() {
    let mut f = FilesystemAPI::new();
    assert!(!f.is_path_allowed("/anything"));
    f.set_allowed_paths(vec!["/work".to_string(), "/tmp/sandbox".to_string()]);
    assert!(f.is_path_allowed("/work/project/file.rs"));
    assert!(f.is_path_allowed("/tmp/sandbox"));
    assert!(!f.is_path_allowed("/etc/passwd"));
}

#[test]
fn network_policy_matches_domain_and_subdomains() {
    let mut n = NetworkAPI::new();
    assert!(!n.host_allowed("example.com"));
    n.set_allowed_domains(vec!["example.com".to_string()]);
    assert!(n.host_allowed("example.com"));
    assert!(n.host_allowed("api.example.com"));
    assert!(!n.host_allowed("badexample.com"));
    assert!(!n.host_allowed("example.org"));
}

#[test]
fn wasm_memory_round_trip() {
    let mut m = WasmMemory::new(4);
    assert_eq!(m.data.len(), 4);
    let (ptr, len) = m.write_string("héllo").unwrap();
    assert_eq!(ptr, 4);
    assert_eq!(len, 6);
    assert_eq!(m.read_string(ptr, len).unwrap(), "héllo");
    assert_eq!(m.read_string(ptr, len + 100), Err(ApiError::OutOfBounds));
    assert_eq!(m.read_string(-1, 2), Err(ApiError::OutOfBounds));
    // splitting a two-byte character yields invalid content
    assert_eq!(m.read_string(ptr, 2), Err(ApiError::InvalidUtf8));
    let next = m.allocate(8);
    assert_eq!(next, 10);
    assert_eq!(m.data.len(), 18);
}

#[test]
fn plugin_api_defaults() {
    let api = PluginAPI::new();
    assert_eq!(api.canvas_api.get_current_mode(), "freeform");
    assert!(api.editor_api.get_current_file().is_none());
    assert_eq!(api.editor_api.get_cursor_position(), (0, 0));
    assert!(api.editor_api.set_cursor_position(4, 9).is_ok());
    assert!(!api.filesystem_api.is_path_allowed("/"));
}

#[test]
fn host_functions_start_fresh() {
    let h = HostFunctions::new();
    assert_eq!(h.memory.data.len(), 1048576);
    assert!(h.memory.data.iter().all(|b| *b == 0));
    assert_eq!(h.api.canvas_api.get_current_mode(), "freeform");
    assert!(h.api.terminal_api.get_active_session().is_none());
    assert!(h.api.editor_api.get_current_file().is_none());
    assert!(!h.api.filesystem_api.is_path_allowed("/"));
    assert!(!h.api.network_api.host_allowed("example.com"));
}

#[test]
fn agent_vocabulary() {
    let p = AgentType::CodeExplainer.get_system_prompt();
    assert!(p.starts_with("You are a code explanation specialist."));
    assert!(p.contains("\n- Breaking down complex logic into simple terms"));
    assert_eq!(
        AgentType::GitAssistant.get_capabilities(),
        vec!["commit_messages", "diff_analysis", "merge_strategies", "release_notes"]
    );
    assert_eq!(AgentType::Debugger.get_capabilities().len(), 4);
}

#[test]
fn small_defaults() {
    let c = CursorPosition::default();
    assert_eq!((c.line, c.column), (0, 0));
    let p = ProjectConfig::default();
    assert!(p.dev_command.is_none() && p.build_command.is_none() && p.test_command.is_none());
    assert!(p.env_vars.is_empty() && p.ports.is_empty());
}
