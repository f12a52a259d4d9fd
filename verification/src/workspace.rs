//! Workspace-level vocabulary: recognized project kinds, a project's run
//! configuration, and the states and log levels of its background processes.

use vstd::prelude::*;

verus! {

/// What build system a project uses.
#[derive(Debug, Clone, Copy, PartialEq, Eq, Structural)]
pub enum ProjectType {
    RustCargo,
    NodeJs,
    Python,
    Generic,
}

/// A project's run configuration: commands, environment and ports.
#[derive(Debug)]
pub struct ProjectConfig {
    pub dev_command: Option<String>,
    pub build_command: Option<String>,
    pub test_command: Option<String>,
    pub env_vars: Vec<(String, String)>,
    pub ports: Vec<u16>,
}

impl Default for ProjectConfig {
    /// An empty configuration: no commands, no environment, no ports.
    fn default() -> (r: ProjectConfig)
        ensures
            r.dev_command is None,
            r.build_command is None,
            r.test_command is None,
            r.env_vars@.len() == 0,
            r.ports@.len() == 0,
    {
        ProjectConfig {
            dev_command: None,
            build_command: None,
            test_command: None,
            env_vars: Vec::new(),
            ports: Vec::new(),
        }
    }
}

/// Severity of one captured log line.
#[derive(Debug, Clone, Copy, PartialEq, Eq, Structural)]
pub enum LogLevel {
    Info,
    Warning,
    Error,
    Debug,
}

/// Where a managed background process stands.
#[derive(Debug, Clone, Copy, PartialEq, Eq, Structural)]
pub enum ProcessStatus {
    Starting,
    Running,
    Stopped,
    Error,
}

} // verus!
