//! Verified core of an editor's language-server client.
//!
//! The wire side: `json` is a byte-level JSON codec whose parser provably
//! reads back whatever the serializer emits, `frame` wraps documents in
//! `Content-Length` frames with the same round-trip guarantee, and `rpc`
//! builds and classifies the JSON-RPC messages the protocol speaks.
//!
//! The state side: `server` keeps one process's request-id counter (ids are
//! never reused), its outstanding-request table, diagnostics cache
//! (publishes replace, never merge) and document version table (1 on open,
//! incremented per change); `manager` pools one server per language and
//! turns operations on absent languages into quiet no-ops; `lsp_types`
//! holds the diagnostics, completion and hover data with their verified
//! response readers.
//!
//! Around them stand the plain vocabularies the surrounding editor
//! exchanges: `agents`, `canvas`, `editor`, `workspace`, `plugins`, `git`
//! and the `github`/`gitlab`/`gitea` REST shapes. Process spawning, pipes
//! and the request clock belong to the embedding binary, which moves bytes
//! and events between a child process and this crate.

pub mod agents;
pub mod canvas;
pub mod editor;
pub mod frame;
pub mod git;
pub mod gitea;
pub mod github;
pub mod gitlab;
pub mod json;
pub mod lsp_types;
pub mod manager;
pub mod plugins;
pub mod rpc;
pub mod server;
pub mod workspace;
