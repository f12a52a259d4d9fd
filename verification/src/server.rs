//! One language-server process's client-side state: its lifecycle, the
//! monotonic request-id counter, the table of outstanding requests, the
//! per-document diagnostics cache and the document version table, together
//! with the operations that build outgoing frames and dispatch incoming
//! messages.
//!
//! Every id handed out is the counter's value at the time, and the counter
//! only ever grows, so no id is ever reused within one process's lifetime
//! (`lemma_request_ids_never_reused`). Publishing diagnostics replaces a
//! document's cached list wholesale (`lemma_diagnostics_replace`), and the
//! version table seeds at 1 on open and increments on every change
//! (`lemma_version_sequence`).

use vstd::prelude::*;
use crate::frame::{encode_frame, frame_bytes};
use crate::json::{jmodel, json_as_u64, obj_get, ser, spec_get, str_eq, JsonModel, JsonValue};
use crate::lsp_types::{
    clone_diags, diags_view, parse_diagnostics_array, spec_diag_items, DiagV, LSPDiagnostic,
};
use crate::rpc::{
    did_change_model, did_change_value, did_open_model, did_open_value, exit_model,
    exit_notification, initialized_notification, is_initialize_payload, initialize_request,
    notification_model, position_params, position_params_model, request_model, request_value,
    shutdown_request, spec_classify, SpecIncoming,
};

verus! {

/// Where a server process stands in its life.
#[derive(Debug, Clone, Copy, PartialEq, Eq, Structural)]
pub enum ServerLifecycle {
    NotStarted,
    Starting,
    Running,
    ShuttingDown,
    Terminated,
}

/// First-match lookup in the diagnostics cache.
pub open spec fn spec_diags_at(
    entries: Seq<(String, Vec<LSPDiagnostic>)>,
    uri: Seq<char>,
) -> Option<Seq<DiagV>>
    decreases entries.len(),
{
    if entries.len() == 0 {
        None
    } else if entries[0].0@ == uri {
        Some(diags_view(entries[0].1@))
    } else {
        spec_diags_at(entries.drop_first(), uri)
    }
}

/// First-match lookup in the document version table.
pub open spec fn spec_version_at(entries: Seq<(String, u64)>, uri: Seq<char>) -> Option<u64>
    decreases entries.len(),
{
    if entries.len() == 0 {
        None
    } else if entries[0].0@ == uri {
        Some(entries[0].1)
    } else {
        spec_version_at(entries.drop_first(), uri)
    }
}

/// The client side of one language-server process.
pub struct LSPServer {
    pub language: String,
    pub command: String,
    pub args: Vec<String>,
    pub workspace_folders: Vec<String>,
    pub state: ServerLifecycle,
    /// Next request id to hand out; id 1 is reserved for `initialize`, so
    /// the counter starts at 2.
    pub next_id: u64,
    /// Ids of requests sent whose responses are still awaited.
    pub pending: Vec<u64>,
    /// Latest published diagnostics per document uri.
    pub diagnostics: Vec<(String, Vec<LSPDiagnostic>)>,
    /// Version last announced per document uri.
    pub doc_versions: Vec<(String, u64)>,
}

impl LSPServer {
    pub open spec fn diags_of(self, uri: Seq<char>) -> Option<Seq<DiagV>> {
        spec_diags_at(self.diagnostics@, uri)
    }

    pub open spec fn version_of(self, uri: Seq<char>) -> Option<u64> {
        spec_version_at(self.doc_versions@, uri)
    }

    pub open spec fn has_pending(self, id: u64) -> bool {
        self.pending@.contains(id)
    }

    /// Structural soundness: unique cache keys, unique pending ids, and
    /// every pending id drawn from the counter's past.
    pub open spec fn wf(self) -> bool {
        &&& self.next_id >= 2
        &&& forall|i: int, j: int|
            0 <= i < j < self.diagnostics@.len() ==> (#[trigger] self.diagnostics@[i]).0@ != (
            #[trigger] self.diagnostics@[j]).0@
        &&& forall|i: int, j: int|
            0 <= i < j < self.doc_versions@.len() ==> (#[trigger] self.doc_versions@[i]).0@ != (
            #[trigger] self.doc_versions@[j]).0@
        &&& forall|i: int, j: int|
            0 <= i < j < self.pending@.len() ==> #[trigger] self.pending@[i] != #[trigger] self.pending@[j]
        &&& forall|i: int|
            0 <= i < self.pending@.len() ==> 2 <= #[trigger] self.pending@[i]
                < self.next_id
    }

    /// The parts of the state an operation leaves alone.
    pub open spec fn same_diagnostics(self, other: LSPServer) -> bool {
        self.diagnostics@ == other.diagnostics@
    }

    pub open spec fn same_versions(self, other: LSPServer) -> bool {
        self.doc_versions@ == other.doc_versions@
    }

    pub open spec fn same_pending(self, other: LSPServer) -> bool {
        self.pending@ == other.pending@
    }

    pub open spec fn same_identity(self, other: LSPServer) -> bool {
        &&& self.language@ == other.language@
        &&& self.command@ == other.command@
        &&& self.args@ == other.args@
        &&& self.workspace_folders@ == other.workspace_folders@
    }

    /// A fresh, not yet started server for one language.
    pub fn new(language: String, command: String, args: Vec<String>) -> (s: LSPServer)
        ensures
            s.wf(),
            s.language@ == language@,
            s.command@ == command@,
            s.args@ == args@,
            s.workspace_folders@.len() == 0,
            s.state == ServerLifecycle::NotStarted,
            s.next_id == 2,
            s.pending@.len() == 0,
            s.diagnostics@.len() == 0,
            s.doc_versions@.len() == 0,
    {
        LSPServer {
            language,
            command,
            args,
            workspace_folders: Vec::new(),
            state: ServerLifecycle::NotStarted,
            next_id: 2,
            pending: Vec::new(),
            diagnostics: Vec::new(),
            doc_versions: Vec::new(),
        }
    }
}

// ---------------------------------------------------------------------------
// Lookup stability under the cache updates
// ---------------------------------------------------------------------------

/// Replacing the entry that holds a key changes that key's lookup and no
/// other.
pub proof fn lemma_diags_update(
    entries: Seq<(String, Vec<LSPDiagnostic>)>,
    i: int,
    pair: (String, Vec<LSPDiagnostic>),
    u: Seq<char>,
)
    requires
        0 <= i < entries.len(),
        forall|j: int| 0 <= j < i ==> (#[trigger] entries[j]).0@ != pair.0@,
        entries[i].0@ == pair.0@,
    ensures
        pair.0@ == u ==> spec_diags_at(entries.update(i, pair), u) == Some(diags_view(pair.1@)),
        pair.0@ != u ==> spec_diags_at(entries.update(i, pair), u) == spec_diags_at(entries, u),
    decreases i,
{
    let upd = entries.update(i, pair);
    if i == 0 {
        assert(upd[0] == pair);
        if pair.0@ != u {
            assert(upd.drop_first() =~= entries.drop_first());
        }
    } else {
        assert(upd[0] == entries[0]);
        assert(upd.drop_first() =~= entries.drop_first().update(i - 1, pair));
        assert(forall|j: int| 0 <= j < i - 1 ==> (#[trigger] entries.drop_first()[j]).0@ != pair.0@)
            by {
            assert(forall|j: int| 0 <= j < i - 1 ==> #[trigger] entries.drop_first()[j] == entries[j
                + 1]);
        }
        lemma_diags_update(entries.drop_first(), i - 1, pair, u);
    }
}

/// Appending an entry with a fresh key changes that key's lookup and no
/// other.
pub proof fn lemma_diags_push(
    entries: Seq<(String, Vec<LSPDiagnostic>)>,
    pair: (String, Vec<LSPDiagnostic>),
    u: Seq<char>,
)
    requires
        forall|j: int| 0 <= j < entries.len() ==> (#[trigger] entries[j]).0@ != pair.0@,
    ensures
        pair.0@ == u ==> spec_diags_at(entries.push(pair), u) == Some(diags_view(pair.1@)),
        pair.0@ != u ==> spec_diags_at(entries.push(pair), u) == spec_diags_at(entries, u),
    decreases entries.len(),
{
    if entries.len() == 0 {
        assert(entries.push(pair)[0] == pair);
        if pair.0@ != u {
            assert(entries.push(pair).drop_first() =~= Seq::<(String, Vec<LSPDiagnostic>)>::empty());
            assert(spec_diags_at(Seq::<(String, Vec<LSPDiagnostic>)>::empty(), u) is None);
        } else {
            assert(entries.push(pair)[0].0@ == u);
            assert(spec_diags_at(entries.push(pair), u) == Some(
                diags_view(entries.push(pair)[0].1@),
            ));
            assert(diags_view(entries.push(pair)[0].1@) == diags_view(pair.1@));
        }
    } else {
        assert(entries.push(pair)[0] == entries[0]);
        assert(entries.push(pair).drop_first() =~= entries.drop_first().push(pair));
        assert(forall|j: int| 0 <= j < entries.len() - 1 ==> (#[trigger] entries.drop_first()[j]).0@
            != pair.0@) by {
            assert(forall|j: int| 0 <= j < entries.len() - 1 ==> #[trigger] entries.drop_first()[j]
                == entries[j + 1]);
        }
        lemma_diags_push(entries.drop_first(), pair, u);
    }
}

/// As `lemma_diags_update`, for the version table.
pub proof fn lemma_versions_update(
    entries: Seq<(String, u64)>,
    i: int,
    pair: (String, u64),
    u: Seq<char>,
)
    requires
        0 <= i < entries.len(),
        forall|j: int| 0 <= j < i ==> (#[trigger] entries[j]).0@ != pair.0@,
        entries[i].0@ == pair.0@,
    ensures
        pair.0@ == u ==> spec_version_at(entries.update(i, pair), u) == Some(pair.1),
        pair.0@ != u ==> spec_version_at(entries.update(i, pair), u) == spec_version_at(entries, u),
    decreases i,
{
    let upd = entries.update(i, pair);
    if i == 0 {
        assert(upd[0] == pair);
        if pair.0@ != u {
            assert(upd.drop_first() =~= entries.drop_first());
        }
    } else {
        assert(upd[0] == entries[0]);
        assert(upd.drop_first() =~= entries.drop_first().update(i - 1, pair));
        assert(forall|j: int| 0 <= j < i - 1 ==> (#[trigger] entries.drop_first()[j]).0@ != pair.0@)
            by {
            assert(forall|j: int| 0 <= j < i - 1 ==> #[trigger] entries.drop_first()[j] == entries[j
                + 1]);
        }
        lemma_versions_update(entries.drop_first(), i - 1, pair, u);
    }
}

/// As `lemma_diags_push`, for the version table.
pub proof fn lemma_versions_push(entries: Seq<(String, u64)>, pair: (String, u64), u: Seq<char>)
    requires
        forall|j: int| 0 <= j < entries.len() ==> (#[trigger] entries[j]).0@ != pair.0@,
    ensures
        pair.0@ == u ==> spec_version_at(entries.push(pair), u) == Some(pair.1),
        pair.0@ != u ==> spec_version_at(entries.push(pair), u) == spec_version_at(entries, u),
    decreases entries.len(),
{
    if entries.len() == 0 {
        assert(entries.push(pair)[0] == pair);
        if pair.0@ != u {
            assert(entries.push(pair).drop_first() =~= Seq::<(String, u64)>::empty());
            assert(spec_version_at(Seq::<(String, u64)>::empty(), u) is None);
        }
    } else {
        assert(entries.push(pair)[0] == entries[0]);
        assert(entries.push(pair).drop_first() =~= entries.drop_first().push(pair));
        assert(forall|j: int| 0 <= j < entries.len() - 1 ==> (#[trigger] entries.drop_first()[j]).0@
            != pair.0@) by {
            assert(forall|j: int| 0 <= j < entries.len() - 1 ==> #[trigger] entries.drop_first()[j]
                == entries[j + 1]);
        }
        lemma_versions_push(entries.drop_first(), pair, u);
    }
}


// ---------------------------------------------------------------------------
// Index search helpers
// ---------------------------------------------------------------------------

#[verifier::loop_isolation(false)]
fn diag_index(entries: &Vec<(String, Vec<LSPDiagnostic>)>, uri: &str) -> (r: Option<usize>)
    ensures
        match r {
            Some(i) => i < entries@.len() && entries@[i as int].0@ == uri@ && forall|j: int|
                0 <= j < i ==> (#[trigger] entries@[j]).0@ != uri@,
            None => forall|j: int| 0 <= j < entries@.len() ==> (#[trigger] entries@[j]).0@ != uri@,
        },
{
    let n = entries.len();
    let mut i: usize = 0;
    while i < n
        invariant
            0 <= i <= n,
            forall|j: int| 0 <= j < i ==> (#[trigger] entries@[j]).0@ != uri@,
        decreases n - i,
    {
        if str_eq(entries[i].0.as_str(), uri) {
            return Some(i);
        }
        i = i + 1;
    }
    None
}

#[verifier::loop_isolation(false)]
fn version_index(entries: &Vec<(String, u64)>, uri: &str) -> (r: Option<usize>)
    ensures
        match r {
            Some(i) => i < entries@.len() && entries@[i as int].0@ == uri@ && forall|j: int|
                0 <= j < i ==> (#[trigger] entries@[j]).0@ != uri@,
            None => forall|j: int| 0 <= j < entries@.len() ==> (#[trigger] entries@[j]).0@ != uri@,
        },
{
    let n = entries.len();
    let mut i: usize = 0;
    while i < n
        invariant
            0 <= i <= n,
            forall|j: int| 0 <= j < i ==> (#[trigger] entries@[j]).0@ != uri@,
        decreases n - i,
    {
        if str_eq(entries[i].0.as_str(), uri) {
            return Some(i);
        }
        i = i + 1;
    }
    None
}

#[verifier::loop_isolation(false)]
fn pending_index(entries: &Vec<u64>, id: u64) -> (r: Option<usize>)
    ensures
        match r {
            Some(i) => i < entries@.len() && entries@[i as int] == id,
            None => !entries@.contains(id),
        },
{
    let n = entries.len();
    let mut i: usize = 0;
    while i < n
        invariant
            0 <= i <= n,
            forall|j: int| 0 <= j < i ==> #[trigger] entries@[j] != id,
        decreases n - i,
    {
        if entries[i] == id {
            return Some(i);
        }
        i = i + 1;
    }
    None
}

/// Removing one index of a duplicate-free sequence removes exactly that
/// value's membership.
proof fn lemma_remove_contains(s: Seq<u64>, i: int, x: u64)
    requires
        0 <= i < s.len(),
        forall|p: int, q: int| 0 <= p < q < s.len() ==> #[trigger] s[p] != #[trigger] s[q],
    ensures
        x != s[i] ==> (s.remove(i).contains(x) == s.contains(x)),
        !s.remove(i).contains(s[i]),
{
    let r = s.remove(i);
    assert(forall|k: int| 0 <= k < i ==> #[trigger] r[k] == s[k]);
    assert(forall|k: int| i <= k < r.len() ==> #[trigger] r[k] == s[k + 1]);
    if x != s[i] {
        if s.contains(x) {
            let j = choose|j: int| 0 <= j < s.len() && s[j] == x;
            if j < i {
                assert(r[j] == x);
            } else {
                assert(r[j - 1] == x);
            }
            assert(r.contains(x));
        }
        if r.contains(x) {
            let k = choose|k: int| 0 <= k < r.len() && r[k] == x;
            if k < i {
                assert(s[k] == x);
            } else {
                assert(s[k + 1] == x);
            }
            assert(s.contains(x));
        }
    }
    if r.contains(s[i]) {
        let k = choose|k: int| 0 <= k < r.len() && r[k] == s[i];
        if k < i {
            assert(s[k] == s[i]);
            assert(false);
        } else {
            assert(s[k + 1] == s[i]);
            assert(false);
        }
    }
}

// ---------------------------------------------------------------------------
// Operations
// ---------------------------------------------------------------------------

/// What one incoming message did to the state.
pub enum Dispatch {
    /// A response matching an outstanding request: its id and its whole
    /// payload, for the caller waiting on that id.
    Delivered(u64, JsonValue),
    /// A response whose id is not outstanding (typically one that raced a
    /// timeout); it is dropped silently.
    Stale(u64),
    /// Fresh diagnostics were cached for this document.
    Diagnostics(String),
    /// Anything else: an unknown notification, a server-side request, or a
    /// malformed message.
    Ignored,
}

impl LSPServer {
    /// Both counters and caches stand still.
    pub open spec fn same_core(self, other: LSPServer) -> bool {
        &&& self.same_identity(other)
        &&& self.state == other.state
        &&& self.next_id == other.next_id
    }

    /// Allocates the next request id and marks it outstanding.
    fn fresh_request_id(&mut self) -> (id: u64)
        requires
            old(self).wf(),
            old(self).next_id < u64::MAX,
        ensures
            final(self).wf(),
            id == old(self).next_id,
            final(self).next_id == old(self).next_id + 1,
            final(self).pending@ == old(self).pending@.push(id),
            final(self).has_pending(id),
            final(self).same_identity(*old(self)),
            final(self).state == old(self).state,
            final(self).same_diagnostics(*old(self)),
            final(self).same_versions(*old(self)),
    {
        let id = self.next_id;
        self.next_id = self.next_id + 1;
        self.pending.push(id);
        proof {
            assert(final(self).pending@.last() == id);
            assert(forall|k: int| 0 <= k < old(self).pending@.len()
                ==> #[trigger] final(self).pending@[k] == old(self).pending@[k]);
            assert(final(self).pending@.contains(id));
        }
        id
    }

    /// Builds the framed `textDocument/completion` request for a position,
    /// allocating a fresh id and marking it outstanding.
    pub fn completion(&mut self, uri: &str, line: u32, character: u32) -> (r: (u64, Vec<u8>))
        requires
            old(self).wf(),
            old(self).next_id < u64::MAX,
        ensures
            final(self).wf(),
            r.0 == old(self).next_id,
            final(self).next_id == old(self).next_id + 1,
            final(self).pending@ == old(self).pending@.push(r.0),
            final(self).has_pending(r.0),
            r.1@ == frame_bytes(
                ser(
                    request_model(
                        r.0,
                        "textDocument/completion"@,
                        position_params_model(uri@, line, character, true),
                    ),
                ),
            ),
            final(self).same_identity(*old(self)),
            final(self).state == old(self).state,
            final(self).same_diagnostics(*old(self)),
            final(self).same_versions(*old(self)),
    {
        let id = self.fresh_request_id();
        let params = position_params(uri, line, character, true);
        let msg = request_value(id, "textDocument/completion", params);
        let frame = encode_frame(&msg);
        (id, frame)
    }

    /// Builds the framed `textDocument/hover` request for a position,
    /// allocating a fresh id and marking it outstanding.
    pub fn hover(&mut self, uri: &str, line: u32, character: u32) -> (r: (u64, Vec<u8>))
        requires
            old(self).wf(),
            old(self).next_id < u64::MAX,
        ensures
            final(self).wf(),
            r.0 == old(self).next_id,
            final(self).next_id == old(self).next_id + 1,
            final(self).pending@ == old(self).pending@.push(r.0),
            final(self).has_pending(r.0),
            r.1@ == frame_bytes(
                ser(
                    request_model(
                        r.0,
                        "textDocument/hover"@,
                        position_params_model(uri@, line, character, false),
                    ),
                ),
            ),
            final(self).same_identity(*old(self)),
            final(self).state == old(self).state,
            final(self).same_diagnostics(*old(self)),
            final(self).same_versions(*old(self)),
    {
        let id = self.fresh_request_id();
        let params = position_params(uri, line, character, false);
        let msg = request_value(id, "textDocument/hover", params);
        let frame = encode_frame(&msg);
        (id, frame)
    }

    /// Forgets an outstanding request whose caller stopped waiting. A late
    /// response then finds no entry and is dropped.
    pub fn cancel_pending(&mut self, id: u64)
        requires
            old(self).wf(),
        ensures
            final(self).wf(),
            !final(self).has_pending(id),
            forall|x: u64| x != id ==> final(self).has_pending(x) == old(self).has_pending(x),
            final(self).same_core(*old(self)),
            final(self).same_diagnostics(*old(self)),
            final(self).same_versions(*old(self)),
    {
        match pending_index(&self.pending, id) {
            Some(i) => {
                self.pending.remove(i);
                proof {
                    assert forall|x: u64| x != id implies final(self).has_pending(x) == old(self).has_pending(x) by {
                        lemma_remove_contains(old(self).pending@, i as int, x);
                    }
                    lemma_remove_contains(old(self).pending@, i as int, id);
                    assert forall|k: int| 0 <= k < final(self).pending@.len() implies 2 <= (
                    #[trigger] final(self).pending@[k]) < final(self).next_id by {
                        if k < i {
                            assert(final(self).pending@[k] == old(self).pending@[k]);
                        } else {
                            assert(final(self).pending@[k] == old(self).pending@[k + 1]);
                        }
                    }
                    assert forall|p: int, q: int|
                        0 <= p < q < final(self).pending@.len() implies #[trigger] final(self).pending@[p] != #[trigger] final(self).pending@[q] by {
                        let s = old(self).pending@;
                        let p2: int = if p < i { p } else { p + 1 };
                        let q2: int = if q < i { q } else { q + 1 };
                        assert(final(self).pending@[p] == s[p2]);
                        assert(final(self).pending@[q] == s[q2]);
                    }
                }
            },
            None => {},
        }
    }

    /// Opens a document: the version table seeds this uri at 1, and the
    /// framed `textDocument/didOpen` notification announces version 1.
    pub fn did_open(&mut self, uri: &str, language_id: &str, text: &str) -> (frame: Vec<u8>)
        requires
            old(self).wf(),
        ensures
            final(self).wf(),
            final(self).version_of(uri@) == Some(1u64),
            forall|u: Seq<char>| u != uri@ ==> final(self).version_of(u) == old(self).version_of(u),
            frame@ == frame_bytes(ser(did_open_model(uri@, language_id@, text@))),
            final(self).same_core(*old(self)),
            final(self).same_diagnostics(*old(self)),
            final(self).same_pending(*old(self)),
    {
        let key = uri.to_owned();
        match version_index(&self.doc_versions, uri) {
            Some(i) => {
                self.doc_versions[i] = (key, 1);
                proof {
                    assert forall|u: Seq<char>| true implies ({
                        &&& (u == uri@ ==> final(self).version_of(u) == Some(1u64))
                        &&& (u != uri@ ==> final(self).version_of(u) == old(self).version_of(u))
                    }) by {
                        lemma_versions_update(
                            old(self).doc_versions@,
                            i as int,
                            final(self).doc_versions@[i as int],
                            u,
                        );
                    }
                    assert forall|p: int, q: int|
                        0 <= p < q < final(self).doc_versions@.len() implies (#[trigger] final(self).doc_versions@[p]).0@ != (#[trigger] final(self).doc_versions@[q]).0@ by {
                        assert(old(self).doc_versions@[p].0@ != old(self).doc_versions@[q].0@);
                    }
                }
            },
            None => {
                self.doc_versions.push((key, 1));
                proof {
                    assert forall|u: Seq<char>| true implies ({
                        &&& (u == uri@ ==> final(self).version_of(u) == Some(1u64))
                        &&& (u != uri@ ==> final(self).version_of(u) == old(self).version_of(u))
                    }) by {
                        lemma_versions_push(
                            old(self).doc_versions@,
                            final(self).doc_versions@.last(),
                            u,
                        );
                    }
                    assert forall|p: int, q: int|
                        0 <= p < q < final(self).doc_versions@.len() implies (#[trigger] final(self).doc_versions@[p]).0@ != (#[trigger] final(self).doc_versions@[q]).0@ by {
                        if q < final(self).doc_versions@.len() - 1 {
                            assert(old(self).doc_versions@[p].0@ != old(self).doc_versions@[q].0@);
                        } else {
                            assert(old(self).doc_versions@[p].0@ != uri@);
                        }
                    }
                }
            },
        }
        did_open_frame(uri, language_id, text)
    }

    /// Announces a whole-document change. The version sent is the table's
    /// next for this uri: one past the last announced version, or 2 for a
    /// document never opened here (as if it had been opened at 1).
    pub fn did_change(&mut self, uri: &str, text: &str) -> (r: (Vec<u8>, u64))
        requires
            old(self).wf(),
            old(self).version_of(uri@) matches Some(v) ==> v < u64::MAX,
        ensures
            final(self).wf(),
            r.1 == match old(self).version_of(uri@) {
                Some(v) => v + 1,
                None => 2,
            },
            final(self).version_of(uri@) == Some(r.1),
            forall|u: Seq<char>| u != uri@ ==> final(self).version_of(u) == old(self).version_of(u),
            r.0@ == frame_bytes(ser(did_change_model(uri@, text@, r.1))),
            final(self).same_core(*old(self)),
            final(self).same_diagnostics(*old(self)),
            final(self).same_pending(*old(self)),
    {
        let key = uri.to_owned();
        let version: u64;
        match version_index(&self.doc_versions, uri) {
            Some(i) => {
                proof {
                    assert(old(self).version_of(uri@) == Some(old(self).doc_versions@[i as int].1))
                        by {
                        lemma_versions_update(
                            old(self).doc_versions@,
                            i as int,
                            old(self).doc_versions@[i as int],
                            uri@,
                        );
                        assert(old(self).doc_versions@.update(
                            i as int,
                            old(self).doc_versions@[i as int],
                        ) =~= old(self).doc_versions@);
                    }
                }
                version = self.doc_versions[i].1 + 1;
                self.doc_versions[i] = (key, version);
                proof {
                    assert forall|u: Seq<char>| true implies ({
                        &&& (u == uri@ ==> final(self).version_of(u) == Some(version))
                        &&& (u != uri@ ==> final(self).version_of(u) == old(self).version_of(u))
                    }) by {
                        lemma_versions_update(
                            old(self).doc_versions@,
                            i as int,
                            final(self).doc_versions@[i as int],
                            u,
                        );
                    }
                    assert forall|p: int, q: int|
                        0 <= p < q < final(self).doc_versions@.len() implies (#[trigger] final(self).doc_versions@[p]).0@ != (#[trigger] final(self).doc_versions@[q]).0@ by {
                        assert(old(self).doc_versions@[p].0@ != old(self).doc_versions@[q].0@);
                    }
                }
            },
            None => {
                version = 2;
                self.doc_versions.push((key, 2));
                proof {
                    lemma_versions_none(old(self).doc_versions@, uri@);
                    assert forall|u: Seq<char>| true implies ({
                        &&& (u == uri@ ==> final(self).version_of(u) == Some(version))
                        &&& (u != uri@ ==> final(self).version_of(u) == old(self).version_of(u))
                    }) by {
                        lemma_versions_push(
                            old(self).doc_versions@,
                            final(self).doc_versions@.last(),
                            u,
                        );
                    }
                    assert forall|p: int, q: int|
                        0 <= p < q < final(self).doc_versions@.len() implies (#[trigger] final(self).doc_versions@[p]).0@ != (#[trigger] final(self).doc_versions@[q]).0@ by {
                        if q < final(self).doc_versions@.len() - 1 {
                            assert(old(self).doc_versions@[p].0@ != old(self).doc_versions@[q].0@);
                        } else {
                            assert(old(self).doc_versions@[p].0@ != uri@);
                        }
                    }
                }
            },
        }
        (did_change_frame(uri, text, version), version)
    }

    /// Reads the cached diagnostics for a document, if any were published.
    pub fn get_diagnostics(&self, uri: &str) -> (r: Option<Vec<LSPDiagnostic>>)
        ensures
            match r {
                Some(v) => self.diags_of(uri@) == Some(diags_view(v@)),
                None => self.diags_of(uri@) is None,
            },
    {
        match diag_index(&self.diagnostics, uri) {
            Some(i) => {
                proof {
                    lemma_diags_found(self.diagnostics@, i as int, uri@);
                }
                Some(clone_diags(&self.diagnostics[i].1))
            },
            None => {
                proof {
                    lemma_diags_none(self.diagnostics@, uri@);
                }
                None
            },
        }
    }
}

/// Lookup at a found first index.
proof fn lemma_diags_found(entries: Seq<(String, Vec<LSPDiagnostic>)>, i: int, u: Seq<char>)
    requires
        0 <= i < entries.len(),
        entries[i].0@ == u,
        forall|j: int| 0 <= j < i ==> (#[trigger] entries[j]).0@ != u,
    ensures
        spec_diags_at(entries, u) == Some(diags_view(entries[i].1@)),
    decreases i,
{
    if i > 0 {
        assert(forall|j: int| 0 <= j < i - 1 ==> (#[trigger] entries.drop_first()[j]).0@ != u) by {
            assert(forall|j: int| 0 <= j < i - 1 ==> #[trigger] entries.drop_first()[j] == entries[j
                + 1]);
        }
        assert(entries.drop_first()[i - 1] == entries[i]);
        lemma_diags_found(entries.drop_first(), i - 1, u);
    }
}

/// Lookup misses when no entry holds the key.
proof fn lemma_diags_none(entries: Seq<(String, Vec<LSPDiagnostic>)>, u: Seq<char>)
    requires
        forall|j: int| 0 <= j < entries.len() ==> (#[trigger] entries[j]).0@ != u,
    ensures
        spec_diags_at(entries, u) is None,
    decreases entries.len(),
{
    if entries.len() > 0 {
        assert(forall|j: int| 0 <= j < entries.len() - 1 ==> (#[trigger] entries.drop_first()[j]).0@
            != u) by {
            assert(forall|j: int| 0 <= j < entries.len() - 1 ==> #[trigger] entries.drop_first()[j]
                == entries[j + 1]);
        }
        lemma_diags_none(entries.drop_first(), u);
    }
}

/// As `lemma_diags_none`, for the version table.
proof fn lemma_versions_none(entries: Seq<(String, u64)>, u: Seq<char>)
    requires
        forall|j: int| 0 <= j < entries.len() ==> (#[trigger] entries[j]).0@ != u,
    ensures
        spec_version_at(entries, u) is None,
    decreases entries.len(),
{
    if entries.len() > 0 {
        assert(forall|j: int| 0 <= j < entries.len() - 1 ==> (#[trigger] entries.drop_first()[j]).0@
            != u) by {
            assert(forall|j: int| 0 <= j < entries.len() - 1 ==> #[trigger] entries.drop_first()[j]
                == entries[j + 1]);
        }
        lemma_versions_none(entries.drop_first(), u);
    }
}

/// The framed `textDocument/didOpen` notification.
fn did_open_frame(uri: &str, language_id: &str, text: &str) -> (frame: Vec<u8>)
    ensures
        frame@ == frame_bytes(ser(did_open_model(uri@, language_id@, text@))),
{
    let msg = did_open_value(uri, language_id, text);
    encode_frame(&msg)
}

/// The framed `textDocument/didChange` notification.
fn did_change_frame(uri: &str, text: &str, version: u64) -> (frame: Vec<u8>)
    ensures
        frame@ == frame_bytes(ser(did_change_model(uri@, text@, version))),
{
    let msg = did_change_value(uri, text, version);
    encode_frame(&msg)
}


// ---------------------------------------------------------------------------
// Incoming traffic
// ---------------------------------------------------------------------------

/// What a `textDocument/publishDiagnostics` parameter object denotes: the
/// document uri and the full replacement list, where both fields are of the
/// right shape.
pub open spec fn spec_publish(params: JsonModel) -> Option<(Seq<char>, Seq<DiagV>)> {
    match (spec_get(params, "uri"@), spec_get(params, "diagnostics"@)) {
        (Some(JsonModel::Str(u)), Some(JsonModel::Arr(es))) => Some((u, spec_diag_items(es))),
        _ => None,
    }
}

impl LSPServer {
    /// Replaces the cached diagnostics for one document.
    fn store_diagnostics(&mut self, uri: &str, list: Vec<LSPDiagnostic>)
        requires
            old(self).wf(),
        ensures
            final(self).wf(),
            final(self).diags_of(uri@) == Some(diags_view(list@)),
            forall|u: Seq<char>| u != uri@ ==> final(self).diags_of(u) == old(self).diags_of(u),
            final(self).same_core(*old(self)),
            final(self).same_pending(*old(self)),
            final(self).same_versions(*old(self)),
    {
        let key = uri.to_owned();
        match diag_index(&self.diagnostics, uri) {
            Some(i) => {
                self.diagnostics[i] = (key, list);
                proof {
                    assert forall|u: Seq<char>| true implies ({
                        &&& (u == uri@ ==> final(self).diags_of(u) == Some(
                            diags_view(final(self).diagnostics@[i as int].1@),
                        ))
                        &&& (u != uri@ ==> final(self).diags_of(u) == old(self).diags_of(u))
                    }) by {
                        lemma_diags_update(
                            old(self).diagnostics@,
                            i as int,
                            final(self).diagnostics@[i as int],
                            u,
                        );
                    }
                    assert forall|p: int, q: int|
                        0 <= p < q < final(self).diagnostics@.len() implies (#[trigger] final(self).diagnostics@[p]).0@ != (#[trigger] final(self).diagnostics@[q]).0@ by {
                        assert(old(self).diagnostics@[p].0@ != old(self).diagnostics@[q].0@);
                    }
                }
            },
            None => {
                self.diagnostics.push((key, list));
                proof {
                    assert forall|u: Seq<char>| true implies ({
                        &&& (u == uri@ ==> final(self).diags_of(u) == Some(
                            diags_view(final(self).diagnostics@.last().1@),
                        ))
                        &&& (u != uri@ ==> final(self).diags_of(u) == old(self).diags_of(u))
                    }) by {
                        lemma_diags_push(
                            old(self).diagnostics@,
                            final(self).diagnostics@.last(),
                            u,
                        );
                    }
                    assert forall|p: int, q: int|
                        0 <= p < q < final(self).diagnostics@.len() implies (#[trigger] final(self).diagnostics@[p]).0@ != (#[trigger] final(self).diagnostics@[q]).0@ by {
                        if q < final(self).diagnostics@.len() - 1 {
                            assert(old(self).diagnostics@[p].0@ != old(self).diagnostics@[q].0@);
                        } else {
                            assert(old(self).diagnostics@[p].0@ != uri@);
                        }
                    }
                }
            },
        }
    }

    /// Handles the parameters of one `publishDiagnostics` notification:
    /// where they carry a uri and a diagnostics array, the cache entry for
    /// that uri is replaced wholesale; otherwise nothing changes.
    fn handle_diagnostics(&mut self, params: &JsonValue) -> (d: Dispatch)
        requires
            old(self).wf(),
        ensures
            final(self).wf(),
            final(self).same_core(*old(self)),
            final(self).same_pending(*old(self)),
            final(self).same_versions(*old(self)),
            match spec_publish(jmodel(*params)) {
                Some((uri, ds)) => {
                    &&& d matches Dispatch::Diagnostics(u) && u@ == uri
                    &&& final(self).diags_of(uri) == Some(ds)
                    &&& forall|u2: Seq<char>| u2 != uri ==> final(self).diags_of(u2) == old(self).diags_of(u2)
                },
                None => d is Ignored && final(self).same_diagnostics(*old(self)),
            },
    {
        let uri_field = obj_get(params, "uri");
        let uri: Option<String> = match uri_field {
            Some(JsonValue::Str(s)) => Some(s.clone()),
            _ => None,
        };
        match uri {
            Some(u) => {
                match obj_get(params, "diagnostics") {
                    Some(JsonValue::Arr(items)) => {
                        let list = parse_diagnostics_array(items);
                        self.store_diagnostics(u.as_str(), list);
                        Dispatch::Diagnostics(u)
                    },
                    _ => Dispatch::Ignored,
                }
            },
            None => Dispatch::Ignored,
        }
    }

    /// Dispatches one decoded incoming message.
    ///
    /// A response whose id is outstanding is delivered whole and its entry
    /// evicted; one whose id is not outstanding is reported stale and
    /// dropped without any change. A `publishDiagnostics` notification
    /// replaces that document's cache entry. Everything else is ignored
    /// untouched.
    pub fn process_message(&mut self, msg: JsonValue) -> (d: Dispatch)
        requires
            old(self).wf(),
        ensures
            final(self).wf(),
            final(self).same_core(*old(self)),
            match spec_classify(jmodel(msg)) {
                SpecIncoming::Response(id, m) => {
                    &&& final(self).same_diagnostics(*old(self))
                    &&& final(self).same_versions(*old(self))
                    &&& old(self).has_pending(id) ==> {
                        &&& d matches Dispatch::Delivered(rid, payload) && rid == id && jmodel(
                            payload,
                        ) == m
                        &&& !final(self).has_pending(id)
                        &&& forall|x: u64|
                            x != id ==> final(self).has_pending(x) == old(self).has_pending(x)
                    }
                    &&& !old(self).has_pending(id) ==> d == Dispatch::Stale(id) && final(self).same_pending(*old(self))
                },
                SpecIncoming::Notification(mth, params) => {
                    &&& final(self).same_pending(*old(self))
                    &&& final(self).same_versions(*old(self))
                    &&& if mth == "textDocument/publishDiagnostics"@ {
                        match spec_publish(params) {
                            Some((uri, ds)) => {
                                &&& d matches Dispatch::Diagnostics(u) && u@ == uri
                                &&& final(self).diags_of(uri) == Some(ds)
                                &&& forall|u2: Seq<char>|
                                    u2 != uri ==> final(self).diags_of(u2) == old(self).diags_of(u2)
                            },
                            None => d is Ignored && final(self).same_diagnostics(*old(self)),
                        }
                    } else {
                        d is Ignored && final(self).same_diagnostics(*old(self))
                    }
                },
                SpecIncoming::Other => {
                    &&& d is Ignored
                    &&& final(self).same_pending(*old(self))
                    &&& final(self).same_diagnostics(*old(self))
                    &&& final(self).same_versions(*old(self))
                },
            },
    {
        let method_is_str: bool = match obj_get(&msg, "method") {
            Some(JsonValue::Str(_)) => true,
            _ => false,
        };
        let has_method: bool = match obj_get(&msg, "method") {
            Some(_) => true,
            None => false,
        };
        let has_id: bool = match obj_get(&msg, "id") {
            Some(_) => true,
            None => false,
        };
        if method_is_str && !has_id {
            let is_publish: bool = match obj_get(&msg, "method") {
                Some(JsonValue::Str(mth)) => str_eq(mth.as_str(), "textDocument/publishDiagnostics"),
                _ => false,
            };
            if is_publish {
                match obj_get(&msg, "params") {
                    Some(params) => {
                        let params_copy = crate::json::clone_value(params);
                        self.handle_diagnostics(&params_copy)
                    },
                    None => Dispatch::Ignored,
                }
            } else {
                Dispatch::Ignored
            }
        } else if !has_method && has_id {
            let id_val: Option<u64> = match obj_get(&msg, "id") {
                Some(idv) => json_as_u64(idv),
                None => None,
            };
            match id_val {
                Some(id) => {
                    match pending_index(&self.pending, id) {
                        Some(i) => {
                            self.pending.remove(i);
                            proof {
                                assert forall|x: u64| x != id implies final(self).has_pending(x)
                                    == old(self).has_pending(x) by {
                                    lemma_remove_contains(old(self).pending@, i as int, x);
                                }
                                lemma_remove_contains(old(self).pending@, i as int, id);
                                assert forall|k: int|
                                    0 <= k < final(self).pending@.len() implies 2 <= (
                                #[trigger] final(self).pending@[k]) < final(self).next_id by {
                                    if k < i {
                                        assert(final(self).pending@[k] == old(self).pending@[k]);
                                    } else {
                                        assert(final(self).pending@[k] == old(self).pending@[k
                                            + 1]);
                                    }
                                }
                                assert forall|p: int, q: int|
                                    0 <= p < q < final(self).pending@.len() implies #[trigger] final(self).pending@[p] != #[trigger] final(self).pending@[q] by {
                                    let s = old(self).pending@;
                                    let p2: int = if p < i { p } else { p + 1 };
                                    let q2: int = if q < i { q } else { q + 1 };
                                    assert(final(self).pending@[p] == s[p2]);
                                    assert(final(self).pending@[q] == s[q2]);
                                }
                            }
                            Dispatch::Delivered(id, msg)
                        },
                        None => Dispatch::Stale(id),
                    }
                },
                None => Dispatch::Ignored,
            }
        } else {
            Dispatch::Ignored
        }
    }

    // -----------------------------------------------------------------------
    // Lifecycle
    // -----------------------------------------------------------------------

    /// Brings a fresh server up: the returned bytes are the framed
    /// `initialize` request (id 1) followed by the framed `initialized`
    /// notification, to be written to the spawned process before any other
    /// traffic. The state is `Starting` until the caller has written the
    /// frames and reports `mark_running`.
    pub fn start(&mut self, pid: u64, workspace_root: &str, folder_name: &str) -> (frames: Vec<u8>)
        requires
            old(self).wf(),
            old(self).state == ServerLifecycle::NotStarted,
        ensures
            final(self).wf(),
            final(self).state == ServerLifecycle::Starting,
            final(self).next_id == old(self).next_id,
            final(self).same_identity(*old(self)),
            final(self).same_pending(*old(self)),
            final(self).same_diagnostics(*old(self)),
            final(self).same_versions(*old(self)),
            exists|m: JsonModel|
                #[trigger] is_initialize_payload(m, pid, workspace_root@, folder_name@)
                    && crate::json::wf_model(m) && frames@ == frame_bytes(ser(m)) + frame_bytes(
                    ser(notification_model("initialized"@, JsonModel::Obj(Seq::empty()))),
                ),
    {
        self.state = ServerLifecycle::Starting;
        let init = initialize_request(pid, workspace_root, folder_name);
        let mut frames = encode_frame(&init);
        let inited = initialized_notification();
        let mut second = encode_frame(&inited);
        frames.append(&mut second);
        proof {
            assert(is_initialize_payload(jmodel(init), pid, workspace_root@, folder_name@));
            assert(frames@ == frame_bytes(ser(jmodel(init))) + frame_bytes(
                ser(notification_model("initialized"@, JsonModel::Obj(Seq::empty()))),
            ));
        }
        frames
    }

    /// Records that the start frames went out: the client is running, and
    /// does not wait for the `initialize` response before allowing other
    /// traffic.
    pub fn mark_running(&mut self)
        requires
            old(self).wf(),
            old(self).state == ServerLifecycle::Starting,
        ensures
            final(self).wf(),
            final(self).state == ServerLifecycle::Running,
            final(self).next_id == old(self).next_id,
            final(self).same_identity(*old(self)),
            final(self).same_pending(*old(self)),
            final(self).same_diagnostics(*old(self)),
            final(self).same_versions(*old(self)),
    {
        self.state = ServerLifecycle::Running;
    }

    /// Asks the process to stop: the framed `shutdown` request on the
    /// reserved id 999, then the framed bare `exit` notification. The
    /// caller kills the process afterwards and reports `terminated`.
    pub fn shutdown(&mut self) -> (frames: Vec<u8>)
        requires
            old(self).wf(),
        ensures
            final(self).wf(),
            final(self).state == ServerLifecycle::ShuttingDown,
            final(self).next_id == old(self).next_id,
            final(self).same_identity(*old(self)),
            final(self).same_pending(*old(self)),
            final(self).same_diagnostics(*old(self)),
            final(self).same_versions(*old(self)),
            frames@ == frame_bytes(ser(request_model(999, "shutdown"@, JsonModel::Null)))
                + frame_bytes(ser(exit_model())),
    {
        self.state = ServerLifecycle::ShuttingDown;
        let req = shutdown_request();
        let mut frames = encode_frame(&req);
        let exit = exit_notification();
        let mut second = encode_frame(&exit);
        frames.append(&mut second);
        frames
    }

    /// Records that the process is gone. Outstanding requests are
    /// abandoned (their waiters are time-bounded), and the caches die with
    /// the process.
    pub fn terminated(&mut self)
        requires
            old(self).wf(),
        ensures
            final(self).wf(),
            final(self).state == ServerLifecycle::Terminated,
            final(self).next_id == old(self).next_id,
            final(self).same_identity(*old(self)),
            final(self).pending@.len() == 0,
            final(self).diagnostics@.len() == 0,
            final(self).doc_versions@.len() == 0,
    {
        self.state = ServerLifecycle::Terminated;
        self.pending.clear();
        self.diagnostics.clear();
        self.doc_versions.clear();
    }
}

// ---------------------------------------------------------------------------
// Laws
// ---------------------------------------------------------------------------

/// The transition `fresh_request_id` (and so `completion` and `hover`)
/// makes on the counter.
pub open spec fn allocates(pre: LSPServer, post: LSPServer, id: u64) -> bool {
    &&& id == pre.next_id
    &&& post.next_id == pre.next_id + 1
}

/// Request ids are never reused within a process's lifetime: between one
/// allocation and a later one the counter never shrinks — every operation
/// here either leaves `next_id` alone or raises it — so the later id is
/// strictly larger. A restarted language comes as a fresh `LSPServer`
/// whose own counter starts again at 2, with its own lifetime.
pub proof fn lemma_request_ids_never_reused(
    s0: LSPServer,
    s1: LSPServer,
    id1: u64,
    s2: LSPServer,
    s3: LSPServer,
    id2: u64,
)
    requires
        allocates(s0, s1, id1),
        allocates(s2, s3, id2),
        s2.next_id >= s1.next_id,
    ensures
        id2 > id1,
{
}

/// The change a diagnostics publication makes: this uri's entry replaced,
/// all others untouched.
pub open spec fn publishes(pre: LSPServer, post: LSPServer, uri: Seq<char>, ds: Seq<DiagV>) -> bool {
    &&& post.diags_of(uri) == Some(ds)
    &&& forall|u: Seq<char>| u != uri ==> post.diags_of(u) == pre.diags_of(u)
}

/// Publishing replaces, never merges: after publishing one list and then
/// another for the same uri, exactly the second list is cached — nothing
/// of the first survives.
pub proof fn lemma_diagnostics_replace(
    s0: LSPServer,
    s1: LSPServer,
    s2: LSPServer,
    uri: Seq<char>,
    first: Seq<DiagV>,
    second: Seq<DiagV>,
)
    requires
        publishes(s0, s1, uri, first),
        publishes(s1, s2, uri, second),
    ensures
        s2.diags_of(uri) == Some(second),
{
}

/// The transition `did_open` makes on the version table.
pub open spec fn opens(pre: LSPServer, post: LSPServer, uri: Seq<char>) -> bool {
    &&& post.version_of(uri) == Some(1u64)
    &&& forall|u: Seq<char>| u != uri ==> post.version_of(u) == pre.version_of(u)
}

/// The transition `did_change` makes: the version announced is one past
/// the table's last for this uri.
pub open spec fn changes(pre: LSPServer, post: LSPServer, uri: Seq<char>, v: u64) -> bool {
    &&& v == match pre.version_of(uri) {
        Some(x) => x + 1,
        None => 2,
    }
    &&& post.version_of(uri) == Some(v)
    &&& forall|u: Seq<char>| u != uri ==> post.version_of(u) == pre.version_of(u)
}

/// Version monotonicity: opening a document announces version 1, and three
/// changes in a row announce 2, 3 and 4, in that order.
pub proof fn lemma_version_sequence(
    s0: LSPServer,
    s1: LSPServer,
    s2: LSPServer,
    s3: LSPServer,
    s4: LSPServer,
    uri: Seq<char>,
    v2: u64,
    v3: u64,
    v4: u64,
)
    requires
        opens(s0, s1, uri),
        changes(s1, s2, uri, v2),
        changes(s2, s3, uri, v3),
        changes(s3, s4, uri, v4),
    ensures
        s1.version_of(uri) == Some(1u64),
        v2 == 2 && v3 == 3 && v4 == 4,
{
}

} // verus!
