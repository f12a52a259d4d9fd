//! The server pool: a static table from language to server configuration,
//! and the running servers, one per language. Operations forward to the
//! matching server; a language with no server is a quiet no-op — editing
//! works without language tooling, and lookups return nothing rather than
//! failing.

use vstd::prelude::*;
use crate::json::{ser, str_eq, JsonModel};
use crate::lsp_types::{diags_view, strings_view, LSPDiagnostic};
use crate::rpc::{did_change_model, did_open_model, exit_model, position_params_model, request_model};
use crate::server::LSPServer;
use crate::frame::frame_bytes;
use vstd::string::StringExecFns;

verus! {

/// How to launch the analysis process for one language, and which file
/// extensions it serves.
#[derive(Debug)]
pub struct LSPConfig {
    pub command: String,
    pub args: Vec<String>,
    pub file_extensions: Vec<String>,
}

/// First-match lookup of a configuration.
pub open spec fn spec_config_at(entries: Seq<(String, LSPConfig)>, lang: Seq<char>) -> Option<
    LSPConfig,
>
    decreases entries.len(),
{
    if entries.len() == 0 {
        None
    } else if entries[0].0@ == lang {
        Some(entries[0].1)
    } else {
        spec_config_at(entries.drop_first(), lang)
    }
}

/// First-match lookup of a running server.
pub open spec fn spec_server_at(entries: Seq<(String, LSPServer)>, lang: Seq<char>) -> Option<
    LSPServer,
>
    decreases entries.len(),
{
    if entries.len() == 0 {
        None
    } else if entries[0].0@ == lang {
        Some(entries[0].1)
    } else {
        spec_server_at(entries.drop_first(), lang)
    }
}

proof fn lemma_server_found(entries: Seq<(String, LSPServer)>, i: int, lang: Seq<char>)
    requires
        0 <= i < entries.len(),
        entries[i].0@ == lang,
        forall|j: int| 0 <= j < i ==> (#[trigger] entries[j]).0@ != lang,
    ensures
        spec_server_at(entries, lang) == Some(entries[i].1),
    decreases i,
{
    if i > 0 {
        assert(forall|j: int| 0 <= j < i - 1 ==> (#[trigger] entries.drop_first()[j]).0@ != lang)
            by {
            assert(forall|j: int| 0 <= j < i - 1 ==> #[trigger] entries.drop_first()[j] == entries[j
                + 1]);
        }
        assert(entries.drop_first()[i - 1] == entries[i]);
        lemma_server_found(entries.drop_first(), i - 1, lang);
    }
}

proof fn lemma_server_none(entries: Seq<(String, LSPServer)>, lang: Seq<char>)
    requires
        forall|j: int| 0 <= j < entries.len() ==> (#[trigger] entries[j]).0@ != lang,
    ensures
        spec_server_at(entries, lang) is None,
    decreases entries.len(),
{
    if entries.len() > 0 {
        assert(forall|j: int| 0 <= j < entries.len() - 1 ==> (#[trigger] entries.drop_first()[j]).0@
            != lang) by {
            assert(forall|j: int| 0 <= j < entries.len() - 1 ==> #[trigger] entries.drop_first()[j]
                == entries[j + 1]);
        }
        lemma_server_none(entries.drop_first(), lang);
    }
}

proof fn lemma_server_update(
    entries: Seq<(String, LSPServer)>,
    i: int,
    pair: (String, LSPServer),
    lang: Seq<char>,
)
    requires
        0 <= i < entries.len(),
        forall|j: int| 0 <= j < i ==> (#[trigger] entries[j]).0@ != pair.0@,
        entries[i].0@ == pair.0@,
    ensures
        pair.0@ == lang ==> spec_server_at(entries.update(i, pair), lang) == Some(pair.1),
        pair.0@ != lang ==> spec_server_at(entries.update(i, pair), lang) == spec_server_at(
            entries,
            lang,
        ),
    decreases i,
{
    let upd = entries.update(i, pair);
    if i == 0 {
        assert(upd[0] == pair);
        if pair.0@ != lang {
            assert(upd.drop_first() =~= entries.drop_first());
        }
    } else {
        assert(upd[0] == entries[0]);
        assert(upd.drop_first() =~= entries.drop_first().update(i - 1, pair));
        assert(forall|j: int| 0 <= j < i - 1 ==> (#[trigger] entries.drop_first()[j]).0@ != pair.0@)
            by {
            assert(forall|j: int| 0 <= j < i - 1 ==> #[trigger] entries.drop_first()[j] == entries[j
                + 1]);
        }
        lemma_server_update(entries.drop_first(), i - 1, pair, lang);
    }
}

proof fn lemma_server_push(
    entries: Seq<(String, LSPServer)>,
    pair: (String, LSPServer),
    lang: Seq<char>,
)
    requires
        forall|j: int| 0 <= j < entries.len() ==> (#[trigger] entries[j]).0@ != pair.0@,
    ensures
        pair.0@ == lang ==> spec_server_at(entries.push(pair), lang) == Some(pair.1),
        pair.0@ != lang ==> spec_server_at(entries.push(pair), lang) == spec_server_at(
            entries,
            lang,
        ),
    decreases entries.len(),
{
    if entries.len() == 0 {
        assert(entries.push(pair)[0] == pair);
        if pair.0@ != lang {
            assert(entries.push(pair).drop_first() =~= Seq::<(String, LSPServer)>::empty());
            assert(spec_server_at(Seq::<(String, LSPServer)>::empty(), lang) is None);
        }
    } else {
        assert(entries.push(pair)[0] == entries[0]);
        assert(entries.push(pair).drop_first() =~= entries.drop_first().push(pair));
        assert(forall|j: int| 0 <= j < entries.len() - 1 ==> (#[trigger] entries.drop_first()[j]).0@
            != pair.0@) by {
            assert(forall|j: int| 0 <= j < entries.len() - 1 ==> #[trigger] entries.drop_first()[j]
                == entries[j + 1]);
        }
        lemma_server_push(entries.drop_first(), pair, lang);
    }
}

/// The pool of language servers and their launch table.
pub struct LSPManager {
    pub language_configs: Vec<(String, LSPConfig)>,
    pub servers: Vec<(String, LSPServer)>,
}

/// What `ensure_server` decides: nothing to do, no tooling configured, or
/// the command and arguments to launch.
pub enum StartPlan {
    AlreadyPresent,
    NoConfig,
    Launch(String, Vec<String>),
}

impl LSPManager {
    pub open spec fn config_of(self, lang: Seq<char>) -> Option<LSPConfig> {
        spec_config_at(self.language_configs@, lang)
    }

    pub open spec fn server_of(self, lang: Seq<char>) -> Option<LSPServer> {
        spec_server_at(self.servers@, lang)
    }

    pub open spec fn has_server(self, lang: Seq<char>) -> bool {
        self.server_of(lang) is Some
    }

    pub open spec fn wf(self) -> bool {
        &&& forall|i: int, j: int|
            0 <= i < j < self.servers@.len() ==> (#[trigger] self.servers@[i]).0@ != (
            #[trigger] self.servers@[j]).0@
        &&& forall|i: int| 0 <= i < self.servers@.len() ==> (#[trigger] self.servers@[i]).1.wf()
    }
}

#[verifier::loop_isolation(false)]
fn server_index(entries: &Vec<(String, LSPServer)>, lang: &str) -> (r: Option<usize>)
    ensures
        match r {
            Some(i) => i < entries@.len() && entries@[i as int].0@ == lang@ && forall|j: int|
                0 <= j < i ==> (#[trigger] entries@[j]).0@ != lang@,
            None => forall|j: int| 0 <= j < entries@.len() ==> (#[trigger] entries@[j]).0@ != lang@,
        },
{
    let n = entries.len();
    let mut i: usize = 0;
    while i < n
        invariant
            0 <= i <= n,
            forall|j: int| 0 <= j < i ==> (#[trigger] entries@[j]).0@ != lang@,
        decreases n - i,
    {
        if str_eq(entries[i].0.as_str(), lang) {
            return Some(i);
        }
        i = i + 1;
    }
    None
}

/// A copy of a string list with the same view.
#[verifier::loop_isolation(false)]
pub fn clone_strings(v: &Vec<String>) -> (r: Vec<String>)
    ensures
        strings_view(r@) == strings_view(v@),
{
    let mut out: Vec<String> = Vec::new();
    proof {
        assert(strings_view(out@) =~= strings_view(v@).take(0));
    }
    let n = v.len();
    let mut i: usize = 0;
    while i < n
        invariant
            0 <= i <= n,
            n == v@.len(),
            strings_view(out@) == strings_view(v@).take(i as int),
        decreases n - i,
    {
        let c = v[i].clone();
        let ghost outg = out@;
        out.push(c);
        proof {
            assert(out@.drop_last() =~= outg);
            assert(strings_view(out@) =~= strings_view(outg).push(out@.last()@));
            assert(strings_view(v@).take(i + 1) =~= strings_view(v@).take(i as int).push(
                v@[i as int]@,
            ));
        }
        i = i + 1;
    }
    proof {
        assert(strings_view(v@).take(n as int) =~= strings_view(v@));
    }
    out
}

impl LSPManager {
    /// Decides what starting a server for this language takes. Idempotent:
    /// with a server already pooled there is nothing to do; with no
    /// configuration the language stays without tooling; otherwise the
    /// configured command and arguments are handed back for launching.
    pub fn ensure_server(&self, language: &str) -> (p: StartPlan)
        ensures
            self.has_server(language@) ==> p is AlreadyPresent,
            !self.has_server(language@) ==> match self.config_of(language@) {
                Some(c) => p matches StartPlan::Launch(cmd, args) && cmd@ == c.command@
                    && strings_view(args@) == strings_view(c.args@),
                None => p is NoConfig,
            },
    {
        match server_index(&self.servers, language) {
            Some(i) => {
                proof {
                    lemma_server_found(self.servers@, i as int, language@);
                }
                StartPlan::AlreadyPresent
            },
            None => {
                proof {
                    lemma_server_none(self.servers@, language@);
                }
                match config_index(&self.language_configs, language) {
                    Some(ci) => {
                        proof {
                            lemma_config_found(self.language_configs@, ci as int, language@);
                        }
                        let cmd = self.language_configs[ci].1.command.clone();
                        let args = clone_strings(&self.language_configs[ci].1.args);
                        StartPlan::Launch(cmd, args)
                    },
                    None => {
                        proof {
                            lemma_config_none(self.language_configs@, language@);
                        }
                        StartPlan::NoConfig
                    },
                }
            },
        }
    }

    /// Pools a freshly started server under its language. The caller has
    /// spawned the process and written the server's start frames; a
    /// language whose spawn failed is simply never registered.
    pub fn register_server(&mut self, server: LSPServer)
        requires
            old(self).wf(),
            server.wf(),
            !old(self).has_server(server.language@),
        ensures
            final(self).wf(),
            final(self).servers@ == old(self).servers@.push(
                (final(self).servers@.last().0, server),
            ),
            final(self).servers@.last().0@ == server.language@,
            final(self).server_of(server.language@) == Some(server),
            forall|l: Seq<char>| l != server.language@ ==> final(self).server_of(l) == old(
                self,
            ).server_of(l),
            final(self).language_configs@ == old(self).language_configs@,
    {
        let key = server.language.clone();
        proof {
            if exists|j: int| 0 <= j < old(self).servers@.len() && (#[trigger] old(
                self,
            ).servers@[j]).0@ == server.language@ {
                let j = choose|j: int| 0 <= j < old(self).servers@.len() && (#[trigger] old(
                    self,
                ).servers@[j]).0@ == server.language@;
                lemma_server_found_weak(old(self).servers@, server.language@);
                assert(false);
            }
        }
        self.servers.push((key, server));
        proof {
            assert forall|l: Seq<char>| true implies ({
                &&& (l == server.language@ ==> final(self).server_of(l) == Some(server))
                &&& (l != server.language@ ==> final(self).server_of(l) == old(self).server_of(l))
            }) by {
                lemma_server_push(old(self).servers@, final(self).servers@.last(), l);
            }
            assert forall|p: int, q: int|
                0 <= p < q < final(self).servers@.len() implies (#[trigger] final(self).servers@[p]).0@ != (#[trigger] final(self).servers@[q]).0@ by {
                if q < final(self).servers@.len() - 1 {
                    assert(old(self).servers@[p].0@ != old(self).servers@[q].0@);
                } else {
                    assert(old(self).servers@[p].0@ != server.language@);
                }
            }
        }
    }
}

/// Some entry bears the key, so lookup finds one.
proof fn lemma_server_found_weak(entries: Seq<(String, LSPServer)>, lang: Seq<char>)
    requires
        exists|j: int| 0 <= j < entries.len() && (#[trigger] entries[j]).0@ == lang,
    ensures
        spec_server_at(entries, lang) is Some,
    decreases entries.len(),
{
    if entries.len() > 0 && entries[0].0@ != lang {
        let j = choose|j: int| 0 <= j < entries.len() && (#[trigger] entries[j]).0@ == lang;
        assert(entries.drop_first()[j - 1] == entries[j]);
        lemma_server_found_weak(entries.drop_first(), lang);
    }
}

proof fn lemma_config_found(entries: Seq<(String, LSPConfig)>, i: int, lang: Seq<char>)
    requires
        0 <= i < entries.len(),
        entries[i].0@ == lang,
        forall|j: int| 0 <= j < i ==> (#[trigger] entries[j]).0@ != lang,
    ensures
        spec_config_at(entries, lang) == Some(entries[i].1),
    decreases i,
{
    if i > 0 {
        assert(forall|j: int| 0 <= j < i - 1 ==> (#[trigger] entries.drop_first()[j]).0@ != lang)
            by {
            assert(forall|j: int| 0 <= j < i - 1 ==> #[trigger] entries.drop_first()[j] == entries[j
                + 1]);
        }
        assert(entries.drop_first()[i - 1] == entries[i]);
        lemma_config_found(entries.drop_first(), i - 1, lang);
    }
}

proof fn lemma_config_none(entries: Seq<(String, LSPConfig)>, lang: Seq<char>)
    requires
        forall|j: int| 0 <= j < entries.len() ==> (#[trigger] entries[j]).0@ != lang,
    ensures
        spec_config_at(entries, lang) is None,
    decreases entries.len(),
{
    if entries.len() > 0 {
        assert(forall|j: int| 0 <= j < entries.len() - 1 ==> (#[trigger] entries.drop_first()[j]).0@
            != lang) by {
            assert(forall|j: int| 0 <= j < entries.len() - 1 ==> #[trigger] entries.drop_first()[j]
                == entries[j + 1]);
        }
        lemma_config_none(entries.drop_first(), lang);
    }
}

#[verifier::loop_isolation(false)]
fn config_index(entries: &Vec<(String, LSPConfig)>, lang: &str) -> (r: Option<usize>)
    ensures
        match r {
            Some(i) => i < entries@.len() && entries@[i as int].0@ == lang@ && forall|j: int|
                0 <= j < i ==> (#[trigger] entries@[j]).0@ != lang@,
            None => forall|j: int| 0 <= j < entries@.len() ==> (#[trigger] entries@[j]).0@ != lang@,
        },
{
    let n = entries.len();
    let mut i: usize = 0;
    while i < n
        invariant
            0 <= i <= n,
            forall|j: int| 0 <= j < i ==> (#[trigger] entries@[j]).0@ != lang@,
        decreases n - i,
    {
        if str_eq(entries[i].0.as_str(), lang) {
            return Some(i);
        }
        i = i + 1;
    }
    None
}


/// First language whose configuration lists the extension.
pub open spec fn spec_lang_for_ext(entries: Seq<(String, LSPConfig)>, ext: Seq<char>) -> Option<
    Seq<char>,
>
    decreases entries.len(),
{
    if entries.len() == 0 {
        None
    } else if exists|k: int|
        0 <= k < entries[0].1.file_extensions@.len() && (#[trigger] entries[0].1.file_extensions@[k])@
            == ext {
        Some(entries[0].0@)
    } else {
        spec_lang_for_ext(entries.drop_first(), ext)
    }
}

#[verifier::loop_isolation(false)]
fn extensions_contain(exts: &Vec<String>, ext: &str) -> (r: bool)
    ensures
        r == exists|k: int| 0 <= k < exts@.len() && (#[trigger] exts@[k])@ == ext@,
{
    let n = exts.len();
    let mut i: usize = 0;
    while i < n
        invariant
            0 <= i <= n,
            forall|k: int| 0 <= k < i ==> (#[trigger] exts@[k])@ != ext@,
        decreases n - i,
    {
        if str_eq(exts[i].as_str(), ext) {
            return true;
        }
        i = i + 1;
    }
    false
}

impl LSPManager {
    /// The language to use for a file extension, per the launch table.
    pub fn get_language_for_extension(&self, extension: &str) -> (r: Option<String>)
        ensures
            match r {
                Some(l) => spec_lang_for_ext(self.language_configs@, extension@) == Some(l@),
                None => spec_lang_for_ext(self.language_configs@, extension@) is None,
            },
    {
        let n = self.language_configs.len();
        let mut i: usize = 0;
        proof {
            assert(self.language_configs@.skip(0) =~= self.language_configs@);
        }
        while i < n
            invariant
                0 <= i <= n,
                n == self.language_configs@.len(),
                spec_lang_for_ext(self.language_configs@, extension@) == spec_lang_for_ext(
                    self.language_configs@.skip(i as int),
                    extension@,
                ),
            decreases n - i,
        {
            proof {
                assert(self.language_configs@.skip(i as int)[0] == self.language_configs@[i as int]);
                assert(self.language_configs@.skip(i as int).drop_first() =~= self.language_configs@.skip(i + 1));
            }
            if extensions_contain(&self.language_configs[i].1.file_extensions, extension) {
                return Some(self.language_configs[i].0.clone());
            }
            i = i + 1;
        }
        proof {
            assert(self.language_configs@.skip(n as int).len() == 0);
        }
        None
    }

    /// Forwards a document open to the language's server: its framed
    /// notification to write, or nothing when the language has no server.
    pub fn did_open_document(&mut self, uri: &str, language: &str, content: &str) -> (r: Option<
        Vec<u8>,
    >)
        requires
            old(self).wf(),
        ensures
            final(self).wf(),
            final(self).language_configs@ == old(self).language_configs@,
            !old(self).has_server(language@) ==> r is None && final(self).servers@ == old(
                self,
            ).servers@,
            old(self).has_server(language@) ==> ({
                &&& r matches Some(frame) && frame@ == frame_bytes(
                    ser(did_open_model(uri@, language@, content@)),
                )
                &&& final(self).server_of(language@) matches Some(s) && s.version_of(uri@)
                    == Some(1u64)
                &&& forall|l: Seq<char>|
                    l != language@ ==> final(self).server_of(l) == old(self).server_of(l)
            }),
    {
        match server_index(&self.servers, language) {
            Some(i) => {
                proof {
                    lemma_server_found(self.servers@, i as int, language@);
                }
                let mut entry = self.servers.remove(i);
                let frame = entry.1.did_open(uri, language, content);
                self.servers.insert(i, entry);
                proof {
                    assert(final(self).servers@ =~= old(self).servers@.update(
                        i as int,
                        final(self).servers@[i as int],
                    ));
                    assert(final(self).servers@[i as int].0@ == language@);
                    assert forall|l: Seq<char>| true implies ({
                        &&& (l == language@ ==> final(self).server_of(l) == Some(
                            final(self).servers@[i as int].1,
                        ))
                        &&& (l != language@ ==> final(self).server_of(l) == old(self).server_of(l))
                    }) by {
                        lemma_server_update(
                            old(self).servers@,
                            i as int,
                            final(self).servers@[i as int],
                            l,
                        );
                    }
                    assert forall|p: int, q: int|
                        0 <= p < q < final(self).servers@.len() implies (#[trigger] final(self).servers@[p]).0@ != (#[trigger] final(self).servers@[q]).0@ by {
                        assert(old(self).servers@[p].0@ != old(self).servers@[q].0@);
                    }
                }
                Some(frame)
            },
            None => {
                proof {
                    lemma_server_none(self.servers@, language@);
                }
                None
            },
        }
    }

    /// Forwards a whole-document change to the language's server: the
    /// framed notification and the version it announces — the server's own
    /// version table decides it, not the caller's hint — or nothing when
    /// the language has no server.
    pub fn did_change_document(&mut self, uri: &str, language: &str, content: &str, _version: u64)
        -> (r: Option<(Vec<u8>, u64)>)
        requires
            old(self).wf(),
            old(self).server_of(language@) matches Some(s) ==> (s.version_of(uri@) matches Some(v)
                ==> v < u64::MAX),
        ensures
            final(self).wf(),
            final(self).language_configs@ == old(self).language_configs@,
            !old(self).has_server(language@) ==> r is None && final(self).servers@ == old(
                self,
            ).servers@,
            old(self).has_server(language@) ==> ({
                &&& old(self).server_of(language@) matches Some(pre) && r matches Some((frame, v))
                    && v == (match pre.version_of(uri@) {
                    Some(x) => x + 1,
                    None => 2,
                }) && frame@ == frame_bytes(ser(did_change_model(uri@, content@, v)))
                &&& final(self).server_of(language@) matches Some(s) && s.version_of(uri@)
                    == Some(r->Some_0.1)
                &&& forall|l: Seq<char>|
                    l != language@ ==> final(self).server_of(l) == old(self).server_of(l)
            }),
    {
        match server_index(&self.servers, language) {
            Some(i) => {
                proof {
                    lemma_server_found(self.servers@, i as int, language@);
                }
                let mut entry = self.servers.remove(i);
                let (frame, v) = entry.1.did_change(uri, content);
                self.servers.insert(i, entry);
                proof {
                    assert(final(self).servers@ =~= old(self).servers@.update(
                        i as int,
                        final(self).servers@[i as int],
                    ));
                    assert(final(self).servers@[i as int].0@ == language@);
                    assert forall|l: Seq<char>| true implies ({
                        &&& (l == language@ ==> final(self).server_of(l) == Some(
                            final(self).servers@[i as int].1,
                        ))
                        &&& (l != language@ ==> final(self).server_of(l) == old(self).server_of(l))
                    }) by {
                        lemma_server_update(
                            old(self).servers@,
                            i as int,
                            final(self).servers@[i as int],
                            l,
                        );
                    }
                    assert forall|p: int, q: int|
                        0 <= p < q < final(self).servers@.len() implies (#[trigger] final(self).servers@[p]).0@ != (#[trigger] final(self).servers@[q]).0@ by {
                        assert(old(self).servers@[p].0@ != old(self).servers@[q].0@);
                    }
                }
                Some((frame, v))
            },
            None => {
                proof {
                    lemma_server_none(self.servers@, language@);
                }
                None
            },
        }
    }

    /// Builds the framed completion request through the language's server:
    /// the fresh request id and the frame, or nothing when the language has
    /// no server.
    pub fn get_completion(&mut self, language: &str, uri: &str, line: u32, character: u32) -> (r:
        Option<(u64, Vec<u8>)>)
        requires
            old(self).wf(),
            old(self).server_of(language@) matches Some(s) ==> s.next_id < u64::MAX,
        ensures
            final(self).wf(),
            final(self).language_configs@ == old(self).language_configs@,
            !old(self).has_server(language@) ==> r is None && final(self).servers@ == old(
                self,
            ).servers@,
            old(self).has_server(language@) ==> ({
                &&& old(self).server_of(language@) matches Some(pre) && r matches Some((id, frame))
                    && id == pre.next_id && frame@ == frame_bytes(
                    ser(
                        request_model(
                            id,
                            "textDocument/completion"@,
                            position_params_model(uri@, line, character, true),
                        ),
                    ),
                )
                &&& final(self).server_of(language@) matches Some(s) && s.has_pending(
                    r->Some_0.0,
                ) && s.next_id == r->Some_0.0 + 1
                &&& forall|l: Seq<char>|
                    l != language@ ==> final(self).server_of(l) == old(self).server_of(l)
            }),
    {
        match server_index(&self.servers, language) {
            Some(i) => {
                proof {
                    lemma_server_found(self.servers@, i as int, language@);
                }
                let mut entry = self.servers.remove(i);
                let (id, frame) = entry.1.completion(uri, line, character);
                self.servers.insert(i, entry);
                proof {
                    assert(final(self).servers@ =~= old(self).servers@.update(
                        i as int,
                        final(self).servers@[i as int],
                    ));
                    assert(final(self).servers@[i as int].0@ == language@);
                    assert forall|l: Seq<char>| true implies ({
                        &&& (l == language@ ==> final(self).server_of(l) == Some(
                            final(self).servers@[i as int].1,
                        ))
                        &&& (l != language@ ==> final(self).server_of(l) == old(self).server_of(l))
                    }) by {
                        lemma_server_update(
                            old(self).servers@,
                            i as int,
                            final(self).servers@[i as int],
                            l,
                        );
                    }
                    assert forall|p: int, q: int|
                        0 <= p < q < final(self).servers@.len() implies (#[trigger] final(self).servers@[p]).0@ != (#[trigger] final(self).servers@[q]).0@ by {
                        assert(old(self).servers@[p].0@ != old(self).servers@[q].0@);
                    }
                }
                Some((id, frame))
            },
            None => {
                proof {
                    lemma_server_none(self.servers@, language@);
                }
                None
            },
        }
    }

    /// Builds the framed hover request through the language's server: the
    /// fresh request id and the frame, or nothing when the language has no
    /// server.
    pub fn get_hover(&mut self, language: &str, uri: &str, line: u32, character: u32) -> (r: Option<
        (u64, Vec<u8>),
    >)
        requires
            old(self).wf(),
            old(self).server_of(language@) matches Some(s) ==> s.next_id < u64::MAX,
        ensures
            final(self).wf(),
            final(self).language_configs@ == old(self).language_configs@,
            !old(self).has_server(language@) ==> r is None && final(self).servers@ == old(
                self,
            ).servers@,
            old(self).has_server(language@) ==> ({
                &&& old(self).server_of(language@) matches Some(pre) && r matches Some((id, frame))
                    && id == pre.next_id && frame@ == frame_bytes(
                    ser(
                        request_model(
                            id,
                            "textDocument/hover"@,
                            position_params_model(uri@, line, character, false),
                        ),
                    ),
                )
                &&& final(self).server_of(language@) matches Some(s) && s.has_pending(
                    r->Some_0.0,
                ) && s.next_id == r->Some_0.0 + 1
                &&& forall|l: Seq<char>|
                    l != language@ ==> final(self).server_of(l) == old(self).server_of(l)
            }),
    {
        match server_index(&self.servers, language) {
            Some(i) => {
                proof {
                    lemma_server_found(self.servers@, i as int, language@);
                }
                let mut entry = self.servers.remove(i);
                let (id, frame) = entry.1.hover(uri, line, character);
                self.servers.insert(i, entry);
                proof {
                    assert(final(self).servers@ =~= old(self).servers@.update(
                        i as int,
                        final(self).servers@[i as int],
                    ));
                    assert(final(self).servers@[i as int].0@ == language@);
                    assert forall|l: Seq<char>| true implies ({
                        &&& (l == language@ ==> final(self).server_of(l) == Some(
                            final(self).servers@[i as int].1,
                        ))
                        &&& (l != language@ ==> final(self).server_of(l) == old(self).server_of(l))
                    }) by {
                        lemma_server_update(
                            old(self).servers@,
                            i as int,
                            final(self).servers@[i as int],
                            l,
                        );
                    }
                    assert forall|p: int, q: int|
                        0 <= p < q < final(self).servers@.len() implies (#[trigger] final(self).servers@[p]).0@ != (#[trigger] final(self).servers@[q]).0@ by {
                        assert(old(self).servers@[p].0@ != old(self).servers@[q].0@);
                    }
                }
                Some((id, frame))
            },
            None => {
                proof {
                    lemma_server_none(self.servers@, language@);
                }
                None
            },
        }
    }

    /// Reads a document's cached diagnostics through the language's
    /// server; nothing when the language has no server or nothing was
    /// published.
    pub fn get_diagnostics(&self, language: &str, uri: &str) -> (r: Option<Vec<LSPDiagnostic>>)
        ensures
            !self.has_server(language@) ==> r is None,
            self.server_of(language@) matches Some(s) ==> (match r {
                Some(v) => s.diags_of(uri@) == Some(diags_view(v@)),
                None => s.diags_of(uri@) is None,
            }),
    {
        match server_index(&self.servers, language) {
            Some(i) => {
                proof {
                    lemma_server_found(self.servers@, i as int, language@);
                }
                self.servers[i].1.get_diagnostics(uri)
            },
            None => {
                proof {
                    lemma_server_none(self.servers@, language@);
                }
                None
            },
        }
    }

    /// Winds every pooled server down and empties the pool. Returns, per
    /// server wound down, the framed `shutdown` request and `exit`
    /// notification to write before killing its process.
    pub fn shutdown_all(&mut self) -> (frames: Vec<Vec<u8>>)
        requires
            old(self).wf(),
        ensures
            final(self).wf(),
            final(self).servers@.len() == 0,
            final(self).language_configs@ == old(self).language_configs@,
            frames@.len() == old(self).servers@.len(),
            forall|i: int| 0 <= i < frames@.len() ==> (#[trigger] frames@[i])@ == frame_bytes(
                ser(request_model(999, "shutdown"@, JsonModel::Null)),
            ) + frame_bytes(ser(exit_model())),
    {
        let mut frames: Vec<Vec<u8>> = Vec::new();
        while self.servers.len() > 0
            invariant
                self.wf(),
                self.language_configs@ == old(self).language_configs@,
                frames@.len() + self.servers@.len() == old(self).servers@.len(),
                forall|i: int| 0 <= i < frames@.len() ==> (#[trigger] frames@[i])@ == frame_bytes(
                    ser(request_model(999, "shutdown"@, JsonModel::Null)),
                ) + frame_bytes(ser(exit_model())),
            decreases self.servers@.len(),
        {
            let ghost pre = self.servers@;
            let popped = self.servers.pop();
            match popped {
                Some(mut entry) => {
                    proof {
                        assert forall|p: int, q: int|
                            0 <= p < q < self.servers@.len() implies (#[trigger] self.servers@[p]).0@
                            != (#[trigger] self.servers@[q]).0@ by {
                            assert(self.servers@[p] == pre[p] && self.servers@[q] == pre[q]);
                        }
                        assert forall|k: int| 0 <= k < self.servers@.len() implies (
                        #[trigger] self.servers@[k]).1.wf() by {
                            assert(self.servers@[k] == pre[k]);
                        }
                        assert(pre[pre.len() - 1].1.wf());
                    }
                    let f = entry.1.shutdown();
                    frames.push(f);
                },
                None => {
                },
            }
        }
        frames
    }
}


fn owned(x: &str) -> (r: String)
    ensures
        r@ == x@,
{
    x.to_owned()
}

impl LSPManager {
    /// A pool with no running servers and the built-in launch table:
    /// rust-analyzer for Rust, typescript-language-server for TypeScript
    /// and JavaScript, pylsp for Python and gopls for Go.
    pub fn new() -> (m: LSPManager)
        ensures
            m.wf(),
            m.servers@.len() == 0,
            m.language_configs@.len() == 5,
            m.language_configs@[0].0@ == "rust"@,
            m.language_configs@[0].1.command@ == "rust-analyzer"@,
            strings_view(m.language_configs@[0].1.args@) == Seq::<Seq<char>>::empty(),
            strings_view(m.language_configs@[0].1.file_extensions@) == seq!["rs"@],
            m.language_configs@[1].0@ == "typescript"@,
            m.language_configs@[1].1.command@ == "typescript-language-server"@,
            strings_view(m.language_configs@[1].1.args@) == seq!["--stdio"@],
            strings_view(m.language_configs@[1].1.file_extensions@) == seq!["ts"@, "tsx"@],
            m.language_configs@[2].0@ == "javascript"@,
            m.language_configs@[2].1.command@ == "typescript-language-server"@,
            strings_view(m.language_configs@[2].1.args@) == seq!["--stdio"@],
            strings_view(m.language_configs@[2].1.file_extensions@) == seq!["js"@, "jsx"@],
            m.language_configs@[3].0@ == "python"@,
            m.language_configs@[3].1.command@ == "pylsp"@,
            strings_view(m.language_configs@[3].1.args@) == Seq::<Seq<char>>::empty(),
            strings_view(m.language_configs@[3].1.file_extensions@) == seq!["py"@],
            m.language_configs@[4].0@ == "go"@,
            m.language_configs@[4].1.command@ == "gopls"@,
            strings_view(m.language_configs@[4].1.args@) == Seq::<Seq<char>>::empty(),
            strings_view(m.language_configs@[4].1.file_extensions@) == seq!["go"@],
    {
        let mut configs: Vec<(String, LSPConfig)> = Vec::new();

        let rust_exts = one_string("rs");
        configs.push(
            (
                owned("rust"),
                LSPConfig { command: owned("rust-analyzer"), args: Vec::new(), file_extensions: rust_exts },
            ),
        );

        let mut ts_args = Vec::new();
        ts_args.push(owned("--stdio"));
        let mut ts_exts: Vec<String> = Vec::new();
        ts_exts.push(owned("ts"));
        let ghost ts1 = ts_exts@;
        ts_exts.push(owned("tsx"));
        proof {
            assert(strings_view(ts_args@) =~= seq!["--stdio"@]);
            assert(ts1[0]@ == "ts"@);
            assert(ts_exts@[0] == ts1[0]);
            assert(strings_view(ts_exts@)[0] == ts_exts@[0]@);
            assert(strings_view(ts_exts@)[1] == ts_exts@[1]@);
            assert(strings_view(ts_exts@) =~= seq!["ts"@, "tsx"@]);
        }
        configs.push(
            (
                owned("typescript"),
                LSPConfig {
                    command: owned("typescript-language-server"),
                    args: ts_args,
                    file_extensions: ts_exts,
                },
            ),
        );

        let mut js_args = Vec::new();
        js_args.push(owned("--stdio"));
        let mut js_exts: Vec<String> = Vec::new();
        js_exts.push(owned("js"));
        let ghost js1 = js_exts@;
        js_exts.push(owned("jsx"));
        proof {
            assert(strings_view(js_args@) =~= seq!["--stdio"@]);
            assert(js1[0]@ == "js"@);
            assert(js_exts@[0] == js1[0]);
            assert(strings_view(js_exts@)[0] == js_exts@[0]@);
            assert(strings_view(js_exts@)[1] == js_exts@[1]@);
            assert(strings_view(js_exts@) =~= seq!["js"@, "jsx"@]);
        }
        configs.push(
            (
                owned("javascript"),
                LSPConfig {
                    command: owned("typescript-language-server"),
                    args: js_args,
                    file_extensions: js_exts,
                },
            ),
        );

        let py_exts = one_string("py");
        configs.push(
            (
                owned("python"),
                LSPConfig { command: owned("pylsp"), args: Vec::new(), file_extensions: py_exts },
            ),
        );

        let go_exts = one_string("go");
        configs.push(
            (
                owned("go"),
                LSPConfig { command: owned("gopls"), args: Vec::new(), file_extensions: go_exts },
            ),
        );

        proof {
            assert(strings_view(Seq::<String>::empty()) =~= Seq::<Seq<char>>::empty());
        }
        LSPManager { language_configs: configs, servers: Vec::new() }
    }
}

fn one_string(x: &str) -> (r: Vec<String>)
    ensures
        strings_view(r@) == seq![x@],
{
    let mut v: Vec<String> = Vec::new();
    v.push(x.to_owned());
    proof {
        assert(strings_view(v@) =~= seq![x@]);
    }
    v
}

} // verus!
