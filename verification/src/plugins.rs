//! The surface plugins program against: per-area API handles with their
//! permission state, the byte arena shared with a plugin, and the plugin
//! manifest vocabulary. The effectful halves (file access, HTTP, the host
//! function table) live with the embedder; what stands here is every
//! decision these APIs make.

use vstd::prelude::*;
use vstd::string::{StrSliceExecFns, StringExecFns};
use crate::json::str_eq;

verus! {

/// Why an API call was refused.
#[derive(Debug, Clone, Copy, PartialEq, Eq, Structural)]
pub enum ApiError {
    InvalidMode,
    UnsupportedFormat,
    OutOfBounds,
    InvalidUtf8,
    AccessDenied,
}

/// Whether `p` is a (byte-wise) prefix of `h`.
pub open spec fn spec_prefix_bytes(h: Seq<u8>, p: Seq<u8>) -> bool {
    p.len() <= h.len() && h.subrange(0, p.len() as int) == p
}

/// Whether `p` is a (byte-wise) suffix of `h`.
pub open spec fn spec_suffix_bytes(h: Seq<u8>, p: Seq<u8>) -> bool {
    p.len() <= h.len() && h.subrange(h.len() - p.len(), h.len() as int) == p
}

/// Whether one string's UTF-8 bytes open with another's.
#[verifier::loop_isolation(false)]
pub fn str_starts_with(h: &str, p: &str) -> (r: bool)
    ensures
        r == spec_prefix_bytes(vstd::utf8::encode_utf8(h@), vstd::utf8::encode_utf8(p@)),
{
    let hb = h.as_bytes_vec();
    let pb = p.as_bytes_vec();
    if pb.len() > hb.len() {
        return false;
    }
    let n = pb.len();
    let mut i: usize = 0;
    while i < n
        invariant
            0 <= i <= n,
            n == pb@.len() <= hb@.len(),
            forall|j: int| 0 <= j < i ==> #[trigger] hb@[j] == pb@[j],
        decreases n - i,
    {
        if hb[i] != pb[i] {
            proof {
                assert(hb@.subrange(0, n as int)[i as int] != pb@[i as int]);
            }
            return false;
        }
        i = i + 1;
    }
    proof {
        assert(hb@.subrange(0, n as int) =~= pb@);
    }
    true
}

/// Whether one string's UTF-8 bytes end with another's.
#[verifier::loop_isolation(false)]
pub fn str_ends_with(h: &str, p: &str) -> (r: bool)
    ensures
        r == spec_suffix_bytes(vstd::utf8::encode_utf8(h@), vstd::utf8::encode_utf8(p@)),
{
    let hb = h.as_bytes_vec();
    let pb = p.as_bytes_vec();
    if pb.len() > hb.len() {
        return false;
    }
    let n = pb.len();
    let off = hb.len() - n;
    let mut i: usize = 0;
    while i < n
        invariant
            0 <= i <= n,
            n == pb@.len() <= hb@.len(),
            off == hb@.len() - n,
            forall|j: int| 0 <= j < i ==> #[trigger] hb@[off + j] == pb@[j],
        decreases n - i,
    {
        if hb[off + i] != pb[i] {
            proof {
                assert(hb@.subrange(hb@.len() - n, hb@.len() as int)[i as int] != pb@[i as int]);
            }
            return false;
        }
        i = i + 1;
    }
    proof {
        assert forall|j: int| 0 <= j < n implies hb@.subrange(hb@.len() - n, hb@.len() as int)[j]
            == pb@[j] by {
            assert(hb@.subrange(hb@.len() - n, hb@.len() as int)[j] == hb@[off + j]);
        }
        assert(hb@.subrange(hb@.len() - n, hb@.len() as int) =~= pb@);
    }
    true
}

// ---------------------------------------------------------------------------
// Per-area API handles
// ---------------------------------------------------------------------------

/// Terminal operations available to plugins.
#[derive(Debug)]
pub struct TerminalAPI {
    pub active_sessions: Vec<(String, String)>,
}

pub open spec fn spec_session_at(entries: Seq<(String, String)>, key: Seq<char>) -> Option<
    Seq<char>,
>
    decreases entries.len(),
{
    if entries.len() == 0 {
        None
    } else if entries[0].0@ == key {
        Some(entries[0].1@)
    } else {
        spec_session_at(entries.drop_first(), key)
    }
}

impl TerminalAPI {
    pub fn new() -> (r: TerminalAPI)
        ensures
            r.active_sessions@.len() == 0,
    {
        TerminalAPI { active_sessions: Vec::new() }
    }

    /// Acknowledges a command. The embedder performs it; this handle only
    /// echoes what was asked.
    pub fn execute_command(&self, command: &str) -> (r: Result<String, ApiError>)
        ensures
            r matches Ok(s) && s@ == "Executed: "@ + command@,
    {
        Ok(String::from_str("Executed: ").concat(command))
    }

    /// The session registered as current, if any.
    #[verifier::loop_isolation(false)]
    pub fn get_active_session(&self) -> (r: Option<&String>)
        ensures
            match r {
                Some(s) => spec_session_at(self.active_sessions@, "current"@) == Some(s@),
                None => spec_session_at(self.active_sessions@, "current"@) is None,
            },
    {
        let n = self.active_sessions.len();
        let mut i: usize = 0;
        proof {
            assert(self.active_sessions@.skip(0) =~= self.active_sessions@);
        }
        while i < n
            invariant
                0 <= i <= n,
                n == self.active_sessions@.len(),
                spec_session_at(self.active_sessions@, "current"@) == spec_session_at(
                    self.active_sessions@.skip(i as int),
                    "current"@,
                ),
            decreases n - i,
        {
            proof {
                assert(self.active_sessions@.skip(i as int)[0] == self.active_sessions@[i as int]);
                assert(self.active_sessions@.skip(i as int).drop_first() =~= self.active_sessions@.skip(i + 1));
            }
            if str_eq(self.active_sessions[i].0.as_str(), "current") {
                return Some(&self.active_sessions[i].1);
            }
            i = i + 1;
        }
        proof {
            assert(self.active_sessions@.skip(n as int).len() == 0);
        }
        None
    }
}

/// Editor operations available to plugins.
#[derive(Debug)]
pub struct EditorAPI {
    pub open_files: Vec<(String, String)>,
}

impl EditorAPI {
    pub fn new() -> (r: EditorAPI)
        ensures
            r.open_files@.len() == 0,
    {
        EditorAPI { open_files: Vec::new() }
    }

    /// The file registered as current, if any.
    #[verifier::loop_isolation(false)]
    pub fn get_current_file(&self) -> (r: Option<&String>)
        ensures
            match r {
                Some(s) => spec_session_at(self.open_files@, "current"@) == Some(s@),
                None => spec_session_at(self.open_files@, "current"@) is None,
            },
    {
        let n = self.open_files.len();
        let mut i: usize = 0;
        proof {
            assert(self.open_files@.skip(0) =~= self.open_files@);
        }
        while i < n
            invariant
                0 <= i <= n,
                n == self.open_files@.len(),
                spec_session_at(self.open_files@, "current"@) == spec_session_at(
                    self.open_files@.skip(i as int),
                    "current"@,
                ),
            decreases n - i,
        {
            proof {
                assert(self.open_files@.skip(i as int)[0] == self.open_files@[i as int]);
                assert(self.open_files@.skip(i as int).drop_first() =~= self.open_files@.skip(i + 1));
            }
            if str_eq(self.open_files[i].0.as_str(), "current") {
                return Some(&self.open_files[i].1);
            }
            i = i + 1;
        }
        proof {
            assert(self.open_files@.skip(n as int).len() == 0);
        }
        None
    }

    /// The cursor as this placeholder handle knows it: the buffer start.
    pub fn get_cursor_position(&self) -> (r: (u32, u32))
        ensures
            r == (0u32, 0u32),
    {
        (0, 0)
    }

    /// Accepts a cursor move; the embedder applies it.
    pub fn set_cursor_position(&self, line: u32, column: u32) -> (r: Result<(), ApiError>)
        ensures
            r is Ok,
    {
        let _ = line;
        let _ = column;
        Ok(())
    }
}

/// Canvas operations available to plugins.
#[derive(Debug)]
pub struct CanvasAPI {
    pub current_mode: String,
}

impl CanvasAPI {
    pub fn new() -> (r: CanvasAPI)
        ensures
            r.current_mode@ == "freeform"@,
    {
        CanvasAPI { current_mode: String::from_str("freeform") }
    }

    pub fn get_current_mode(&self) -> (r: &str)
        ensures
            r@ == self.current_mode@,
    {
        self.current_mode.as_str()
    }

    /// Switches mode; only the four known modes are accepted, anything else
    /// is refused and the mode kept.
    pub fn set_mode(&mut self, mode: &str) -> (r: Result<(), ApiError>)
        ensures
            (mode@ == "freeform"@ || mode@ == "wireframe"@ || mode@ == "flowchart"@ || mode@
                == "system-design"@) ==> r is Ok && final(self).current_mode@ == mode@,
            !(mode@ == "freeform"@ || mode@ == "wireframe"@ || mode@ == "flowchart"@ || mode@
                == "system-design"@) ==> r == Result::<(), ApiError>::Err(ApiError::InvalidMode)
                && final(self).current_mode@ == old(self).current_mode@,
    {
        if str_eq(mode, "freeform") || str_eq(mode, "wireframe") || str_eq(mode, "flowchart")
            || str_eq(mode, "system-design") {
            self.current_mode = mode.to_owned();
            Ok(())
        } else {
            Err(ApiError::InvalidMode)
        }
    }

    /// Hands back the placeholder export for the known formats, refusing
    /// the rest.
    pub fn export_canvas(&self, format: &str) -> (r: Result<Vec<u8>, ApiError>)
        ensures
            (format@ == "png"@ || format@ == "svg"@ || format@ == "pdf"@) ==> (r matches Ok(b)
                && b@ == vstd::utf8::encode_utf8("placeholder_export_data"@)),
            !(format@ == "png"@ || format@ == "svg"@ || format@ == "pdf"@) ==> r == Result::<
                Vec<u8>,
                ApiError,
            >::Err(ApiError::UnsupportedFormat),
    {
        if str_eq(format, "png") || str_eq(format, "svg") || str_eq(format, "pdf") {
            Ok("placeholder_export_data".as_bytes_vec())
        } else {
            Err(ApiError::UnsupportedFormat)
        }
    }
}

/// Filesystem access policy for plugins: a path must sit under an allowed
/// prefix; an empty allowance denies everything.
#[derive(Debug)]
pub struct FilesystemAPI {
    pub allowed_paths: Vec<String>,
}

impl FilesystemAPI {
    pub fn new() -> (r: FilesystemAPI)
        ensures
            r.allowed_paths@.len() == 0,
    {
        FilesystemAPI { allowed_paths: Vec::new() }
    }

    pub fn set_allowed_paths(&mut self, paths: Vec<String>)
        ensures
            final(self).allowed_paths@ == paths@,
    {
        self.allowed_paths = paths;
    }

    /// Whether a path may be touched: it must start with one of the allowed
    /// prefixes; with none configured, everything is denied.
    #[verifier::loop_isolation(false)]
    pub fn is_path_allowed(&self, path: &str) -> (r: bool)
        ensures
            r == (self.allowed_paths@.len() > 0 && exists|i: int|
                0 <= i < self.allowed_paths@.len() && spec_prefix_bytes(
                    vstd::utf8::encode_utf8(path@),
                    vstd::utf8::encode_utf8((#[trigger] self.allowed_paths@[i])@),
                )),
    {
        if self.allowed_paths.len() == 0 {
            return false;
        }
        let n = self.allowed_paths.len();
        let mut i: usize = 0;
        while i < n
            invariant
                0 <= i <= n,
                forall|j: int| 0 <= j < i ==> !spec_prefix_bytes(
                    vstd::utf8::encode_utf8(path@),
                    vstd::utf8::encode_utf8((#[trigger] self.allowed_paths@[j])@),
                ),
            decreases n - i,
        {
            if str_starts_with(path, self.allowed_paths[i].as_str()) {
                return true;
            }
            i = i + 1;
        }
        false
    }
}

/// Network access policy for plugins: a host must equal an allowed domain
/// or sit under it; an empty allowance denies everything.
#[derive(Debug)]
pub struct NetworkAPI {
    pub allowed_domains: Vec<String>,
}

impl NetworkAPI {
    pub fn new() -> (r: NetworkAPI)
        ensures
            r.allowed_domains@.len() == 0,
    {
        NetworkAPI { allowed_domains: Vec::new() }
    }

    pub fn set_allowed_domains(&mut self, domains: Vec<String>)
        ensures
            final(self).allowed_domains@ == domains@,
    {
        self.allowed_domains = domains;
    }

    /// Whether a host name is allowed: equal to an allowed domain, or
    /// ending in a dot and that domain. The embedder extracts the host
    /// from the url before asking.
    #[verifier::loop_isolation(false)]
    pub fn host_allowed(&self, host: &str) -> (r: bool)
        ensures
            r == (self.allowed_domains@.len() > 0 && exists|i: int|
                0 <= i < self.allowed_domains@.len() && (host@ == (
                #[trigger] self.allowed_domains@[i])@ || spec_suffix_bytes(
                    vstd::utf8::encode_utf8(host@),
                    vstd::utf8::encode_utf8("."@ + self.allowed_domains@[i]@),
                ))),
    {
        if self.allowed_domains.len() == 0 {
            return false;
        }
        let n = self.allowed_domains.len();
        let mut i: usize = 0;
        while i < n
            invariant
                0 <= i <= n,
                forall|j: int| 0 <= j < i ==> !(host@ == (#[trigger] self.allowed_domains@[j])@
                    || spec_suffix_bytes(
                    vstd::utf8::encode_utf8(host@),
                    vstd::utf8::encode_utf8("."@ + self.allowed_domains@[j]@),
                )),
            decreases n - i,
        {
            let dotted = String::from_str(".").concat(self.allowed_domains[i].as_str());
            if str_eq(host, self.allowed_domains[i].as_str()) || str_ends_with(
                host,
                dotted.as_str(),
            ) {
                return true;
            }
            i = i + 1;
        }
        false
    }
}

/// The full API surface handed to one plugin.
#[derive(Debug)]
pub struct PluginAPI {
    pub terminal_api: TerminalAPI,
    pub editor_api: EditorAPI,
    pub canvas_api: CanvasAPI,
    pub filesystem_api: FilesystemAPI,
    pub network_api: NetworkAPI,
}

impl PluginAPI {
    pub fn new() -> (r: PluginAPI)
        ensures
            r.terminal_api.active_sessions@.len() == 0,
            r.editor_api.open_files@.len() == 0,
            r.canvas_api.current_mode@ == "freeform"@,
            r.filesystem_api.allowed_paths@.len() == 0,
            r.network_api.allowed_domains@.len() == 0,
    {
        PluginAPI {
            terminal_api: TerminalAPI::new(),
            editor_api: EditorAPI::new(),
            canvas_api: CanvasAPI::new(),
            filesystem_api: FilesystemAPI::new(),
            network_api: NetworkAPI::new(),
        }
    }
}

// ---------------------------------------------------------------------------
// The byte arena shared with a plugin
// ---------------------------------------------------------------------------

/// Linear memory shared with a plugin, addressed by 32-bit offsets.
#[derive(Debug)]
pub struct WasmMemory {
    pub data: Vec<u8>,
}

impl WasmMemory {
    /// An arena of `initial_size` zero bytes.
    pub fn new(initial_size: usize) -> (r: WasmMemory)
        ensures
            r.data@ == Seq::new(initial_size as nat, |i: int| 0u8),
    {
        let mut data: Vec<u8> = Vec::new();
        let mut i: usize = 0;
        while i < initial_size
            invariant
                0 <= i <= initial_size,
                data@ =~= Seq::new(i as nat, |k: int| 0u8),
            decreases initial_size - i,
        {
            data.push(0);
            proof {
                assert(data@ =~= Seq::new((i + 1) as nat, |k: int| 0u8));
            }
            i = i + 1;
        }
        WasmMemory { data }
    }

    /// Reads `len` bytes at `ptr` as a string. Negative or out-of-range
    /// coordinates are refused, as are bytes that are not valid UTF-8.
    #[verifier::loop_isolation(false)]
    pub fn read_string(&self, ptr: i32, len: i32) -> (r: Result<String, ApiError>)
        ensures
            (ptr < 0 || len < 0 || ptr + len > self.data@.len()) ==> r == Result::<
                String,
                ApiError,
            >::Err(ApiError::OutOfBounds),
            0 <= ptr && 0 <= len && ptr + len <= self.data@.len() ==> ({
                let bytes = self.data@.subrange(ptr as int, ptr + len);
                if vstd::utf8::valid_utf8(bytes) {
                    r matches Ok(s) && s@ == vstd::utf8::decode_utf8(bytes)
                } else {
                    r == Result::<String, ApiError>::Err(ApiError::InvalidUtf8)
                }
            }),
    {
        if ptr < 0 || len < 0 {
            return Err(ApiError::OutOfBounds);
        }
        let start = ptr as usize;
        let count = len as usize;
        if count > self.data.len() || start > self.data.len() - count {
            return Err(ApiError::OutOfBounds);
        }
        let mut bytes: Vec<u8> = Vec::new();
        let mut i: usize = 0;
        while i < count
            invariant
                0 <= i <= count,
                start + count <= self.data@.len(),
                bytes@ == self.data@.subrange(start as int, start + i),
            decreases count - i,
        {
            bytes.push(self.data[start + i]);
            proof {
                assert(bytes@ =~= self.data@.subrange(start as int, start + i + 1));
            }
            i = i + 1;
        }
        match crate::json::string_from_utf8(bytes) {
            Some(s) => {
                proof {
                    vstd::utf8::encode_utf8_decode_utf8(s@);
                }
                Ok(s)
            },
            None => Err(ApiError::InvalidUtf8),
        }
    }

    /// Appends a string's UTF-8 bytes, handing back their offset and
    /// length; refused if the arena would outgrow 32-bit addressing.
    pub fn write_string(&mut self, s: &str) -> (r: Result<(i32, i32), ApiError>)
        ensures
            old(self).data@.len() + vstd::utf8::encode_utf8(s@).len() <= i32::MAX
                ==> (r matches Ok((ptr, len)) && ptr == old(self).data@.len()
                && len == vstd::utf8::encode_utf8(s@).len()
                && final(self).data@ == old(self).data@ + vstd::utf8::encode_utf8(s@)),
            old(self).data@.len() + vstd::utf8::encode_utf8(s@).len() > i32::MAX
                ==> r == Result::<(i32, i32), ApiError>::Err(ApiError::OutOfBounds)
                && final(self).data@ == old(self).data@,
    {
        let mut bytes = s.as_bytes_vec();
        if self.data.len() > 0x7fff_ffff || bytes.len() > 0x7fff_ffff - self.data.len() {
            return Err(ApiError::OutOfBounds);
        }
        let ptr = self.data.len() as i32;
        let len = bytes.len() as i32;
        self.data.append(&mut bytes);
        Ok((ptr, len))
    }

    /// Grows the arena by `size` zero bytes, handing back the old end;
    /// callers keep the arena within 32-bit addressing.
    pub fn allocate(&mut self, size: usize) -> (r: i32)
        requires
            old(self).data@.len() + size <= i32::MAX,
        ensures
            r == old(self).data@.len(),
            final(self).data@ == old(self).data@ + Seq::new(size as nat, |i: int| 0u8),
    {
        let ptr = self.data.len() as i32;
        let ghost start = self.data@;
        let mut i: usize = 0;
        while i < size
            invariant
                0 <= i <= size,
                self.data@ =~= start + Seq::new(i as nat, |k: int| 0u8),
        decreases size - i,
        {
            self.data.push(0);
            proof {
                assert(self.data@ =~= start + Seq::new((i + 1) as nat, |k: int| 0u8));
            }
            i = i + 1;
        }
        ptr
    }
}

/// The API surface and the arena, as handed to the embedder's host
/// function table.
pub struct HostFunctions {
    pub api: PluginAPI,
    pub memory: WasmMemory,
}

impl HostFunctions {
    /// A fresh surface over a one-megabyte arena: the arena is zero-filled,
    /// and every API handle starts in its default state — no sessions, no
    /// open files, freeform canvas mode, and empty path and domain
    /// allow-lists (so file and network access start denied).
    pub fn new() -> (r: HostFunctions)
        ensures
            r.memory.data@ == Seq::new(0x100000, |i: int| 0u8),
            r.api.terminal_api.active_sessions@.len() == 0,
            r.api.editor_api.open_files@.len() == 0,
            r.api.canvas_api.current_mode@ == "freeform"@,
            r.api.filesystem_api.allowed_paths@.len() == 0,
            r.api.network_api.allowed_domains@.len() == 0,
    {
        HostFunctions { api: PluginAPI::new(), memory: WasmMemory::new(0x100000) }
    }
}

// ---------------------------------------------------------------------------
// Manifests
// ---------------------------------------------------------------------------

/// What a plugin may touch.
#[derive(Debug)]
pub enum Permission {
    FileSystem { paths: Vec<String> },
    Network { domains: Vec<String> },
    Terminal,
    Editor,
    Canvas,
}

/// A plugin's manifest.
#[derive(Debug)]
pub struct PluginManifest {
    pub name: String,
    pub version: String,
    pub description: String,
    pub author: String,
    pub entry_point: String,
    pub permissions: Vec<Permission>,
    pub api_version: String,
}

} // verus!
