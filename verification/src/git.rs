//! Git-side vocabulary — repository snapshots, statuses, branches and
//! diffs as plain data — plus the logic that stands on its own: detecting
//! the hosting platform from a remote url and composing a fallback commit
//! message. The porcelain itself (opening repositories, statuses, commits)
//! belongs to the embedder.

use vstd::prelude::*;
use vstd::string::{StrSliceExecFns, StringExecFns};
use crate::json::{dec_digits, u64_string};

verus! {

#[derive(Debug, Clone, Copy, PartialEq, Eq, Structural)]
pub enum GitFileChangeType {
    Added,
    Modified,
    Deleted,
    Renamed,
    Copied,
    Conflicted,
}

#[derive(Debug)]
pub struct GitFileStatus {
    pub path: String,
    pub status: GitFileChangeType,
}

#[derive(Debug)]
pub struct GitStatus {
    pub staged: Vec<GitFileStatus>,
    pub unstaged: Vec<GitFileStatus>,
    pub untracked: Vec<String>,
    pub ahead: usize,
    pub behind: usize,
    pub conflicts: Vec<String>,
}

#[derive(Debug, Clone, PartialEq, Eq)]
pub struct GitAuthor {
    pub name: String,
    pub email: String,
}

#[derive(Debug)]
pub struct GitBranch {
    pub name: String,
    pub is_current: bool,
    pub is_remote: bool,
    pub upstream: Option<String>,
    pub ahead: usize,
    pub behind: usize,
}

#[derive(Debug, Clone, Copy, PartialEq, Eq, Structural)]
pub enum GitDiffLineType {
    Context,
    Addition,
    Deletion,
}

#[derive(Debug)]
pub struct GitDiffLine {
    pub line_type: GitDiffLineType,
    pub content: String,
    pub old_line_no: Option<u32>,
    pub new_line_no: Option<u32>,
}

#[derive(Debug)]
pub struct GitDiffHunk {
    pub old_start: u32,
    pub old_lines: u32,
    pub new_start: u32,
    pub new_lines: u32,
    pub header: String,
    pub lines: Vec<GitDiffLine>,
}

#[derive(Debug)]
pub struct GitDiff {
    pub old_file: Option<String>,
    pub new_file: Option<String>,
    pub hunks: Vec<GitDiffHunk>,
}

#[derive(Debug, Clone, Copy, PartialEq, Eq, Structural)]
pub enum GitPlatform {
    GitHub,
    GitLab,
    Gitea,
    Forgejo,
    Bitbucket,
    Generic,
}

#[derive(Debug)]
pub struct GitRepository {
    pub path: String,
    pub branch: String,
    pub status: GitStatus,
    pub remote_url: Option<String>,
    pub platform: GitPlatform,
}

// ---------------------------------------------------------------------------
// Platform detection
// ---------------------------------------------------------------------------

/// Whether `n` occurs contiguously in `h`.
pub open spec fn spec_contains_bytes(h: Seq<u8>, n: Seq<u8>) -> bool {
    exists|i: int| 0 <= i <= h.len() - n.len() && #[trigger] h.subrange(i, i + n.len() as int) == n
}

/// Whether one string's UTF-8 bytes occur in another's.
#[verifier::loop_isolation(false)]
pub fn str_contains(h: &str, n: &str) -> (r: bool)
    ensures
        r == spec_contains_bytes(vstd::utf8::encode_utf8(h@), vstd::utf8::encode_utf8(n@)),
{
    let hb = h.as_bytes_vec();
    let nb = n.as_bytes_vec();
    if nb.len() > hb.len() {
        proof {
            assert(!spec_contains_bytes(hb@, nb@));
        }
        return false;
    }
    if nb.len() == 0 {
        proof {
            assert(hb@.subrange(0, 0 + nb@.len() as int) =~= nb@);
        }
        return true;
    }
    let last = hb.len() - nb.len();
    let m = nb.len();
    let mut i: usize = 0;
    while i <= last
        invariant
            0 <= i <= last + 1,
            last == hb@.len() - m,
            1 <= m == nb@.len(),
            forall|k: int| 0 <= k < i ==> #[trigger] hb@.subrange(k, k + m as int) != nb@,
        decreases last - i + 1,
    {
        let mut j: usize = 0;
        let mut hit = true;
        while j < m
            invariant
                0 <= j <= m,
                i + m <= hb@.len(),
                hit ==> forall|t: int| 0 <= t < j ==> #[trigger] hb@[i + t] == nb@[t],
                !hit ==> hb@.subrange(i as int, i + m) != nb@,
            decreases m - j,
        {
            if hb[i + j] != nb[j] {
                hit = false;
                proof {
                    assert(hb@.subrange(i as int, i + m)[j as int] == hb@[i + j]);
                    assert(hb@.subrange(i as int, i + m)[j as int] != nb@[j as int]);
                }
                j = m;
            } else {
                j = j + 1;
            }
        }
        if hit {
            proof {
                assert forall|t: int| 0 <= t < m implies hb@.subrange(i as int, i + m)[t] == nb@[t]
                    by {
                    assert(hb@.subrange(i as int, i + m)[t] == hb@[i + t]);
                }
                assert(hb@.subrange(i as int, i + m) =~= nb@);
            }
            return true;
        }
        i = i + 1;
    }
    proof {
        if spec_contains_bytes(hb@, nb@) {
            let k = choose|k: int|
                0 <= k <= hb@.len() - nb@.len() && #[trigger] hb@.subrange(k, k + nb@.len() as int)
                    == nb@;
            assert(hb@.subrange(k, k + m as int) != nb@);
            assert(false);
        }
    }
    false
}

/// The platform a remote url names, by the substrings the hosts use.
pub open spec fn spec_detect_platform(u: Seq<u8>) -> GitPlatform {
    if spec_contains_bytes(u, vstd::utf8::encode_utf8("github.com"@)) {
        GitPlatform::GitHub
    } else if spec_contains_bytes(u, vstd::utf8::encode_utf8("gitlab.com"@)) || spec_contains_bytes(
        u,
        vstd::utf8::encode_utf8("gitlab."@),
    ) {
        GitPlatform::GitLab
    } else if spec_contains_bytes(u, vstd::utf8::encode_utf8("gitea."@)) || spec_contains_bytes(
        u,
        vstd::utf8::encode_utf8("/gitea/"@),
    ) {
        GitPlatform::Gitea
    } else if spec_contains_bytes(u, vstd::utf8::encode_utf8("forgejo."@)) || spec_contains_bytes(
        u,
        vstd::utf8::encode_utf8("/forgejo/"@),
    ) {
        GitPlatform::Forgejo
    } else if spec_contains_bytes(u, vstd::utf8::encode_utf8("bitbucket.org"@)) {
        GitPlatform::Bitbucket
    } else {
        GitPlatform::Generic
    }
}

impl GitPlatform {
    /// Names the hosting platform behind a remote url.
    pub fn detect_from_url(url: &str) -> (r: GitPlatform)
        ensures
            r == spec_detect_platform(vstd::utf8::encode_utf8(url@)),
    {
        if str_contains(url, "github.com") {
            GitPlatform::GitHub
        } else if str_contains(url, "gitlab.com") || str_contains(url, "gitlab.") {
            GitPlatform::GitLab
        } else if str_contains(url, "gitea.") || str_contains(url, "/gitea/") {
            GitPlatform::Gitea
        } else if str_contains(url, "forgejo.") || str_contains(url, "/forgejo/") {
            GitPlatform::Forgejo
        } else if str_contains(url, "bitbucket.org") {
            GitPlatform::Bitbucket
        } else {
            GitPlatform::Generic
        }
    }
}

// ---------------------------------------------------------------------------
// The manager's own logic
// ---------------------------------------------------------------------------

/// Tracks which repositories have been opened this session. The porcelain
/// itself runs with the embedder.
#[derive(Debug)]
pub struct GitManager {
    pub known_repositories: Vec<String>,
}

/// The fallback commit message for a staged set: the one file's name, or a
/// count of them, or a generic plural when none are listed.
pub open spec fn spec_commit_message(files: Seq<Seq<char>>) -> Seq<char> {
    if files.len() == 0 {
        "Update multiple files"@
    } else if files.len() == 1 {
        "Update "@ + files[0]
    } else {
        "Update "@ + dec_digits(files.len()) + " files"@
    }
}

impl GitManager {
    pub fn new() -> (r: GitManager)
        ensures
            r.known_repositories@.len() == 0,
    {
        GitManager { known_repositories: Vec::new() }
    }

    /// Composes the fallback commit message for the staged files.
    pub fn generate_ai_commit_message(&self, repo_path: &str, staged_files: &Vec<String>) -> (r:
        String)
        ensures
            r@ == spec_commit_message(crate::lsp_types::strings_view(staged_files@)),
    {
        let _ = repo_path;
        proof {
            assert(crate::lsp_types::strings_view(staged_files@).len() == staged_files@.len());
        }
        if staged_files.len() == 0 {
            String::from_str("Update multiple files")
        } else if staged_files.len() == 1 {
            proof {
                assert(crate::lsp_types::strings_view(staged_files@)[0] == staged_files@[0]@);
            }
            String::from_str("Update ").concat(staged_files[0].as_str())
        } else {
            let count = u64_string(staged_files.len() as u64);
            let mut msg = String::from_str("Update ");
            msg.append(count.as_str());
            msg.append(" files");
            msg
        }
    }
}

} // verus!
