//! Plain data returned by the Gitea REST surface. The HTTP client that
//! fills these lives with the embedder; timestamps travel as the strings
//! the API sends.

use vstd::prelude::*;

verus! {

#[derive(Debug)]
pub struct GiteaRepository {
    pub id: u64,
    pub name: String,
    pub full_name: String,
    pub description: String,
    pub private: bool,
    pub fork: bool,
    pub html_url: String,
    pub clone_url: String,
    pub ssh_url: String,
    pub default_branch: String,
    pub language: String,
    pub stars_count: u32,
    pub forks_count: u32,
    pub open_issues_count: u32,
    pub size: u64,
}

#[derive(Debug)]
pub struct GiteaUser {
    pub id: u64,
    pub login: String,
    pub full_name: String,
    pub email: String,
    pub avatar_url: String,
    pub html_url: String,
}

/// One end of a pull request; `ref_name` carries what the API calls `ref`.
#[derive(Debug)]
pub struct GiteaBranch {
    pub label: String,
    pub ref_name: String,
    pub sha: String,
    pub repo: Option<GiteaRepository>,
}

#[derive(Debug)]
pub struct GiteaPullRequest {
    pub id: u64,
    pub number: u32,
    pub title: String,
    pub body: String,
    pub state: String,
    pub html_url: String,
    pub user: GiteaUser,
    pub head: GiteaBranch,
    pub base: GiteaBranch,
    pub created_at: String,
    pub updated_at: String,
    pub mergeable: bool,
    pub merged: bool,
    pub merged_at: Option<String>,
    pub comments: u32,
    pub additions: u32,
    pub deletions: u32,
    pub changed_files: u32,
}

#[derive(Debug)]
pub struct GiteaLabel {
    pub id: u64,
    pub name: String,
    pub color: String,
    pub description: String,
}

#[derive(Debug)]
pub struct GiteaMilestone {
    pub id: u64,
    pub title: String,
    pub description: String,
    pub state: String,
    pub html_url: String,
}

#[derive(Debug)]
pub struct GiteaIssue {
    pub id: u64,
    pub number: u32,
    pub title: String,
    pub body: String,
    pub state: String,
    pub html_url: String,
    pub user: GiteaUser,
    pub assignees: Vec<GiteaUser>,
    pub labels: Vec<GiteaLabel>,
    pub milestone: Option<GiteaMilestone>,
    pub created_at: String,
    pub updated_at: String,
    pub comments: u32,
}

#[derive(Debug)]
pub struct GiteaRelease {
    pub id: u64,
    pub tag_name: String,
    pub name: String,
    pub body: String,
    pub draft: bool,
    pub prerelease: bool,
    pub html_url: String,
    pub created_at: String,
    pub published_at: String,
    pub author: GiteaUser,
}

#[derive(Debug)]
pub struct GiteaCommitStatus {
    pub id: u64,
    pub status: String,
    pub target_url: String,
    pub description: String,
    pub context: String,
    pub creator: GiteaUser,
    pub created_at: String,
    pub updated_at: String,
}

} // verus!
