//! Plain data returned by the GitLab REST surface. The HTTP client that
//! fills these lives with the embedder; timestamps travel as the strings
//! the API sends.

use vstd::prelude::*;

verus! {

#[derive(Debug)]
pub struct GitLabProject {
    pub id: u64,
    pub name: String,
    pub path: String,
    pub path_with_namespace: String,
    pub description: Option<String>,
    pub visibility: String,
    pub web_url: String,
    pub http_url_to_repo: String,
    pub ssh_url_to_repo: String,
    pub default_branch: String,
    pub tag_list: Vec<String>,
    pub star_count: u32,
    pub forks_count: u32,
    pub open_issues_count: u32,
}

#[derive(Debug)]
pub struct GitLabUser {
    pub id: u64,
    pub name: String,
    pub username: String,
    pub avatar_url: String,
    pub web_url: String,
}

#[derive(Debug)]
pub struct GitLabMilestone {
    pub id: u64,
    pub title: String,
    pub description: Option<String>,
    pub state: String,
    pub web_url: String,
}

#[derive(Debug)]
pub struct GitLabMergeRequest {
    pub id: u64,
    pub iid: u32,
    pub title: String,
    pub description: Option<String>,
    pub state: String,
    pub draft: bool,
    pub web_url: String,
    pub author: GitLabUser,
    pub assignees: Vec<GitLabUser>,
    pub reviewers: Vec<GitLabUser>,
    pub source_branch: String,
    pub target_branch: String,
    pub created_at: String,
    pub updated_at: String,
    pub merged_at: Option<String>,
    pub merge_status: String,
    pub user_notes_count: u32,
    pub upvotes: u32,
    pub downvotes: u32,
    pub changes_count: String,
}

#[derive(Debug)]
pub struct GitLabIssue {
    pub id: u64,
    pub iid: u32,
    pub title: String,
    pub description: Option<String>,
    pub state: String,
    pub web_url: String,
    pub author: GitLabUser,
    pub assignees: Vec<GitLabUser>,
    pub labels: Vec<String>,
    pub milestone: Option<GitLabMilestone>,
    pub created_at: String,
    pub updated_at: String,
    pub user_notes_count: u32,
    pub upvotes: u32,
    pub downvotes: u32,
}

#[derive(Debug)]
pub struct GitLabPipelineRef {
    pub id: u64,
    pub sha: String,
    pub status: String,
    pub web_url: String,
}

#[derive(Debug)]
pub struct GitLabPipeline {
    pub id: u64,
    pub iid: u32,
    pub project_id: u64,
    pub sha: String,
    pub ref_name: String,
    pub status: String,
    pub source: String,
    pub created_at: String,
    pub updated_at: String,
    pub web_url: String,
}

#[derive(Debug)]
pub struct GitLabReleaseLinks {
    pub self_url: String,
    pub edit_url: Option<String>,
}

#[derive(Debug)]
pub struct GitLabRelease {
    pub tag_name: String,
    pub name: String,
    pub description: Option<String>,
    pub created_at: String,
    pub released_at: String,
    pub links: Option<GitLabReleaseLinks>,
}

} // verus!
