use vstd::prelude::*;

verus! {

/// Version-control information of a project; each field may be absent.
#[derive(Debug, Clone)]
pub struct GitInfo {
    pub last_commit_at: Option<i64>,
    pub branch: Option<String>,
    pub remote_url: Option<String>,
}

/// The information of a directory for which no repository is available.
pub fn read_git_info() -> (r: GitInfo)
    ensures
        r.last_commit_at is None,
        r.branch is None,
        r.remote_url is None,
{
    GitInfo { last_commit_at: None, branch: None, remote_url: None }
}

} // verus!
