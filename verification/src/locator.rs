//! Where a file lives on GitHub, and the address it is served from.

use vstd::prelude::*;
use vstd::string::StringExecFns;

verus! {

/// A file in a GitHub repository: owner, repository, branch and the path of
/// the file inside the repository.
#[derive(Debug, Clone)]
pub struct GithubFileSpec<S> {
    pub project: S,
    pub repository: S,
    pub branch: S,
    pub filepath: S,
}

impl<S> GithubFileSpec<S> {
    pub fn new(project: S, repository: S, branch: S, filepath: S) -> (spec: Self)
        ensures
            spec.project == project,
            spec.repository == repository,
            spec.branch == branch,
            spec.filepath == filepath,
    {
        Self { project, repository, branch, filepath }
    }
}

/// The address under which GitHub serves the raw contents of the file
/// `filepath` on `branch` of `project/repository`.
pub open spec fn raw_url(
    project: Seq<char>,
    repository: Seq<char>,
    branch: Seq<char>,
    filepath: Seq<char>,
) -> Seq<char> {
    "https://raw.githubusercontent.com/"@ + project + "/"@ + repository + "/refs/heads/"@ + branch
        + "/"@ + filepath
}

impl GithubFileSpec<String> {
    /// The address of the file as text.
    pub open spec fn url(&self) -> Seq<char> {
        raw_url(self.project@, self.repository@, self.branch@, self.filepath@)
    }

    /// Builds the address the file is fetched from. The four fields are put
    /// into the address as they are; nothing is escaped.
    pub fn get_url(&self) -> (url: String)
        ensures
            url@ == self.url(),
    {
        let mut url = String::from_str("https://raw.githubusercontent.com/");
        url.append(self.project.as_str());
        url.append("/");
        url.append(self.repository.as_str());
        url.append("/refs/heads/");
        url.append(self.branch.as_str());
        url.append("/");
        url.append(self.filepath.as_str());
        url
    }
}

} // verus!
