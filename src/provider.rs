use vstd::prelude::*;

use crate::etag::{opt_view, ETag};
use crate::names::Named;
use crate::repo::Repo;
use github::{applied, nest_insert, repo_at, GitHub, GitHubView, RepoUpdate};

pub mod github;

verus! {

/// Errors of a provider while it keeps its repositories current.
pub enum Error {
    /// The upstream client failed.
    Client(github::client::Error),
    /// A download address (given here) does not parse as a URI.
    InvalidUri(String, actix_web::http::uri::InvalidUri),
    /// A manifest names a file (given here) that the release does not have.
    MissingAsset(String),
    /// No repository is configured under the name asked for.
    RepoNotFound,
}

/// An upstream source host. GitHub and GitHub Enterprise are the one kind
/// there is; another kind would be another variant.
pub enum Provider {
    GitHub(GitHub),
}

impl View for Provider {
    type V = GitHubView;

    open spec fn view(&self) -> GitHubView {
        match self {
            Provider::GitHub(g) => g@,
        }
    }
}

impl Named for Provider {
    open spec fn key(&self) -> Seq<char> {
        self@.domain
    }

    fn key_str(&self) -> (r: &str) {
        self.domain()
    }
}

impl Provider {
    pub fn domain(&self) -> (r: &str)
        ensures
            r@ == self@.domain,
    {
        match self {
            Provider::GitHub(g) => g.domain(),
        }
    }

    /// Snapshots of all repositories, each once.
    pub fn repos(&self) -> (r: Vec<Repo>)
        ensures
            forall|a: int, b: int|
                0 <= a < r@.len() && 0 <= b < r@.len() && a != b ==> (r@[a]@.owner, r@[a]@.name) != (
                    r@[b]@.owner,
                    r@[b]@.name,
                ),
            forall|i: int|
                0 <= i < r@.len() ==> repo_at(self@.repos, (#[trigger] r@[i])@.owner, r@[i]@.name)
                    == Some(r@[i]@),
            forall|o: Seq<char>, nm: Seq<char>|
                #[trigger] repo_at(self@.repos, o, nm) is Some ==> exists|i: int|
                    0 <= i < r@.len() && (#[trigger] r@[i])@.owner == o && r@[i]@.name == nm,
    {
        match self {
            Provider::GitHub(g) => g.repos(),
        }
    }

    /// A snapshot of the repository `owner/name`.
    pub fn repo(&self, owner: &str, name: &str) -> (r: Option<Repo>)
        ensures
            r matches Some(x) ==> repo_at(self@.repos, owner@, name@) == Some(x@),
            r is None ==> repo_at(self@.repos, owner@, name@) is None,
    {
        match self {
            Provider::GitHub(g) => g.repo(owner, name),
        }
    }

    /// The entity-tags to send when refreshing `owner/name`.
    pub fn prior_etags(&self, owner: &str, name: &str) -> (r: Result<(Option<ETag>, Option<ETag>), Error>)
        ensures
            repo_at(self@.repos, owner@, name@) matches Some(v) ==> (r matches Ok(p) && opt_view(p.0)
                == v.releases_etag && opt_view(p.1) == v.latest_etag),
            repo_at(self@.repos, owner@, name@) is None ==> r matches Err(Error::RepoNotFound),
    {
        match self {
            Provider::GitHub(g) => g.prior_etags(owner, name),
        }
    }

    /// Publishes `update` applied to the repository `owner/name`.
    pub fn replace_repo(&mut self, owner: &str, name: &str, update: RepoUpdate) -> (r: Result<(), Error>)
        ensures
            repo_at(old(self)@.repos, owner@, name@) matches Some(v) ==> (r is Ok && final(self)@ == (GitHubView {
                repos: nest_insert(old(self)@.repos, owner@, name@, applied(v, update)),
                ..old(self)@
            })),
            repo_at(old(self)@.repos, owner@, name@) is None ==> (r matches Err(Error::RepoNotFound)
                && final(self)@ == old(self)@),
    {
        match self {
            Provider::GitHub(g) => g.replace_repo(owner, name, update),
        }
    }
}

} // verus!
