use vstd::prelude::*;

use crate::asset::AssetView;
use crate::data::Data;
use crate::provider::github::repo_at;
use crate::provider::Provider;
use crate::release::ReleaseView;
use crate::repo::{Repo, RepoView};
use crate::target::TargetView;
use crate::text::same_text;

verus! {

/// A release as a path names it: the latest one, or one by tag.
pub enum Version {
    Latest,
    Version(String),
}

/// The tag a version names; none for the latest.
pub open spec fn version_tag(v: Version) -> Option<Seq<char>> {
    match v {
        Version::Latest => None,
        Version::Version(s) => Some(s@),
    }
}

pub const LATEST: &'static str = "latest";

impl Version {
    /// `latest` names the latest release; any other text a tag.
    pub fn from_str(s: &str) -> (r: Version)
        ensures
            s@ == LATEST@ ==> r is Latest,
            s@ != LATEST@ ==> (r matches Version::Version(t) && t@ == s@),
    {
        if same_text(s, LATEST) {
            Version::Latest
        } else {
            Version::Version(s.to_owned())
        }
    }

    /// The text the version is written as in a path.
    pub fn to_text(&self) -> (r: String)
        ensures
            *self is Latest ==> r@ == LATEST@,
            self matches Version::Version(t) ==> r@ == t@,
    {
        match self {
            Version::Latest => String::from_str(LATEST),
            Version::Version(t) => t.clone(),
        }
    }
}

pub trait ProviderPath {
    spec fn provider_view(&self) -> Seq<char>;

    fn provider(&self) -> (r: &str)
        ensures
            r@ == self.provider_view(),
    ;
}

pub trait RepoPath: ProviderPath {
    spec fn owner_view(&self) -> Seq<char>;

    spec fn repo_view(&self) -> Seq<char>;

    fn owner(&self) -> (r: &str)
        ensures
            r@ == self.owner_view(),
    ;

    fn repo(&self) -> (r: &str)
        ensures
            r@ == self.repo_view(),
    ;
}

pub trait ReleasePath: RepoPath {
    spec fn version_view(&self) -> Version;

    fn version(&self) -> (r: &Version)
        ensures
            *r == self.version_view(),
    ;
}

pub trait TargetPath: ReleasePath {
    spec fn target_view(&self) -> Seq<char>;

    fn target(&self) -> (r: &str)
        ensures
            r@ == self.target_view(),
    ;
}

pub trait AssetPath: TargetPath {
    spec fn asset_view(&self) -> Seq<char>;

    fn asset(&self) -> (r: &str)
        ensures
            r@ == self.asset_view(),
    ;
}

/// The path of the repositories of a provider.
pub struct Repos {
    pub provider: String,
}

/// The path of the releases of a repository.
pub struct Releases {
    pub provider: String,
    pub owner: String,
    pub repo: String,
}

/// The path of the targets of a release.
pub struct Targets {
    pub provider: String,
    pub owner: String,
    pub repo: String,
    pub version: Version,
}

/// The path of the assets of a target.
pub struct Assets {
    pub provider: String,
    pub owner: String,
    pub repo: String,
    pub version: Version,
    pub target: String,
}

/// The path of one asset.
pub struct Asset {
    pub provider: String,
    pub owner: String,
    pub repo: String,
    pub version: Version,
    pub target: String,
    pub asset: String,
}

impl ProviderPath for Repos {
    open spec fn provider_view(&self) -> Seq<char> {
        self.provider@
    }

    fn provider(&self) -> (r: &str) {
        self.provider.as_str()
    }
}

impl ProviderPath for Releases {
    open spec fn provider_view(&self) -> Seq<char> {
        self.provider@
    }

    fn provider(&self) -> (r: &str) {
        self.provider.as_str()
    }
}

impl RepoPath for Releases {
    open spec fn owner_view(&self) -> Seq<char> {
        self.owner@
    }

    open spec fn repo_view(&self) -> Seq<char> {
        self.repo@
    }

    fn owner(&self) -> (r: &str) {
        self.owner.as_str()
    }

    fn repo(&self) -> (r: &str) {
        self.repo.as_str()
    }
}

impl ProviderPath for Targets {
    open spec fn provider_view(&self) -> Seq<char> {
        self.provider@
    }

    fn provider(&self) -> (r: &str) {
        self.provider.as_str()
    }
}

impl RepoPath for Targets {
    open spec fn owner_view(&self) -> Seq<char> {
        self.owner@
    }

    open spec fn repo_view(&self) -> Seq<char> {
        self.repo@
    }

    fn owner(&self) -> (r: &str) {
        self.owner.as_str()
    }

    fn repo(&self) -> (r: &str) {
        self.repo.as_str()
    }
}

impl ReleasePath for Targets {
    open spec fn version_view(&self) -> Version {
        self.version
    }

    fn version(&self) -> (r: &Version) {
        &self.version
    }
}

impl ProviderPath for Assets {
    open spec fn provider_view(&self) -> Seq<char> {
        self.provider@
    }

    fn provider(&self) -> (r: &str) {
        self.provider.as_str()
    }
}

impl RepoPath for Assets {
    open spec fn owner_view(&self) -> Seq<char> {
        self.owner@
    }

    open spec fn repo_view(&self) -> Seq<char> {
        self.repo@
    }

    fn owner(&self) -> (r: &str) {
        self.owner.as_str()
    }

    fn repo(&self) -> (r: &str) {
        self.repo.as_str()
    }
}

impl ReleasePath for Assets {
    open spec fn version_view(&self) -> Version {
        self.version
    }

    fn version(&self) -> (r: &Version) {
        &self.version
    }
}

impl TargetPath for Assets {
    open spec fn target_view(&self) -> Seq<char> {
        self.target@
    }

    fn target(&self) -> (r: &str) {
        self.target.as_str()
    }
}

impl ProviderPath for Asset {
    open spec fn provider_view(&self) -> Seq<char> {
        self.provider@
    }

    fn provider(&self) -> (r: &str) {
        self.provider.as_str()
    }
}

impl RepoPath for Asset {
    open spec fn owner_view(&self) -> Seq<char> {
        self.owner@
    }

    open spec fn repo_view(&self) -> Seq<char> {
        self.repo@
    }

    fn owner(&self) -> (r: &str) {
        self.owner.as_str()
    }

    fn repo(&self) -> (r: &str) {
        self.repo.as_str()
    }
}

impl ReleasePath for Asset {
    open spec fn version_view(&self) -> Version {
        self.version
    }

    fn version(&self) -> (r: &Version) {
        &self.version
    }
}

impl TargetPath for Asset {
    open spec fn target_view(&self) -> Seq<char> {
        self.target@
    }

    fn target(&self) -> (r: &str) {
        self.target.as_str()
    }
}

impl AssetPath for Asset {
    open spec fn asset_view(&self) -> Seq<char> {
        self.asset@
    }

    fn asset(&self) -> (r: &str) {
        self.asset.as_str()
    }
}

/// The repository a path names, as the catalog holds it.
pub open spec fn repo_of(
    catalog: Map<Seq<char>, crate::provider::github::GitHubView>,
    provider: Seq<char>,
    owner: Seq<char>,
    repo: Seq<char>,
) -> Option<RepoView> {
    if catalog.contains_key(provider) {
        repo_at(catalog[provider].repos, owner, repo)
    } else {
        None
    }
}

/// The release a version names in a repository: the latest resolves
/// through the repository's latest tag.
pub open spec fn release_of(rv: RepoView, version: Version) -> Option<ReleaseView> {
    let tag = match version {
        Version::Latest => rv.latest,
        Version::Version(t) => Some(t@),
    };
    match tag {
        Some(t) => if rv.releases.contains_key(t) {
            Some(rv.releases[t])
        } else {
            None
        },
        None => None,
    }
}

pub open spec fn target_of(rel: ReleaseView, target: Seq<char>) -> Option<TargetView> {
    if rel.targets.contains_key(target) {
        Some(rel.targets[target])
    } else {
        None
    }
}

pub open spec fn asset_of(t: TargetView, asset: Seq<char>) -> Option<AssetView> {
    if t.assets.contains_key(asset) {
        Some(t.assets[asset])
    } else {
        None
    }
}

pub fn get_provider<'a, P: ProviderPath>(path: &P, data: &'a Data) -> (r: Option<&'a Provider>)
    ensures
        r matches Some(p) ==> data@.contains_key(path.provider_view()) && data@[path.provider_view()]
            == p@,
        r is None ==> !data@.contains_key(path.provider_view()),
{
    data.provider(path.provider())
}

/// A snapshot of the repository a path names.
pub fn get_repo<P: RepoPath>(path: &P, data: &Data) -> (r: Option<Repo>)
    ensures
        r matches Some(x) ==> repo_of(data@, path.provider_view(), path.owner_view(), path.repo_view())
            == Some(x@),
        r is None ==> repo_of(data@, path.provider_view(), path.owner_view(), path.repo_view()) is None,
{
    match get_provider(path, data) {
        Some(p) => p.repo(path.owner(), path.repo()),
        None => None,
    }
}

/// The release a path names, where the catalog has it.
pub open spec fn release_at<P: ReleasePath>(catalog: Map<Seq<char>, crate::provider::github::GitHubView>, path: P) -> Option<ReleaseView> {
    match repo_of(catalog, path.provider_view(), path.owner_view(), path.repo_view()) {
        Some(rv) => release_of(rv, path.version_view()),
        None => None,
    }
}

/// The target a path names, where the catalog has it.
pub open spec fn target_at<P: TargetPath>(catalog: Map<Seq<char>, crate::provider::github::GitHubView>, path: P) -> Option<TargetView> {
    match release_at(catalog, path) {
        Some(rel) => target_of(rel, path.target_view()),
        None => None,
    }
}

/// The asset a path names, where the catalog has it.
pub open spec fn asset_at<P: AssetPath>(catalog: Map<Seq<char>, crate::provider::github::GitHubView>, path: P) -> Option<AssetView> {
    match target_at(catalog, path) {
        Some(t) => asset_of(t, path.asset_view()),
        None => None,
    }
}

/// The release a path names, taken from one snapshot of its repository.
pub fn get_release<P: ReleasePath>(path: &P, data: &Data) -> (r: Option<crate::release::Release>)
    ensures
        r matches Some(x) ==> release_at(data@, *path) == Some(x@),
        r is None ==> release_at(data@, *path) is None,
{
    let repo = match get_repo(path, data) {
        Some(repo) => repo,
        None => {
            return None;
        },
    };
    let found = match path.version() {
        Version::Latest => repo.latest_release(),
        Version::Version(v) => repo.release(v.as_str()),
    };
    match found {
        Some(x) => Some(x.clone()),
        None => None,
    }
}

/// The target a path names.
pub fn get_target<P: TargetPath>(path: &P, data: &Data) -> (r: Option<crate::target::Target>)
    ensures
        r matches Some(x) ==> target_at(data@, *path) == Some(x@),
        r is None ==> target_at(data@, *path) is None,
{
    let release = match get_release(path, data) {
        Some(r) => r,
        None => {
            return None;
        },
    };
    match release.target(path.target()) {
        Some(t) => Some(t.clone()),
        None => None,
    }
}

/// The asset a path names.
pub fn get_asset<P: AssetPath>(path: &P, data: &Data) -> (r: Option<crate::asset::Asset>)
    ensures
        r matches Some(x) ==> asset_at(data@, *path) == Some(x@),
        r is None ==> asset_at(data@, *path) is None,
{
    let target = match get_target(path, data) {
        Some(t) => t,
        None => {
            return None;
        },
    };
    match target.asset(path.asset()) {
        Some(a) => Some(a.clone()),
        None => None,
    }
}

} // verus!
