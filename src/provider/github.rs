use vstd::prelude::*;

use crate::etag::{opt_view, ETag};
use crate::names::{find_index, keys_unique, map_of, upsert, Named};
use crate::provider::Error;
use crate::release::Release;
use crate::repo::{Repo, RepoView};
use crate::text::same_text;
use client::{header_value_ok, token_header, Client, Fetched, DEFAULT_DOMAIN, ENTERPRISE_API_PATH};
use transform::Conversion;

pub mod client;
pub mod transform;

verus! {

/// The domain of the public service; any other domain is an Enterprise
/// server.
pub const PUBLIC_DOMAIN: &'static str = "github.com";

/// The API root for a provider domain.
pub open spec fn api_root(domain: Seq<char>) -> Seq<char> {
    if domain == PUBLIC_DOMAIN@ {
        DEFAULT_DOMAIN@
    } else {
        domain + ENTERPRISE_API_PATH@
    }
}

impl Named for Repo {
    open spec fn key(&self) -> Seq<char> {
        self@.name
    }

    fn key_str(&self) -> (r: &str) {
        self.name()
    }
}

/// The repositories of one owner, by name.
struct OwnerRepos {
    owner: String,
    repos: Vec<Repo>,
}

impl View for OwnerRepos {
    type V = Map<Seq<char>, RepoView>;

    closed spec fn view(&self) -> Map<Seq<char>, RepoView> {
        map_of(self.repos@)
    }
}

/// The repositories of a group are unique by name and all of its owner.
spec fn group_ok(g: OwnerRepos) -> bool {
    &&& keys_unique(g.repos@)
    &&& forall|k: Seq<char>| #[trigger] map_of(g.repos@).contains_key(k) ==> map_of(g.repos@)[k].owner == g.owner@
}

spec fn groups_ok(s: Seq<OwnerRepos>) -> bool {
    &&& keys_unique(s)
    &&& forall|i: int| 0 <= i < s.len() ==> #[trigger] group_ok(s[i])
}

/// Adds a repository to the groups, in place of the one with its owner and
/// name if there is one.
fn insert_repo(groups: &mut Vec<OwnerRepos>, repo: Repo)
    requires
        groups_ok(old(groups)@),
    ensures
        groups_ok(final(groups)@),
        map_of(final(groups)@) == nest_insert(map_of(old(groups)@), repo@.owner, repo@.name, repo@),
{
    let ghost pre = groups@;
    let ghost rv = repo@;
    proof {
        crate::names::lemma_map_of_dom(pre);
        crate::names::lemma_map_of_unique(pre);
    }
    match find_index(groups, repo.owner()) {
        Some(i) => {
            let mut g = groups.remove(i);
            proof {
                assert(g == pre[i as int]);
                assert(group_ok(pre[i as int]));
                assert(g.owner@ == rv.owner);
            }
            let ghost gpre = g.repos@;
            upsert(&mut g.repos, repo);
            proof {
                assert(group_ok(g)) by {
                    assert forall|k: Seq<char>| #[trigger] map_of(g.repos@).contains_key(k) implies map_of(
                        g.repos@,
                    )[k].owner == g.owner@ by {
                        if k != rv.name {
                            assert(map_of(gpre).contains_key(k));
                        }
                    }
                }
            }
            groups.insert(i, g);
            proof {
                assert(groups@ =~= pre.update(i as int, g));
                crate::names::lemma_map_of_update(pre, i as int, g);
                assert(groups_ok(groups@)) by {
                    assert forall|j: int| 0 <= j < groups@.len() implies #[trigger] group_ok(groups@[j]) by {
                        if j != i {
                            assert(groups@[j] == pre[j]);
                        }
                    }
                }
            }
        },
        None => {
            let owner = repo.owner().to_owned();
            let mut v: Vec<Repo> = Vec::new();
            v.push(repo);
            proof {
                assert(v@.drop_last() =~= Seq::<Repo>::empty());
                assert(map_of(Seq::<Repo>::empty()) == Map::<Seq<char>, RepoView>::empty());
                assert(v@.last()@ == rv);
                assert(map_of(v@) =~= Map::<Seq<char>, RepoView>::empty().insert(rv.name, rv));
            }
            let g = OwnerRepos { owner, repos: v };
            groups.push(g);
            proof {
                assert(groups@.drop_last() =~= pre);
                assert(groups@[groups@.len() - 1] == g);
                assert(group_ok(g));
                assert(groups_ok(groups@)) by {
                    assert forall|a: int, b: int|
                        0 <= a < groups@.len() && 0 <= b < groups@.len() && a != b implies #[trigger] groups@[a].key()
                        != #[trigger] groups@[b].key() by {
                        if a < pre.len() && b < pre.len() {
                            assert(pre[a].key() != pre[b].key());
                        } else if a < pre.len() {
                            assert(pre[a].key() != rv.owner);
                        } else {
                            assert(pre[b].key() != rv.owner);
                        }
                    }
                    assert forall|j: int| 0 <= j < groups@.len() implies #[trigger] group_ok(groups@[j]) by {
                        if j < pre.len() {
                            assert(groups@[j] == pre[j]);
                        }
                    }
                }
                assert(map_of(groups@) =~= nest_insert(map_of(pre), rv.owner, rv.name, rv));
            }
        },
    }
}

impl Named for OwnerRepos {
    closed spec fn key(&self) -> Seq<char> {
        self.owner@
    }

    fn key_str(&self) -> (r: &str) {
        self.owner.as_str()
    }
}

/// A change to one repository, published as a whole.
pub enum RepoUpdate {
    /// New releases and the entity-tag of the answer they came from.
    Releases { releases: Vec<Release>, etag: Option<ETag> },
    /// New releases; the entity-tag stays, so that the next pass asks again.
    ReleasesOnly { releases: Vec<Release> },
    /// The tag of the latest release and the entity-tag of that answer.
    Latest { tag: String, etag: Option<ETag> },
}

/// A repository after an update.
pub open spec fn applied(v: RepoView, u: RepoUpdate) -> RepoView {
    match u {
        RepoUpdate::Releases { releases, etag } => RepoView {
            releases: map_of(releases@),
            releases_etag: opt_view(etag),
            ..v
        },
        RepoUpdate::ReleasesOnly { releases } => RepoView { releases: map_of(releases@), ..v },
        RepoUpdate::Latest { tag, etag } => RepoView {
            latest: Some(tag@),
            latest_etag: opt_view(etag),
            ..v
        },
    }
}

/// Applies an update to a repository.
pub fn apply_update(repo: &mut Repo, u: RepoUpdate)
    ensures
        final(repo)@ == applied(old(repo)@, u),
{
    match u {
        RepoUpdate::Releases { releases, etag } => {
            repo.set_releases(releases);
            repo.set_releases_etag(etag);
        },
        RepoUpdate::ReleasesOnly { releases } => {
            repo.set_releases(releases);
        },
        RepoUpdate::Latest { tag, etag } => {
            repo.set_latest_release(Some(tag));
            repo.set_latest_etag(etag);
        },
    }
}

/// A repository at `(owner, name)` in a two-level map.
pub open spec fn nest_insert(
    m: Map<Seq<char>, Map<Seq<char>, RepoView>>,
    owner: Seq<char>,
    name: Seq<char>,
    v: RepoView,
) -> Map<Seq<char>, Map<Seq<char>, RepoView>> {
    let inner = if m.contains_key(owner) {
        m[owner]
    } else {
        Map::empty()
    };
    m.insert(owner, inner.insert(name, v))
}

/// The repositories by owner and name; where both repeat, the later wins.
pub open spec fn grouped(s: Seq<Repo>) -> Map<Seq<char>, Map<Seq<char>, RepoView>>
    decreases s.len(),
{
    if s.len() == 0 {
        Map::empty()
    } else {
        nest_insert(grouped(s.drop_last()), s.last()@.owner, s.last()@.name, s.last()@)
    }
}

/// The repository at `(owner, name)`, if there is one.
pub open spec fn repo_at(
    m: Map<Seq<char>, Map<Seq<char>, RepoView>>,
    owner: Seq<char>,
    name: Seq<char>,
) -> Option<RepoView> {
    if m.contains_key(owner) && m[owner].contains_key(name) {
        Some(m[owner][name])
    } else {
        None
    }
}

/// The catalog of a GitHub or GitHub Enterprise provider: its domain, the
/// client of its API, and its repositories by owner and name.
pub struct GitHub {
    domain: String,
    client: Client,
    repos: Vec<OwnerRepos>,
}

pub struct GitHubView {
    pub domain: Seq<char>,
    pub repos: Map<Seq<char>, Map<Seq<char>, RepoView>>,
}

impl View for GitHub {
    type V = GitHubView;

    closed spec fn view(&self) -> GitHubView {
        GitHubView { domain: self.domain@, repos: map_of(self.repos@) }
    }
}

/// What the releases sub-operation writes: the converted releases, and the
/// entity-tag of the answer only where every release converted. (A
/// conversion with a failed manifest fetch is not written at all: see
/// `GitHub::apply_releases`.)
pub fn releases_update(etag: Option<ETag>, conversion: Conversion) -> (r: RepoUpdate)
    ensures
        conversion.failures@.len() == 0 && conversion.fetch_errors@.len() == 0 ==> r == (
        RepoUpdate::Releases { releases: conversion.releases, etag }),
        !(conversion.failures@.len() == 0 && conversion.fetch_errors@.len() == 0) ==> r == (
        RepoUpdate::ReleasesOnly { releases: conversion.releases }),
{
    if conversion.failures.len() == 0 && conversion.fetch_errors.len() == 0 {
        RepoUpdate::Releases { releases: conversion.releases, etag }
    } else {
        RepoUpdate::ReleasesOnly { releases: conversion.releases }
    }
}

/// What the latest sub-operation writes: the tag of the latest release and
/// the entity-tag of the answer.
pub fn latest_update(etag: Option<ETag>, latest: client::Release) -> (r: RepoUpdate)
    ensures
        r == (RepoUpdate::Latest { tag: latest.tag_name, etag }),
{
    RepoUpdate::Latest { tag: latest.tag_name, etag }
}

/// No two snapshots are of the same repository.
pub open spec fn listed_once(s: Seq<Repo>) -> bool {
    forall|a: int, b: int|
        0 <= a < s.len() && 0 <= b < s.len() && a != b ==> (#[trigger] s[a]@.owner, s[a]@.name) != (
            #[trigger] s[b]@.owner,
            s[b]@.name,
        )
}

spec fn from_groups(r: Repo, groups: Seq<OwnerRepos>, n: int) -> bool {
    exists|j: int| 0 <= j < n && r@.owner == (#[trigger] groups[j]).owner@
}

spec fn from_group_prefix(r: Repo, g: OwnerRepos, k: int) -> bool {
    r@.owner == g.owner@ && exists|a: int| 0 <= a < k && r@.name == (#[trigger] g.repos@[a])@.name
}

impl GitHub {
    #[verifier::type_invariant]
    spec fn inv(&self) -> bool {
        groups_ok(self.repos@)
    }

    pub closed spec fn spec_client(&self) -> Client {
        self.client
    }

    /// A provider for `domain` with the given repositories; `github.com`
    /// uses the public API root, any other domain `{domain}/api/v3`.
    pub fn build(domain: String, oauth_token: &str, repos: Vec<Repo>) -> (r: Result<GitHub, Error>)
        ensures
            header_value_ok(token_header(oauth_token@)) ==> (r matches Ok(g) && g@ == (GitHubView {
                domain: domain@,
                repos: grouped(repos@),
            }) && g.spec_client().spec_domain() == api_root(domain@)
                && g.spec_client().spec_authorization() == token_header(oauth_token@)),
            !header_value_ok(token_header(oauth_token@)) ==> (r matches Err(
                Error::Client(client::Error::InvalidHeaderValue(n)),
            ) && n == client::AUTHORIZATION),
    {
        let built = if same_text(domain.as_str(), PUBLIC_DOMAIN) {
            Client::build(oauth_token)
        } else {
            Client::build_for_enterprise(domain.as_str(), oauth_token)
        };
        let client = match built {
            Ok(c) => c,
            Err(e) => {
                return Err(Error::Client(e));
            },
        };
        let ghost all = repos@;
        let ghost n = all.len();
        let mut rest = repos;
        let mut groups: Vec<OwnerRepos> = Vec::new();
        proof {
            assert(all.subrange(0, 0) =~= Seq::<Repo>::empty());
            assert(rest@ =~= all.subrange(0, n as int));
            assert(map_of(groups@) =~= Map::<Seq<char>, Map<Seq<char>, RepoView>>::empty());
        }
        while rest.len() > 0
            invariant
                n == all.len(),
                rest@.len() <= n,
                rest@ == all.subrange(n - rest@.len(), n as int),
                groups_ok(groups@),
                map_of(groups@) == grouped(all.subrange(0, n - rest@.len())),
            decreases rest@.len(),
        {
            let ghost done = n - rest@.len();
            let repo = rest.remove(0);
            proof {
                assert(repo == all[done]);
                assert(rest@ =~= all.subrange(done + 1, n as int));
                assert(all.subrange(0, done + 1).drop_last() =~= all.subrange(0, done));
            }
            insert_repo(&mut groups, repo);
        }
        proof {
            assert(all.subrange(0, n as int) =~= all);
        }
        Ok(GitHub { domain, client, repos: groups })
    }

    pub fn domain(&self) -> (r: &str)
        ensures
            r@ == self@.domain,
    {
        self.domain.as_str()
    }

    pub fn client(&self) -> (r: &Client)
        ensures
            *r == self.spec_client(),
    {
        &self.client
    }

    /// A snapshot of the repository `owner/name`.
    pub fn repo(&self, owner: &str, name: &str) -> (r: Option<Repo>)
        ensures
            r matches Some(x) ==> repo_at(self@.repos, owner@, name@) == Some(x@),
            r is None ==> repo_at(self@.repos, owner@, name@) is None,
    {
        proof {
            use_type_invariant(self);
            crate::names::lemma_map_of_dom(self.repos@);
            crate::names::lemma_map_of_unique(self.repos@);
        }
        match find_index(&self.repos, owner) {
            Some(i) => {
                let g = &self.repos[i];
                proof {
                    assert(group_ok(self.repos@[i as int]));
                }
                match crate::names::find(&g.repos, name) {
                    Some(x) => Some(x.clone()),
                    None => None,
                }
            },
            None => None,
        }
    }

    /// Snapshots of all repositories, each once.
    pub fn repos(&self) -> (r: Vec<Repo>)
        ensures
            forall|a: int, b: int|
                0 <= a < r@.len() && 0 <= b < r@.len() && a != b ==> (r@[a]@.owner, r@[a]@.name) != (
                    r@[b]@.owner,
                    r@[b]@.name,
                ),
            forall|i: int|
                0 <= i < r@.len() ==> repo_at(self@.repos, (#[trigger] r@[i])@.owner, r@[i]@.name)
                    == Some(r@[i]@),
            forall|o: Seq<char>, nm: Seq<char>|
                #[trigger] repo_at(self@.repos, o, nm) is Some ==> exists|i: int|
                    0 <= i < r@.len() && (#[trigger] r@[i])@.owner == o && r@[i]@.name == nm,
    {
        proof {
            use_type_invariant(self);
            crate::names::lemma_map_of_dom(self.repos@);
            crate::names::lemma_map_of_unique(self.repos@);
        }
        let groups = &self.repos;
        let ng = groups.len();
        let mut out: Vec<Repo> = Vec::new();
        let mut gi: usize = 0;
        while gi < ng
            invariant
                ng == groups@.len(),
                groups@ == self.repos@,
                groups_ok(groups@),
                gi <= ng,
                forall|k: Seq<char>|
                    #[trigger] map_of(groups@).contains_key(k) ==> exists|j: int|
                        0 <= j < groups@.len() && #[trigger] groups@[j].key() == k,
                forall|j: int|
                    0 <= j < groups@.len() ==> map_of(groups@).contains_key(#[trigger] groups@[j].key())
                        && map_of(groups@)[groups@[j].key()] == groups@[j]@,
                forall|i: int|
                    0 <= i < out@.len() ==> repo_at(map_of(groups@), (#[trigger] out@[i])@.owner, out@[i]@.name)
                        == Some(out@[i]@),
                forall|j: int, nm: Seq<char>|
                    0 <= j < gi && #[trigger] map_of(groups@[j].repos@).contains_key(nm) ==> exists|i: int|
                        0 <= i < out@.len() && (#[trigger] out@[i])@.owner == groups@[j].owner@ && out@[i]@.name == nm,
                listed_once(out@),
                forall|i: int| 0 <= i < out@.len() ==> from_groups(#[trigger] out@[i], groups@, gi as int),
            decreases ng - gi,
        {
            let g = &groups[gi];
            proof {
                assert(group_ok(groups@[gi as int]));
                assert(groups@[gi as int].key() == g.owner@);
                assert(groups@[gi as int]@ == map_of(g.repos@));
                assert(map_of(groups@).contains_key(groups@[gi as int].key()));
                crate::names::lemma_map_of_dom(g.repos@);
                crate::names::lemma_map_of_unique(g.repos@);
            }
            let nr = g.repos.len();
            let mut ri: usize = 0;
            while ri < nr
                invariant
                    ng == groups@.len(),
                    gi < ng,
                    *g == groups@[gi as int],
                    group_ok(*g),
                    nr == g.repos@.len(),
                    ri <= nr,
                    map_of(groups@).contains_key(g.owner@),
                    map_of(groups@)[g.owner@] == map_of(g.repos@),
                    forall|a: int|
                        0 <= a < g.repos@.len() ==> map_of(g.repos@).contains_key(#[trigger] g.repos@[a].key())
                            && map_of(g.repos@)[g.repos@[a].key()] == g.repos@[a]@,
                    forall|i: int|
                        0 <= i < out@.len() ==> repo_at(map_of(groups@), (#[trigger] out@[i])@.owner, out@[i]@.name)
                            == Some(out@[i]@),
                    forall|j: int, nm: Seq<char>|
                        0 <= j < gi && #[trigger] map_of(groups@[j].repos@).contains_key(nm) ==> exists|i: int|
                            0 <= i < out@.len() && (#[trigger] out@[i])@.owner == groups@[j].owner@ && out@[i]@.name == nm,
                    forall|a: int|
                        0 <= a < ri ==> exists|i: int|
                            0 <= i < out@.len() && (#[trigger] out@[i])@.owner == g.owner@ && out@[i]@.name
                                == (#[trigger] g.repos@[a])@.name,
                    groups_ok(groups@),
                    listed_once(out@),
                    forall|i: int|
                        0 <= i < out@.len() ==> from_groups(#[trigger] out@[i], groups@, gi as int)
                            || from_group_prefix(out@[i], *g, ri as int),
                decreases nr - ri,
            {
                let x = g.repos[ri].clone();
                let ghost before = out@;
                proof {
                    let a = ri as int;
                    assert(map_of(g.repos@).contains_key(g.repos@[a].key()));
                    assert(map_of(g.repos@)[g.repos@[a].key()].owner == g.owner@);
                }
                out.push(x);
                proof {
                    assert(forall|i: int| 0 <= i < before.len() ==> out@[i] == before[i]);
                    assert(out@[before.len() as int] == x);
                    assert(x@.owner == g.owner@);
                    assert(keys_unique(g.repos@));
                    assert forall|i: int| 0 <= i < before.len() implies (before[i]@.owner, before[i]@.name) != (
                        x@.owner,
                        x@.name,
                    ) by {
                        if from_groups(before[i], groups@, gi as int) {
                            let j = choose|j: int| 0 <= j < gi && before[i]@.owner == (#[trigger] groups@[j]).owner@;
                            assert(groups@[j].key() != groups@[gi as int].key());
                        } else {
                            assert(from_group_prefix(before[i], *g, ri as int));
                            let a = choose|a: int| 0 <= a < ri && before[i]@.name == (#[trigger] g.repos@[a])@.name;
                            assert(g.repos@[a].key() != g.repos@[ri as int].key());
                        }
                    }
                    assert(listed_once(out@)) by {
                        assert forall|a: int, b: int|
                            0 <= a < out@.len() && 0 <= b < out@.len() && a != b implies (
                                #[trigger] out@[a]@.owner,
                                out@[a]@.name,
                            ) != (#[trigger] out@[b]@.owner, out@[b]@.name) by {
                            if a < before.len() && b < before.len() {
                                assert(out@[a] == before[a] && out@[b] == before[b]);
                            } else if a < before.len() {
                                assert(out@[a] == before[a]);
                            } else {
                                assert(out@[b] == before[b]);
                            }
                        }
                    }
                    assert forall|i: int|
                        0 <= i < out@.len() implies from_groups(#[trigger] out@[i], groups@, gi as int)
                            || from_group_prefix(out@[i], *g, ri + 1) by {
                        if i < before.len() {
                            assert(out@[i] == before[i]);
                            if from_group_prefix(before[i], *g, ri as int) {
                                let a = choose|a: int| 0 <= a < ri && before[i]@.name == (#[trigger] g.repos@[a])@.name;
                                assert(0 <= a < ri + 1);
                            }
                        } else {
                            assert(out@[i]@.name == g.repos@[ri as int]@.name);
                        }
                    }
                    assert forall|a: int| 0 <= a < ri + 1 implies exists|i: int|
                        0 <= i < out@.len() && (#[trigger] out@[i])@.owner == g.owner@ && out@[i]@.name
                            == (#[trigger] g.repos@[a])@.name by {
                        if a < ri {
                            let i = choose|i: int|
                                0 <= i < before.len() && (#[trigger] before[i])@.owner == g.owner@ && before[i]@.name
                                    == g.repos@[a]@.name;
                            assert(out@[i] == before[i]);
                        } else {
                            assert(out@[before.len() as int]@.name == g.repos@[a]@.name);
                        }
                    }
                    assert forall|j: int, nm: Seq<char>|
                        0 <= j < gi && #[trigger] map_of(groups@[j].repos@).contains_key(nm) implies exists|i: int|
                            0 <= i < out@.len() && (#[trigger] out@[i])@.owner == groups@[j].owner@ && out@[i]@.name == nm by {
                        let i = choose|i: int|
                            0 <= i < before.len() && (#[trigger] before[i])@.owner == groups@[j].owner@ && before[i]@.name == nm;
                        assert(out@[i] == before[i]);
                    }
                }
                ri = ri + 1;
            }
            proof {
                assert forall|i: int| 0 <= i < out@.len() implies from_groups(#[trigger] out@[i], groups@, gi + 1) by {
                    if !from_groups(out@[i], groups@, gi as int) {
                        assert(from_group_prefix(out@[i], *g, nr as int));
                        assert(out@[i]@.owner == groups@[gi as int].owner@);
                    } else {
                        let j = choose|j: int| 0 <= j < gi && out@[i]@.owner == (#[trigger] groups@[j]).owner@;
                        assert(0 <= j < gi + 1);
                    }
                }
                assert forall|j: int, nm: Seq<char>|
                    0 <= j < gi + 1 && #[trigger] map_of(groups@[j].repos@).contains_key(nm) implies exists|i: int|
                        0 <= i < out@.len() && (#[trigger] out@[i])@.owner == groups@[j].owner@ && out@[i]@.name == nm by {
                    if j == gi {
                        let a = choose|a: int| 0 <= a < g.repos@.len() && #[trigger] g.repos@[a].key() == nm;
                        assert(g.repos@[a]@.name == nm);
                    }
                }
            }
            gi = gi + 1;
        }
        proof {
            assert forall|o: Seq<char>, nm: Seq<char>|
                #[trigger] repo_at(self@.repos, o, nm) is Some implies exists|i: int|
                    0 <= i < out@.len() && (#[trigger] out@[i])@.owner == o && out@[i]@.name == nm by {
                let j = choose|j: int| 0 <= j < groups@.len() && #[trigger] groups@[j].key() == o;
                assert(map_of(groups@)[o] == groups@[j]@);
                assert(map_of(groups@[j].repos@).contains_key(nm));
            }
        }
        out
    }

    /// Publishes `update` applied to the repository `owner/name` as one new
    /// value; every other repository stays as it was.
    pub fn replace_repo(&mut self, owner: &str, name: &str, update: RepoUpdate) -> (r: Result<(), Error>)
        ensures
            repo_at(old(self)@.repos, owner@, name@) matches Some(v) ==> (r is Ok && final(self)@ == (GitHubView {
                repos: nest_insert(old(self)@.repos, owner@, name@, applied(v, update)),
                ..old(self)@
            })),
            repo_at(old(self)@.repos, owner@, name@) is None ==> (r matches Err(Error::RepoNotFound)
                && final(self)@ == old(self)@),
            final(self).spec_client() == old(self).spec_client(),
    {
        proof {
            use_type_invariant(&*self);
        }
        let mut groups: Vec<OwnerRepos> = Vec::new();
        std::mem::swap(&mut self.repos, &mut groups);
        let ghost pre = groups@;
        proof {
            crate::names::lemma_map_of_dom(pre);
            crate::names::lemma_map_of_unique(pre);
        }
        let gi = match find_index(&groups, owner) {
            Some(i) => i,
            None => {
                self.repos = groups;
                return Err(Error::RepoNotFound);
            },
        };
        let mut g = groups.remove(gi);
        let ghost gpre = g;
        proof {
            assert(g == pre[gi as int]);
            assert(group_ok(g));
            assert(map_of(pre)[owner@] == map_of(g.repos@));
            crate::names::lemma_map_of_dom(g.repos@);
            crate::names::lemma_map_of_unique(g.repos@);
        }
        let ri = match find_index(&g.repos, name) {
            Some(i) => i,
            None => {
                groups.insert(gi, g);
                proof {
                    assert(groups@ =~= pre);
                }
                self.repos = groups;
                return Err(Error::RepoNotFound);
            },
        };
        let mut repo = g.repos.remove(ri);
        proof {
            assert(repo == gpre.repos@[ri as int]);
        }
        let ghost v = repo@;
        apply_update(&mut repo, update);
        let ghost nv = repo@;
        g.repos.insert(ri, repo);
        proof {
            assert(g.repos@ =~= gpre.repos@.update(ri as int, repo));
            crate::names::lemma_map_of_update(gpre.repos@, ri as int, repo);
            assert(group_ok(g)) by {
                assert forall|k: Seq<char>| #[trigger] map_of(g.repos@).contains_key(k) implies map_of(
                    g.repos@,
                )[k].owner == g.owner@ by {
                    if k != name@ {
                        assert(map_of(gpre.repos@).contains_key(k));
                    }
                }
            }
            assert(g.key() == gpre.key());
        }
        groups.insert(gi, g);
        proof {
            assert(groups@ =~= pre.update(gi as int, g));
            crate::names::lemma_map_of_update(pre, gi as int, g);
            assert(groups_ok(groups@)) by {
                assert forall|j: int| 0 <= j < groups@.len() implies #[trigger] group_ok(groups@[j]) by {
                    if j != gi {
                        assert(groups@[j] == pre[j]);
                    }
                }
            }
            assert(map_of(groups@) =~= nest_insert(map_of(pre), owner@, name@, nv));
        }
        self.repos = groups;
        Ok(())
    }

    /// The entity-tags of the last answers received for `owner/name`: for
    /// its releases and for its latest release.
    pub fn prior_etags(&self, owner: &str, name: &str) -> (r: Result<(Option<ETag>, Option<ETag>), Error>)
        ensures
            repo_at(self@.repos, owner@, name@) matches Some(v) ==> (r matches Ok(p) && opt_view(p.0)
                == v.releases_etag && opt_view(p.1) == v.latest_etag),
            repo_at(self@.repos, owner@, name@) is None ==> r matches Err(Error::RepoNotFound),
    {
        match self.repo(owner, name) {
            Some(repo) => {
                let a = match repo.releases_etag() {
                    Some(e) => Some(e.clone()),
                    None => None,
                };
                let b = match repo.latest_etag() {
                    Some(e) => Some(e.clone()),
                    None => None,
                };
                Ok((a, b))
            },
            None => Err(Error::RepoNotFound),
        }
    }

    /// Applies the outcome of the releases sub-operation for `owner/name`.
    /// Only a modified answer changes the catalog; the others are reported.
    pub fn apply_releases(&mut self, owner: &str, name: &str, fetched: Fetched<Conversion>) -> (r: Result<(), Error>)
        ensures
            fetched is NotModified ==> (r is Ok && final(self)@ == old(self)@),
            fetched is NotFound ==> (r matches Err(Error::Client(client::Error::NotFound))
                && final(self)@ == old(self)@),
            fetched is Failed ==> (r matches Err(Error::Client(_)) && final(self)@ == old(self)@),
            fetched matches Fetched::Modified(resp) ==> (resp.spec_payload().fetch_errors@.len() > 0 ==> (r matches Err(
                Error::Client(_),
            ) && final(self)@ == old(self)@)),
            fetched matches Fetched::Modified(resp) ==> (resp.spec_payload().fetch_errors@.len() == 0 ==> match repo_at(old(self)@.repos, owner@, name@) {
                Some(v) => r is Ok && final(self)@ == (GitHubView {
                    repos: nest_insert(
                        old(self)@.repos,
                        owner@,
                        name@,
                        applied(v, if resp.spec_payload().failures@.len() == 0 && resp.spec_payload().fetch_errors@.len() == 0 {
                            RepoUpdate::Releases {
                                releases: resp.spec_payload().releases,
                                etag: resp.spec_etag(),
                            }
                        } else {
                            RepoUpdate::ReleasesOnly { releases: resp.spec_payload().releases }
                        }),
                    ),
                    ..old(self)@
                }),
                None => (r matches Err(Error::RepoNotFound) && final(self)@ == old(self)@),
            }),
    {
        match fetched {
            Fetched::NotModified => Ok(()),
            Fetched::NotFound => Err(Error::Client(client::Error::NotFound)),
            Fetched::Failed(e) => Err(Error::Client(e)),
            Fetched::Modified(resp) => {
                let (etag, mut conversion) = resp.into_parts();
                if conversion.fetch_errors.len() > 0 {
                    let (_, e) = conversion.fetch_errors.remove(0);
                    return Err(Error::Client(e));
                }
                let update = releases_update(etag, conversion);
                self.replace_repo(owner, name, update)
            },
        }
    }

    /// Applies the outcome of the latest sub-operation for `owner/name`.
    /// Only a modified answer changes the catalog; the others are reported.
    pub fn apply_latest(&mut self, owner: &str, name: &str, fetched: Fetched<client::Release>) -> (r: Result<(), Error>)
        ensures
            fetched is NotModified ==> (r is Ok && final(self)@ == old(self)@),
            fetched is NotFound ==> (r matches Err(Error::Client(client::Error::NotFound))
                && final(self)@ == old(self)@),
            fetched is Failed ==> (r matches Err(Error::Client(_)) && final(self)@ == old(self)@),
            fetched matches Fetched::Modified(resp) ==> match repo_at(old(self)@.repos, owner@, name@) {
                Some(v) => r is Ok && final(self)@ == (GitHubView {
                    repos: nest_insert(
                        old(self)@.repos,
                        owner@,
                        name@,
                        applied(
                            v,
                            RepoUpdate::Latest { tag: resp.spec_payload().tag_name, etag: resp.spec_etag() },
                        ),
                    ),
                    ..old(self)@
                }),
                None => (r matches Err(Error::RepoNotFound) && final(self)@ == old(self)@),
            },
    {
        match fetched {
            Fetched::NotModified => Ok(()),
            Fetched::NotFound => Err(Error::Client(client::Error::NotFound)),
            Fetched::Failed(e) => Err(Error::Client(e)),
            Fetched::Modified(resp) => {
                let (etag, latest) = resp.into_parts();
                let update = latest_update(etag, latest);
                self.replace_repo(owner, name, update)
            },
        }
    }
}

/// After a releases answer whose releases all converted, the repository
/// holds exactly those releases and the answer's entity-tag; nothing else
/// of it changes.
pub proof fn lemma_etag_advance(v: RepoView, releases: Vec<Release>, etag: Option<ETag>)
    ensures
        applied(v, RepoUpdate::Releases { releases, etag }).releases == map_of(releases@),
        applied(v, RepoUpdate::Releases { releases, etag }).releases_etag == opt_view(etag),
        applied(v, RepoUpdate::Releases { releases, etag }).latest == v.latest,
        applied(v, RepoUpdate::Releases { releases, etag }).latest_etag == v.latest_etag,
{
}

/// A snapshot read after `replace_repo` sees the whole new value of that
/// repository, and the previous value of every other.
pub proof fn lemma_read_after_replace(
    m: Map<Seq<char>, Map<Seq<char>, RepoView>>,
    owner: Seq<char>,
    name: Seq<char>,
    v: RepoView,
    o2: Seq<char>,
    n2: Seq<char>,
)
    ensures
        repo_at(nest_insert(m, owner, name, v), owner, name) == Some(v),
        (o2, n2) != (owner, name) ==> repo_at(nest_insert(m, owner, name, v), o2, n2) == repo_at(m, o2, n2),
{
}

/// An answer with new releases, every one of whose published releases
/// converted, replaces the repository's releases wholesale: afterwards it
/// holds a release under the tag of each published release and under no
/// other tag; under each tag, the conversion of the last published release
/// with that tag (so, where tags are distinct, of its own upstream release:
/// its id, tag and targets); the entity-tag is the answer's, and the
/// latest tag and its entity-tag are unchanged.
pub proof fn lemma_releases_answer_installed(
    v: RepoView,
    raw: Seq<client::Release>,
    mss: Seq<Result<Vec<client::Manifest>, client::Error>>,
    releases: Vec<Release>,
    etag: Option<ETag>,
)
    requires
        mss.len() == transform::published(raw).len(),
        transform::release_views(releases@) == transform::converted(
            transform::published(raw),
            mss,
            transform::paired(transform::published(raw).len() as int, mss.len() as int),
        ),
        transform::all_convert(
            transform::published(raw),
            mss,
            transform::paired(transform::published(raw).len() as int, mss.len() as int),
        ),
    ensures
        ({
            let ps = transform::published(raw);
            let after = applied(v, RepoUpdate::Releases { releases, etag });
            &&& after.releases_etag == opt_view(etag)
            &&& after.latest == v.latest
            &&& after.latest_etag == v.latest_etag
            &&& after.owner == v.owner
            &&& after.name == v.name
            &&& forall|t: Seq<char>|
                #[trigger] after.releases.contains_key(t) <==> exists|i: int|
                    0 <= i < ps.len() && #[trigger] ps[i].tag_name@ == t
            &&& forall|t: Seq<char>|
                #[trigger] after.releases.contains_key(t) ==> exists|i: int|
                    0 <= i < ps.len() && ps[i].tag_name@ == t && after.releases[t]
                        == transform::release_outcome(ps[i], mss[i])->0 && forall|i2: int|
                        i < i2 < ps.len() ==> #[trigger] ps[i2].tag_name@ != t
            &&& (forall|a: int, b: int|
                0 <= a < ps.len() && 0 <= b < ps.len() && a != b ==> #[trigger] ps[a].tag_name@
                    != #[trigger] ps[b].tag_name@) ==> forall|i: int|
                0 <= i < ps.len() ==> after.releases[#[trigger] ps[i].tag_name@] == transform::release_outcome(
                    ps[i],
                    mss[i],
                )->0 && after.releases[ps[i].tag_name@].id == ps[i].id
        }),
{
    let ps = transform::published(raw);
    let k = ps.len() as int;
    transform::lemma_all_convert_pointwise(ps, mss, k);
    let rs = releases@;
    let c = transform::converted(ps, mss, k);
    assert(rs.len() == c.len()) by {
        assert(transform::release_views(rs).len() == rs.len());
    }
    assert forall|i: int| 0 <= i < rs.len() implies #[trigger] rs[i].key() == ps[i].tag_name@ && rs[i]@
        == transform::release_outcome(ps[i], mss[i])->0 by {
        assert(transform::release_views(rs)[i] == rs[i]@);
        assert(c[i] == transform::release_outcome(ps[i], mss[i])->0);
    }
    crate::names::lemma_map_of_dom(rs);
    crate::names::lemma_map_of_last(rs);
    assert forall|t: Seq<char>| #[trigger] map_of(rs).contains_key(t) implies exists|i: int|
        0 <= i < ps.len() && ps[i].tag_name@ == t && map_of(rs)[t] == transform::release_outcome(
            ps[i],
            mss[i],
        )->0 && forall|i2: int| i < i2 < ps.len() ==> #[trigger] ps[i2].tag_name@ != t by {
        let j = choose|j: int|
            0 <= j < rs.len() && rs[j].key() == t && map_of(rs)[t] == rs[j]@ && forall|j2: int|
                j < j2 < rs.len() ==> #[trigger] rs[j2].key() != t;
        assert(rs[j].key() == ps[j].tag_name@);
        assert forall|i2: int| j < i2 < ps.len() implies #[trigger] ps[i2].tag_name@ != t by {
            assert(rs[i2].key() == ps[i2].tag_name@);
            assert(rs[i2].key() != t);
        }
    }
    assert forall|t: Seq<char>| #[trigger] map_of(rs).contains_key(t) <==> exists|i: int|
        0 <= i < ps.len() && #[trigger] ps[i].tag_name@ == t by {
        if map_of(rs).contains_key(t) {
            let i = choose|i: int| 0 <= i < rs.len() && #[trigger] rs[i].key() == t;
            assert(ps[i].tag_name@ == t);
        }
        if exists|i: int| 0 <= i < ps.len() && #[trigger] ps[i].tag_name@ == t {
            let i = choose|i: int| 0 <= i < ps.len() && #[trigger] ps[i].tag_name@ == t;
            assert(rs[i].key() == t);
        }
    }
    if forall|a: int, b: int|
        0 <= a < ps.len() && 0 <= b < ps.len() && a != b ==> #[trigger] ps[a].tag_name@
            != #[trigger] ps[b].tag_name@ {
        assert(keys_unique(rs)) by {
            assert forall|a: int, b: int|
                0 <= a < rs.len() && 0 <= b < rs.len() && a != b implies #[trigger] rs[a].key()
                != #[trigger] rs[b].key() by {
                assert(ps[a].tag_name@ != ps[b].tag_name@);
            }
        }
        crate::names::lemma_map_of_unique(rs);
        assert forall|i: int| 0 <= i < ps.len() implies map_of(rs)[#[trigger] ps[i].tag_name@]
            == transform::release_outcome(ps[i], mss[i])->0 && map_of(rs)[ps[i].tag_name@].id == ps[i].id by {
            assert(rs[i].key() == ps[i].tag_name@);
        }
    }
}

} // verus!
