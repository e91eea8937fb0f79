use vstd::prelude::*;

use crate::etag::{opt_view, ETag};
use crate::names::{find, index_by_name, keys_unique, lemma_map_of_views, map_of, Named};
use crate::release::{Release, ReleaseView};

verus! {

/// Seconds between two refreshes of a repository, unless configured otherwise.
pub const DEFAULT_INTERVAL_SECS: u64 = 30;

/// A repository of a provider: its releases by tag, the tag of its latest
/// release, and the entity-tags of the last answers received for both.
pub struct Repo {
    owner: String,
    name: String,
    releases: Vec<Release>,
    latest_id: Option<String>,
    releases_etag: Option<ETag>,
    latest_etag: Option<ETag>,
    interval: u64,
}

pub struct RepoView {
    pub owner: Seq<char>,
    pub name: Seq<char>,
    pub releases: Map<Seq<char>, ReleaseView>,
    pub latest: Option<Seq<char>>,
    pub releases_etag: Option<Seq<char>>,
    pub latest_etag: Option<Seq<char>>,
    pub interval: u64,
}

pub open spec fn opt_text(s: Option<String>) -> Option<Seq<char>> {
    match s {
        Some(t) => Some(t@),
        None => None,
    }
}

impl View for Repo {
    type V = RepoView;

    closed spec fn view(&self) -> RepoView {
        RepoView {
            owner: self.owner@,
            name: self.name@,
            releases: map_of(self.releases@),
            latest: opt_text(self.latest_id),
            releases_etag: opt_view(self.releases_etag),
            latest_etag: opt_view(self.latest_etag),
            interval: self.interval,
        }
    }
}

impl Repo {
    #[verifier::type_invariant]
    spec fn inv(&self) -> bool {
        keys_unique(self.releases@) && self.interval >= 1
    }

    /// A repository with no releases and no entity-tags yet.
    pub fn new(owner: String, name: String) -> (r: Repo)
        ensures
            r@ == (RepoView {
                owner: owner@,
                name: name@,
                releases: Map::empty(),
                latest: None,
                releases_etag: None,
                latest_etag: None,
                interval: DEFAULT_INTERVAL_SECS,
            }),
    {
        Repo {
            owner,
            name,
            releases: Vec::new(),
            latest_id: None,
            releases_etag: None,
            latest_etag: None,
            interval: DEFAULT_INTERVAL_SECS,
        }
    }

    pub fn owner(&self) -> (r: &str)
        ensures
            r@ == self@.owner,
    {
        self.owner.as_str()
    }

    pub fn name(&self) -> (r: &str)
        ensures
            r@ == self@.name,
    {
        self.name.as_str()
    }

    /// `owner/name`.
    pub fn full_name(&self) -> (r: String)
        ensures
            r@ == self@.owner + seq!['/'] + self@.name,
    {
        let mut r = self.owner.clone();
        r.append("/");
        r.append(self.name.as_str());
        proof {
            reveal_strlit("/");
        }
        r
    }

    /// Seconds between two refreshes; at least one.
    pub fn interval(&self) -> (r: u64)
        ensures
            r == self@.interval,
            r >= 1,
    {
        proof {
            use_type_invariant(self);
        }
        self.interval
    }

    /// Each release once, in no particular order.
    pub fn releases(&self) -> (r: &Vec<Release>)
        ensures
            keys_unique(r@),
            map_of(r@) == self@.releases,
    {
        proof {
            use_type_invariant(self);
        }
        &self.releases
    }

    /// Replaces the releases; where tags repeat, the later release wins.
    pub fn set_releases(&mut self, vec: Vec<Release>)
        ensures
            final(self)@ == (RepoView { releases: map_of(vec@), ..old(self)@ }),
    {
        proof {
            use_type_invariant(&*self);
        }
        self.releases = index_by_name(vec);
    }

    /// The release tagged `name`.
    pub fn release(&self, name: &str) -> (r: Option<&Release>)
        ensures
            r matches Some(x) ==> self@.releases.contains_key(name@) && self@.releases[name@] == x@,
            r is None ==> !self@.releases.contains_key(name@),
    {
        proof {
            use_type_invariant(self);
        }
        find(&self.releases, name)
    }

    /// The release that the latest tag names, where both are present.
    pub fn latest_release(&self) -> (r: Option<&Release>)
        ensures
            r matches Some(x) ==> self@.latest matches Some(t) && self@.releases.contains_key(t)
                && self@.releases[t] == x@,
            r is None ==> (self@.latest matches Some(t) ==> !self@.releases.contains_key(t)),
    {
        match &self.latest_id {
            Some(id) => self.release(id.as_str()),
            None => None,
        }
    }

    pub fn set_latest_release(&mut self, id: Option<String>)
        ensures
            final(self)@ == (RepoView { latest: opt_text(id), ..old(self)@ }),
    {
        proof {
            use_type_invariant(&*self);
        }
        self.latest_id = id;
    }

    pub fn releases_etag(&self) -> (r: Option<&ETag>)
        ensures
            r matches Some(e) ==> self@.releases_etag == Some(e@),
            r is None ==> self@.releases_etag is None,
    {
        self.releases_etag.as_ref()
    }

    pub fn set_releases_etag(&mut self, etag: Option<ETag>)
        ensures
            final(self)@ == (RepoView { releases_etag: opt_view(etag), ..old(self)@ }),
    {
        proof {
            use_type_invariant(&*self);
        }
        self.releases_etag = etag;
    }

    pub fn latest_etag(&self) -> (r: Option<&ETag>)
        ensures
            r matches Some(e) ==> self@.latest_etag == Some(e@),
            r is None ==> self@.latest_etag is None,
    {
        self.latest_etag.as_ref()
    }

    pub fn set_latest_etag(&mut self, etag: Option<ETag>)
        ensures
            final(self)@ == (RepoView { latest_etag: opt_view(etag), ..old(self)@ }),
    {
        proof {
            use_type_invariant(&*self);
        }
        self.latest_etag = etag;
    }
}

fn clone_opt_string(s: &Option<String>) -> (r: Option<String>)
    ensures
        opt_text(r) == opt_text(*s),
{
    match s {
        Some(t) => Some(t.clone()),
        None => None,
    }
}

fn clone_opt_etag(e: &Option<ETag>) -> (r: Option<ETag>)
    ensures
        opt_view(r) == opt_view(*e),
{
    match e {
        Some(t) => Some(t.clone()),
        None => None,
    }
}

impl Clone for Repo {
    fn clone(&self) -> (r: Repo)
        ensures
            r@ == self@,
    {
        proof {
            use_type_invariant(self);
        }
        let releases = self.releases.clone();
        proof {
            lemma_map_of_views(releases@, self.releases@);
            assert forall|i: int, j: int|
                0 <= i < releases@.len() && 0 <= j < releases@.len() && i != j implies #[trigger] releases@[i].key()
                != #[trigger] releases@[j].key() by {
                assert(self.releases@[i].key() != self.releases@[j].key());
            }
        }
        Repo {
            owner: self.owner.clone(),
            name: self.name.clone(),
            releases,
            latest_id: clone_opt_string(&self.latest_id),
            releases_etag: clone_opt_etag(&self.releases_etag),
            latest_etag: clone_opt_etag(&self.latest_etag),
            interval: self.interval,
        }
    }
}

/// Repositories are the same repository when owner and name agree.
impl PartialEq for Repo {
    fn eq(&self, other: &Repo) -> (r: bool) {
        self.owner == other.owner && self.name == other.name
    }
}

impl vstd::std_specs::cmp::PartialEqSpecImpl for Repo {
    open spec fn obeys_eq_spec() -> bool {
        true
    }

    open spec fn eq_spec(&self, other: &Repo) -> bool {
        self@.owner == other@.owner && self@.name == other@.name
    }
}

impl Eq for Repo {
}

} // verus!
