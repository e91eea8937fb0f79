use vstd::prelude::*;

use crate::names::{find, find_index, keys_unique, lemma_map_of_remove, map_of, upsert};
use crate::provider::github::GitHubView;
use crate::provider::Provider;

verus! {

/// The providers of the catalog, by domain.
pub struct Registry {
    providers: Vec<Provider>,
}

impl View for Registry {
    type V = Map<Seq<char>, GitHubView>;

    closed spec fn view(&self) -> Map<Seq<char>, GitHubView> {
        map_of(self.providers@)
    }
}

impl Registry {
    #[verifier::type_invariant]
    spec fn inv(&self) -> bool {
        keys_unique(self.providers@)
    }

    pub fn new() -> (r: Registry)
        ensures
            r@ == Map::<Seq<char>, GitHubView>::empty(),
    {
        Registry { providers: Vec::new() }
    }

    /// Adds a provider, in place of the one with its domain if there is one.
    pub fn register(&mut self, provider: Provider)
        ensures
            final(self)@ == old(self)@.insert(provider@.domain, provider@),
    {
        proof {
            use_type_invariant(&*self);
        }
        let mut providers: Vec<Provider> = Vec::new();
        std::mem::swap(&mut self.providers, &mut providers);
        upsert(&mut providers, provider);
        self.providers = providers;
    }

    pub fn get(&self, key: &str) -> (r: Option<&Provider>)
        ensures
            r matches Some(p) ==> self@.contains_key(key@) && self@[key@] == p@,
            r is None ==> !self@.contains_key(key@),
    {
        proof {
            use_type_invariant(self);
        }
        find(&self.providers, key)
    }

    /// Each provider once, in no particular order.
    pub fn iter(&self) -> (r: &Vec<Provider>)
        ensures
            keys_unique(r@),
            map_of(r@) == self@,
    {
        proof {
            use_type_invariant(self);
        }
        &self.providers
    }

    /// Takes the provider of `key` out, to change it and register it again.
    pub fn take(&mut self, key: &str) -> (r: Option<Provider>)
        ensures
            r matches Some(p) ==> old(self)@.contains_key(key@) && old(self)@[key@] == p@ && p@.domain
                == key@ && final(self)@ == old(self)@.remove(key@),
            r is None ==> !old(self)@.contains_key(key@) && final(self)@ == old(self)@,
    {
        proof {
            use_type_invariant(&*self);
            crate::names::lemma_map_of_dom(self.providers@);
            crate::names::lemma_map_of_unique(self.providers@);
        }
        match find_index(&self.providers, key) {
            Some(i) => {
                let mut providers: Vec<Provider> = Vec::new();
                std::mem::swap(&mut self.providers, &mut providers);
                let ghost pre = providers@;
                proof {
                    lemma_map_of_remove(pre, i as int);
                }
                let p = providers.remove(i);
                self.providers = providers;
                Some(p)
            },
            None => None,
        }
    }
}

impl Default for Registry {
    fn default() -> (r: Registry)
        ensures
            r@ == Map::<Seq<char>, GitHubView>::empty(),
    {
        Registry::new()
    }
}

} // verus!
