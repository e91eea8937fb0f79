use vstd::prelude::*;

use crate::provider::github::GitHubView;
use crate::provider::Provider;
use crate::registry::Registry;

verus! {

/// What the HTTP layer answers from: the registry of providers.
pub struct Data {
    registry: Registry,
}

impl View for Data {
    type V = Map<Seq<char>, GitHubView>;

    closed spec fn view(&self) -> Map<Seq<char>, GitHubView> {
        self.registry@
    }
}

impl Data {
    pub fn new(registry: Registry) -> (r: Data)
        ensures
            r@ == registry@,
    {
        Data { registry }
    }

    pub fn provider(&self, key: &str) -> (r: Option<&Provider>)
        ensures
            r matches Some(p) ==> self@.contains_key(key@) && self@[key@] == p@,
            r is None ==> !self@.contains_key(key@),
    {
        self.registry.get(key)
    }

    /// Each provider once, in no particular order.
    pub fn providers(&self) -> (r: &Vec<Provider>)
        ensures
            crate::names::keys_unique(r@),
            crate::names::map_of(r@) == self@,
    {
        self.registry.iter()
    }

    /// Takes the provider of `key` out, to change it and register it again.
    pub fn take_provider(&mut self, key: &str) -> (r: Option<Provider>)
        ensures
            r matches Some(p) ==> old(self)@.contains_key(key@) && old(self)@[key@] == p@ && p@.domain
                == key@ && final(self)@ == old(self)@.remove(key@),
            r is None ==> !old(self)@.contains_key(key@) && final(self)@ == old(self)@,
    {
        self.registry.take(key)
    }

    pub fn register(&mut self, provider: Provider)
        ensures
            final(self)@ == old(self)@.insert(provider@.domain, provider@),
    {
        self.registry.register(provider)
    }
}

} // verus!
