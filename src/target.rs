use vstd::prelude::*;

use crate::asset::{Asset, AssetView};
use crate::names::{find, index_by_name, keys_unique, map_of, upsert, Named};

verus! {

/// A platform (such as `linux-x86_64`) of a release, with its assets by name.
pub struct Target {
    name: String,
    assets: Vec<Asset>,
}

pub struct TargetView {
    pub name: Seq<char>,
    pub assets: Map<Seq<char>, AssetView>,
}

impl View for Target {
    type V = TargetView;

    closed spec fn view(&self) -> TargetView {
        TargetView { name: self.name@, assets: map_of(self.assets@) }
    }
}

impl Target {
    #[verifier::type_invariant]
    spec fn inv(&self) -> bool {
        keys_unique(self.assets@)
    }

    pub fn new(name: String) -> (r: Target)
        ensures
            r@.name == name@,
            r@.assets == Map::<Seq<char>, AssetView>::empty(),
    {
        Target { name, assets: Vec::new() }
    }

    pub fn name(&self) -> (r: &str)
        ensures
            r@ == self@.name,
    {
        self.name.as_str()
    }

    /// Each asset once, in no particular order.
    pub fn assets(&self) -> (r: &Vec<Asset>)
        ensures
            keys_unique(r@),
            map_of(r@) == self@.assets,
    {
        proof {
            use_type_invariant(self);
        }
        &self.assets
    }

    pub fn asset(&self, name: &str) -> (r: Option<&Asset>)
        ensures
            r matches Some(a) ==> self@.assets.contains_key(name@) && self@.assets[name@] == a@,
            r is None ==> !self@.assets.contains_key(name@),
    {
        proof {
            use_type_invariant(self);
        }
        find(&self.assets, name)
    }

    /// Replaces the assets; where names repeat, the later asset wins.
    pub fn set_assets(&mut self, vec: Vec<Asset>)
        ensures
            final(self)@.name == old(self)@.name,
            final(self)@.assets == map_of(vec@),
    {
        self.assets = index_by_name(vec);
    }

    /// Adds `asset`, in place of the one with its name if there is one.
    pub fn push_asset(&mut self, asset: Asset)
        ensures
            final(self)@.name == old(self)@.name,
            final(self)@.assets == old(self)@.assets.insert(asset@.name, asset@),
    {
        proof {
            use_type_invariant(&*self);
        }
        let mut assets = self.assets.clone();
        proof {
            assert(assets@ =~= self.assets@);
        }
        upsert(&mut assets, asset);
        self.assets = assets;
    }
}

impl Clone for Target {
    fn clone(&self) -> (r: Target)
        ensures
            r@ == self@,
    {
        proof {
            use_type_invariant(self);
        }
        let assets = self.assets.clone();
        proof {
            assert(assets@ =~= self.assets@);
        }
        Target { name: self.name.clone(), assets }
    }
}

impl Named for Target {
    open spec fn key(&self) -> Seq<char> {
        self@.name
    }

    fn key_str(&self) -> (r: &str) {
        self.name.as_str()
    }
}

/// Targets are the same target when they have the same name.
impl PartialEq for Target {
    fn eq(&self, other: &Target) -> (r: bool) {
        self.name == other.name
    }
}

impl vstd::std_specs::cmp::PartialEqSpecImpl for Target {
    open spec fn obeys_eq_spec() -> bool {
        true
    }

    open spec fn eq_spec(&self, other: &Target) -> bool {
        self@.name == other@.name
    }
}

impl Eq for Target {
}

} // verus!
