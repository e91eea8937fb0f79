use vstd::prelude::*;

use crate::names::{find, index_by_name, keys_unique, lemma_map_of_views, map_of, Named};
use crate::target::{Target, TargetView};

verus! {

/// A published version of a repository: the upstream's id, its tag, and its
/// targets by name.
pub struct Release {
    id: u64,
    name: String,
    targets: Vec<Target>,
}

pub struct ReleaseView {
    pub id: u64,
    pub name: Seq<char>,
    pub targets: Map<Seq<char>, TargetView>,
}

impl View for Release {
    type V = ReleaseView;

    closed spec fn view(&self) -> ReleaseView {
        ReleaseView { id: self.id, name: self.name@, targets: map_of(self.targets@) }
    }
}

impl Release {
    #[verifier::type_invariant]
    spec fn inv(&self) -> bool {
        keys_unique(self.targets@)
    }

    pub fn new(id: u64, name: String) -> (r: Release)
        ensures
            r@.id == id,
            r@.name == name@,
            r@.targets == Map::<Seq<char>, TargetView>::empty(),
    {
        Release { id, name, targets: Vec::new() }
    }

    pub fn id(&self) -> (r: u64)
        ensures
            r == self@.id,
    {
        self.id
    }

    /// The tag, the name under which the release is known.
    pub fn name(&self) -> (r: &str)
        ensures
            r@ == self@.name,
    {
        self.name.as_str()
    }

    /// Each target once, in no particular order.
    pub fn targets(&self) -> (r: &Vec<Target>)
        ensures
            keys_unique(r@),
            map_of(r@) == self@.targets,
    {
        proof {
            use_type_invariant(self);
        }
        &self.targets
    }

    pub fn target(&self, name: &str) -> (r: Option<&Target>)
        ensures
            r matches Some(t) ==> self@.targets.contains_key(name@) && self@.targets[name@] == t@,
            r is None ==> !self@.targets.contains_key(name@),
    {
        proof {
            use_type_invariant(self);
        }
        find(&self.targets, name)
    }

    /// Replaces the targets; where names repeat, the later target wins.
    pub fn set_targets(&mut self, vec: Vec<Target>)
        ensures
            final(self)@.id == old(self)@.id,
            final(self)@.name == old(self)@.name,
            final(self)@.targets == map_of(vec@),
    {
        self.targets = index_by_name(vec);
    }
}

impl Clone for Release {
    fn clone(&self) -> (r: Release)
        ensures
            r@ == self@,
    {
        proof {
            use_type_invariant(self);
        }
        let targets = self.targets.clone();
        proof {
            lemma_map_of_views(targets@, self.targets@);
            assert forall|i: int, j: int|
                0 <= i < targets@.len() && 0 <= j < targets@.len() && i != j implies #[trigger] targets@[i].key()
                != #[trigger] targets@[j].key() by {
                assert(self.targets@[i].key() != self.targets@[j].key());
            }
        }
        Release { id: self.id, name: self.name.clone(), targets }
    }
}

impl Named for Release {
    open spec fn key(&self) -> Seq<char> {
        self@.name
    }

    fn key_str(&self) -> (r: &str) {
        self.name.as_str()
    }
}

/// Releases are the same release when the upstream gave them the same id.
impl PartialEq for Release {
    fn eq(&self, other: &Release) -> (r: bool) {
        self.id == other.id
    }
}

impl vstd::std_specs::cmp::PartialEqSpecImpl for Release {
    open spec fn obeys_eq_spec() -> bool {
        true
    }

    open spec fn eq_spec(&self, other: &Release) -> bool {
        self@.id == other@.id
    }
}

impl Eq for Release {
}

} // verus!
