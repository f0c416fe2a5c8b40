//! The set of vendor suffix tags declared in the registry, kept sorted so
//! that iterating it is deterministic.

use vstd::prelude::*;

use crate::ordmap::StrMap;

verus! {

/// The vendor tags, as a sorted set of names.
pub struct TagSet {
    pub names: StrMap<()>,
}

impl TagSet {
    /// Well-formed: the underlying index is.
    pub open spec fn wf(&self) -> bool {
        self.names.wf()
    }

    /// An empty tag set.
    pub fn new() -> (r: Self)
        ensures
            r.wf(),
            r@ == Set::<Seq<char>>::empty(),
    {
        let r = TagSet { names: StrMap::new() };
        proof {
            assert(r@ =~= Set::<Seq<char>>::empty());
        }
        r
    }

    /// Add a tag; adding one already present changes nothing.
    pub fn insert(&mut self, t: String)
        requires
            old(self).wf(),
        ensures
            final(self).wf(),
            final(self)@ == old(self)@.insert(t@),
    {
        self.names.insert(t, ());
        proof {
            assert(self@ =~= old(self)@.insert(t@));
        }
    }

    /// Whether a name is a known vendor tag.
    pub fn contains(&self, t: &str) -> (r: bool)
        requires
            self.wf(),
        ensures
            r == self@.contains(t@),
    {
        self.names.contains(t)
    }

    /// Number of tags.
    pub fn len(&self) -> (n: usize)
        requires
            self.wf(),
        ensures
            n == self.names.key_seq().len(),
    {
        self.names.len()
    }

    /// The tag at a position of the sorted iteration order.
    pub fn tag_at(&self, i: usize) -> (t: &String)
        requires
            self.wf(),
            i < self.names.key_seq().len(),
        ensures
            t@ == self.names.key_seq()[i as int],
            self@.contains(t@),
    {
        proof {
            self.names.lemma_entry_view(i as int);
        }
        self.names.key_at(i)
    }
}

impl View for TagSet {
    type V = Set<Seq<char>>;

    open spec fn view(&self) -> Set<Seq<char>> {
        self.names@.dom()
    }
}

} // verus!
