//! Per-entity tag sets.
//!
//! A tag ("state" in the domain vocabulary) is an arbitrary string; the set
//! of tags on an entity is the only channel by which the physics and AI
//! systems communicate behavioural facts to the rest of the engine. The set
//! is stored as a duplicate-free vector and abstracted as a `Set<Seq<char>>`.

use vstd::prelude::*;

verus! {

/// A set of tag strings, insertion-order irrelevant, uniqueness enforced.
#[derive(Debug)]
pub struct TagSet {
    items: Vec<String>,
}

impl View for TagSet {
    type V = Set<Seq<char>>;

    closed spec fn view(&self) -> Set<Seq<char>> {
        Set::new(|t: Seq<char>| exists|i: int| 0 <= i < self.items@.len() && self.items@[i]@ == t)
    }
}

impl TagSet {
    /// No two stored strings are equal.
    pub closed spec fn wf(&self) -> bool {
        forall|i: int, j: int|
            #![trigger self.items@[i]@, self.items@[j]@]
            0 <= i < j < self.items@.len() ==> self.items@[i]@ != self.items@[j]@
    }

    /// Create an empty tag set.
    pub fn new() -> (r: TagSet)
        ensures
            r@ == Set::<Seq<char>>::empty(),
            r.wf(),
    {
        let r = TagSet { items: Vec::new() };
        proof {
            assert(r@ =~= Set::<Seq<char>>::empty());
        }
        r
    }

    /// Whether the set holds the given tag.
    pub fn contains(&self, tag: &String) -> (r: bool)
        ensures
            r == self@.contains(tag@),
    {
        let n = self.items.len();
        let mut i: usize = 0;
        while i < n
            invariant
                n == self.items@.len(),
                0 <= i <= n,
                forall|j: int| 0 <= j < i ==> self.items@[j]@ != tag@,
            decreases n - i,
        {
            if self.items[i] == *tag {
                assert(self.items@[i as int]@ == tag@);
                assert(self@.contains(tag@));
                return true;
            }
            i = i + 1;
        }
        assert(!self@.contains(tag@));
        false
    }

    /// Add a tag; adding a tag that is already present changes nothing.
    pub fn insert(&mut self, tag: String)
        requires
            old(self).wf(),
        ensures
            final(self).wf(),
            final(self)@ == old(self)@.insert(tag@),
    {
        if self.contains(&tag) {
            proof {
                assert(self@ =~= old(self)@.insert(tag@));
            }
        } else {
            self.items.push(tag);
            proof {
                assert forall|p: int, q: int|
                    #![trigger self.items@[p]@, self.items@[q]@]
                    0 <= p < q < self.items@.len() implies self.items@[p]@ != self.items@[q]@ by {
                    if q < self.items@.len() - 1 {
                        assert(old(self).items@[p]@ != old(self).items@[q]@);
                    } else {
                        if old(self).items@[p]@ == tag@ {
                            assert(0 <= p < old(self).items@.len() && old(self).items@[p]@ == tag@);
                            assert(old(self)@.contains(tag@));
                        }
                    }
                }
                assert forall|t: Seq<char>| self@.contains(t) implies old(self)@.insert(
                    tag@,
                ).contains(t) by {
                    let i = choose|i: int|
                        0 <= i < self.items@.len() && self.items@[i]@ == t;
                    if i < self.items@.len() - 1 {
                        assert(old(self).items@[i]@ == t);
                    }
                }
                assert forall|t: Seq<char>| old(self)@.insert(tag@).contains(t) implies self@.contains(t) by {
                    if t == tag@ {
                        assert(self.items@[self.items@.len() - 1]@ == t);
                    } else {
                        let i = choose|i: int|
                            0 <= i < old(self).items@.len() && old(self).items@[i]@ == t;
                        assert(self.items@[i]@ == t);
                    }
                }
                assert(self@ =~= old(self)@.insert(tag@));
            }
        }
    }

    /// Remove a tag; removing an absent tag changes nothing.
    pub fn remove(&mut self, tag: &String)
        requires
            old(self).wf(),
        ensures
            final(self).wf(),
            final(self)@ == old(self)@.remove(tag@),
    {
        let n = self.items.len();
        let mut i: usize = 0;
        while i < n
            invariant
                n == self.items@.len(),
                0 <= i <= n,
                *self == *old(self),
                old(self).wf(),
                forall|j: int| 0 <= j < i ==> self.items@[j]@ != tag@,
            decreases n - i,
        {
            if self.items[i] == *tag {
                let ghost pre = self.items@;
                self.items.remove(i);
                proof {
                    assert(self.items@ == pre.remove(i as int));
                    assert forall|p: int, q: int|
                        #![trigger self.items@[p]@, self.items@[q]@]
                        0 <= p < q < self.items@.len() implies self.items@[p]@ != self.items@[q]@ by {
                        let p0: int = if p < i { p } else { p + 1 };
                        let q0: int = if q < i { q } else { q + 1 };
                        assert(self.items@[p]@ == pre[p0]@ && self.items@[q]@ == pre[q0]@);
                        assert(old(self).items@[p0]@ != old(self).items@[q0]@);
                    }
                    assert forall|t: Seq<char>| self@.contains(t) implies old(self)@.remove(
                        tag@,
                    ).contains(t) by {
                        let j = choose|j: int|
                            0 <= j < self.items@.len() && self.items@[j]@ == t;
                        let j0: int = if j < i { j } else { j + 1 };
                        assert(old(self).items@[j0]@ == t);
                        assert(old(self)@.contains(t));
                        if j0 < i {
                            assert(old(self).items@[j0]@ != old(self).items@[i as int]@);
                        } else {
                            assert(old(self).items@[i as int]@ != old(self).items@[j0]@);
                        }
                        assert(old(self).items@[i as int]@ == tag@);
                        assert(t != tag@);
                    }
                    assert forall|t: Seq<char>| old(self)@.remove(tag@).contains(t) implies self@.contains(t) by {
                        let j = choose|j: int| 0 <= j < pre.len() && pre[j]@ == t;
                        if j < i {
                            assert(self.items@[j]@ == t);
                        } else {
                            assert(j != i);
                            assert(self.items@[j - 1]@ == t);
                        }
                    }
                    assert(self@ =~= old(self)@.remove(tag@));
                }
                return ;
            }
            i = i + 1;
        }
        proof {
            assert(!old(self)@.contains(tag@));
            assert(self@ =~= old(self)@.remove(tag@));
        }
    }
}

} // verus!
