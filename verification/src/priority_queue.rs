//! A priority queue of search nodes, kept as a vector sorted by cost in
//! descending order via binary-search insertion. Extraction pops the vector's
//! end, which holds a minimum-cost node: this is a conventional min-priority
//! queue.

use vstd::prelude::*;
use crate::pathfinding::Node;

verus! {

/// Costs never increase along the vector.
pub open spec fn sorted_desc(s: Seq<Node>) -> bool {
    forall|i: int, j: int| 0 <= i < j < s.len() ==> (#[trigger] s[i]).1 >= (#[trigger] s[j]).1
}

/// The first index whose cost is below `c`, or the length if none is.
pub open spec fn ipos(s: Seq<Node>, c: u32) -> int
    decreases s.len(),
{
    if s.len() == 0 {
        0
    } else if s[0].1 < c {
        0
    } else {
        1 + ipos(s.subrange(1, s.len() as int), c)
    }
}

/// The first index holding the same grid point, if any.
pub open spec fn find_xy(s: Seq<Node>, n: Node) -> Option<int>
    decreases s.len(),
{
    if s.len() == 0 {
        None
    } else if s[0].2 == n.2 && s[0].3 == n.3 {
        Some(0int)
    } else {
        match find_xy(s.subrange(1, s.len() as int), n) {
            Some(i) => Some(i + 1),
            None => None,
        }
    }
}

/// What inserting-or-replacing a node leaves in the queue: a strictly
/// cheaper node replaces the first entry at its grid point; a new grid point
/// is inserted at its cost position; anything else changes nothing.
pub open spec fn ior(s: Seq<Node>, n: Node) -> Seq<Node> {
    match find_xy(s, n) {
        Some(i) => if n.1 < s[i].1 {
            s.remove(i).insert(ipos(s.remove(i), n.1), n)
        } else {
            s
        },
        None => s.insert(ipos(s, n.1), n),
    }
}

/// `ipos` is pinned down by what lies on each side of it.
pub proof fn lemma_ipos_char(s: Seq<Node>, c: u32, i: int)
    requires
        0 <= i <= s.len(),
        forall|k: int| 0 <= k < i ==> (#[trigger] s[k]).1 >= c,
        i < s.len() ==> s[i].1 < c,
    ensures
        ipos(s, c) == i,
    decreases s.len(),
{
    if s.len() == 0 {
    } else if i == 0 {
    } else {
        let rest = s.subrange(1, s.len() as int);
        assert(s[0].1 >= c);
        assert forall|k: int| 0 <= k < i - 1 implies (#[trigger] rest[k]).1 >= c by {
            assert(rest[k] == s[k + 1]);
        }
        assert(i - 1 < rest.len() ==> rest[i - 1].1 < c);
        lemma_ipos_char(rest, c, i - 1);
    }
}

/// `find_xy` is pinned down by a first match, or by the absence of any.
pub proof fn lemma_find_xy_char(s: Seq<Node>, n: Node, r: Option<int>)
    requires
        match r {
            Some(i) => {
                &&& 0 <= i < s.len()
                &&& s[i].2 == n.2 && s[i].3 == n.3
                &&& forall|k: int| 0 <= k < i ==> !((#[trigger] s[k]).2 == n.2 && s[k].3 == n.3)
            },
            None => forall|k: int|
                0 <= k < s.len() ==> !((#[trigger] s[k]).2 == n.2 && s[k].3 == n.3),
        },
    ensures
        find_xy(s, n) == r,
    decreases s.len(),
{
    if s.len() == 0 {
    } else {
        let rest = s.subrange(1, s.len() as int);
        match r {
            Some(i) => {
                if i == 0 {
                } else {
                    assert(!(s[0].2 == n.2 && s[0].3 == n.3));
                    assert forall|k: int| 0 <= k < i - 1 implies !((#[trigger] rest[k]).2 == n.2
                        && rest[k].3 == n.3) by {
                        assert(rest[k] == s[k + 1]);
                    }
                    assert(rest[i - 1] == s[i]);
                    lemma_find_xy_char(rest, n, Some(i - 1));
                }
            },
            None => {
                assert forall|k: int| 0 <= k < rest.len() implies !((#[trigger] rest[k]).2 == n.2
                    && rest[k].3 == n.3) by {
                    assert(rest[k] == s[k + 1]);
                }
                lemma_find_xy_char(rest, n, None);
            },
        }
    }
}

/// Priority queue of frontier nodes, backed by a cost-sorted vector.
#[derive(Debug)]
pub struct PriorityQueue {
    nodes: Vec<Node>,
}

impl View for PriorityQueue {
    type V = Seq<Node>;

    closed spec fn view(&self) -> Seq<Node> {
        self.nodes@
    }
}

impl PriorityQueue {
    /// Create an empty queue.
    pub fn new() -> (r: PriorityQueue)
        ensures
            r@ == Seq::<Node>::empty(),
            sorted_desc(r@),
    {
        let r = PriorityQueue { nodes: Vec::new() };
        proof {
            assert(r@ =~= Seq::<Node>::empty());
        }
        r
    }

    /// Where a node of cost `n.1` belongs: the first index whose cost is
    /// lower.
    fn binary_search(&self, n: &Node) -> (r: usize)
        requires
            sorted_desc(self@),
        ensures
            r as int == ipos(self@, n.1),
            r <= self@.len(),
            forall|k: int| 0 <= k < r ==> (#[trigger] self@[k]).1 >= n.1,
            forall|k: int| r <= k < self@.len() ==> (#[trigger] self@[k]).1 < n.1,
    {
        let mut lo: usize = 0;
        let mut hi: usize = self.nodes.len();
        while lo < hi
            invariant
                sorted_desc(self@),
                0 <= lo <= hi <= self@.len(),
                forall|k: int| 0 <= k < lo ==> (#[trigger] self@[k]).1 >= n.1,
                forall|k: int| hi <= k < self@.len() ==> (#[trigger] self@[k]).1 < n.1,
            decreases hi - lo,
        {
            let mid = lo + (hi - lo) / 2;
            if self.nodes[mid].1 >= n.1 {
                lo = mid + 1;
            } else {
                hi = mid;
            }
        }
        proof {
            lemma_ipos_char(self@, n.1, lo as int);
        }
        lo
    }

    /// Add a node so that the vector is guaranteed to stay sorted.
    pub fn push(&mut self, n: Node)
        requires
            sorted_desc(old(self)@),
        ensures
            sorted_desc(final(self)@),
            final(self)@ == old(self)@.insert(ipos(old(self)@, n.1), n),
            final(self)@.len() == old(self)@.len() + 1,
            forall|k: int|
                0 <= k < final(self)@.len() ==> final(self)@[k] == n || old(self)@.contains(
                    #[trigger] final(self)@[k],
                ),
    {
        let insert_at = self.binary_search(&n);
        self.nodes.insert(insert_at, n);
        proof {
            let pos = insert_at as int;
            let pre = old(self)@;
            assert forall|i: int, j: int| 0 <= i < j < self@.len() implies (#[trigger] self@[
            i]).1 >= (#[trigger] self@[j]).1 by {
                if i < pos && j < pos {
                    assert(self@[i] == pre[i] && self@[j] == pre[j]);
                } else if i < pos && j == pos {
                    assert(self@[i] == pre[i]);
                } else if i < pos && j > pos {
                    assert(self@[i] == pre[i] && self@[j] == pre[j - 1]);
                    assert(pre[i].1 >= n.1 && pre[j - 1].1 < n.1);
                } else if i == pos && j > pos {
                    assert(self@[j] == pre[j - 1]);
                } else if i > pos && j > pos {
                    assert(self@[i] == pre[i - 1] && self@[j] == pre[j - 1]);
                }
            }
            assert forall|k: int| 0 <= k < self@.len() implies self@[k] == n || pre.contains(
                #[trigger] self@[k],
            ) by {
                if k < pos {
                    assert(self@[k] == pre[k]);
                    assert(pre.contains(self@[k]));
                } else if k > pos {
                    assert(self@[k] == pre[k - 1]);
                    assert(pre.contains(self@[k]));
                }
            }
        }
    }

    /// Remove a minimum-cost node — the vector's last — and return it.
    pub fn pop(&mut self) -> (r: Option<Node>)
        requires
            sorted_desc(old(self)@),
        ensures
            sorted_desc(final(self)@),
            old(self)@.len() == 0 ==> r is None && final(self)@ == old(self)@,
            old(self)@.len() > 0 ==> {
                &&& r == Some(old(self)@[old(self)@.len() - 1])
                &&& final(self)@ == old(self)@.drop_last()
                &&& forall|k: int|
                    0 <= k < old(self)@.len() ==> (#[trigger] old(self)@[k]).1 >= old(self)@[old(
                        self,
                    )@.len() - 1].1
            },
    {
        let r = self.nodes.pop();
        proof {
            if old(self)@.len() > 0 {
                assert(final(self)@ =~= old(self)@.drop_last());
            }
        }
        r
    }

    /// The first index holding a node with the same grid point.
    pub fn index_of(&self, n: Node) -> (r: Option<usize>)
        ensures
            match r {
                Some(i) => {
                    &&& find_xy(self@, n) == Some(i as int)
                    &&& i < self@.len()
                    &&& self@[i as int].2 == n.2 && self@[i as int].3 == n.3
                },
                None => find_xy(self@, n) is None,
            },
    {
        let len = self.nodes.len();
        let mut i: usize = 0;
        while i < len
            invariant
                len == self@.len(),
                0 <= i <= len,
                forall|k: int|
                    0 <= k < i ==> !((#[trigger] self@[k]).2 == n.2 && self@[k].3 == n.3),
            decreases len - i,
        {
            if self.nodes[i].2 == n.2 && self.nodes[i].3 == n.3 {
                proof {
                    lemma_find_xy_char(self@, n, Some(i as int));
                }
                return Some(i);
            }
            i = i + 1;
        }
        proof {
            lemma_find_xy_char(self@, n, None);
        }
        None
    }

    /// Remove the node at an index.
    pub fn remove(&mut self, i: usize)
        requires
            sorted_desc(old(self)@),
            i < old(self)@.len(),
        ensures
            sorted_desc(final(self)@),
            final(self)@ == old(self)@.remove(i as int),
    {
        self.nodes.remove(i);
        proof {
            let pre = old(self)@;
            assert forall|p: int, q: int| 0 <= p < q < self@.len() implies (#[trigger] self@[
            p]).1 >= (#[trigger] self@[q]).1 by {
                let p0: int = if p < i { p } else { p + 1 };
                let q0: int = if q < i { q } else { q + 1 };
                assert(self@[p] == pre[p0] && self@[q] == pre[q0]);
            }
        }
    }

    /// Insert the node, or replace the entry at its grid point when the new
    /// cost is strictly lower; an entry at the same point with an equal or
    /// lower cost stays as it is.
    pub fn insert_or_replace(&mut self, n: Node)
        requires
            sorted_desc(old(self)@),
        ensures
            sorted_desc(final(self)@),
            final(self)@ == ior(old(self)@, n),
            forall|k: int|
                0 <= k < final(self)@.len() ==> final(self)@[k] == n || old(self)@.contains(
                    #[trigger] final(self)@[k],
                ),
    {
        let found = self.index_of(n);
        match found {
            Some(i) => {
                if n.1 < self.nodes[i].1 {
                    let ghost pre = self@;
                    self.remove(i);
                    let ghost mid = self@;
                    self.push(n);
                    proof {
                        assert forall|k: int| 0 <= k < self@.len() implies self@[k] == n
                            || pre.contains(#[trigger] self@[k]) by {
                            if self@[k] != n {
                                assert(mid.contains(self@[k]));
                                let j = choose|j: int| 0 <= j < mid.len() && mid[j] == self@[k];
                                let j0: int = if j < i { j } else { j + 1 };
                                assert(pre[j0] == mid[j]);
                                assert(pre.contains(self@[k]));
                            }
                        }
                    }
                }
            },
            None => {
                self.push(n);
            },
        }
    }
}

} // verus!
