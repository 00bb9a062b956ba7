//! A parent-pointer tree kept in an arena, recording the provenance of
//! visited points during a search; walking the parent links of a node and
//! reversing yields the ordered path from the root to it.

use vstd::prelude::*;

verus! {

/// One node of the tree: a value and the arena index of its parent.
pub struct Node<T: PartialEq + Copy> {
    /// Arena index of the parent; the root has none.
    pub parent: Option<usize>,
    /// The node's value.
    pub val: T,
}

impl<T: PartialEq + Copy> Node<T> {
    /// Create a new parentless node.
    pub fn new(val: T) -> (r: Node<T>)
        ensures
            r.parent is None,
            r.val == val,
    {
        Node { parent: None, val }
    }

    /// Attach the node under the given parent index.
    pub fn set_parent(&mut self, index: usize)
        ensures
            final(self).parent == Some(index),
            final(self).val == old(self).val,
    {
        self.parent = Some(index);
    }

    /// The node's value.
    pub fn inner(&self) -> (r: &T)
        ensures
            *r == self.val,
    {
        &self.val
    }
}

/// Every parent link points strictly downwards in the arena, so parent
/// chains always terminate at a parentless node.
pub open spec fn tree_wf<T: PartialEq + Copy>(arena: Seq<Node<T>>) -> bool {
    forall|i: int|
        0 <= i < arena.len() ==> match (#[trigger] arena[i]).parent {
            Some(p) => p < i,
            None => true,
        }
}

/// The values on the path from the chain's parentless ancestor down to node
/// `i`, in root-first order.
pub open spec fn path_seq<T: PartialEq + Copy>(arena: Seq<Node<T>>, i: int) -> Seq<T>
    decreases i,
{
    if 0 <= i < arena.len() {
        match arena[i].parent {
            Some(p) => if p < i {
                path_seq(arena, p as int).push(arena[i].val)
            } else {
                seq![arena[i].val]
            },
            None => seq![arena[i].val],
        }
    } else {
        Seq::empty()
    }
}

/// In a well-formed tree whose index 0 is the only parentless node, every
/// path starts with the root's value.
pub proof fn lemma_path_starts_at_root<T: PartialEq + Copy>(arena: Seq<Node<T>>, i: int)
    requires
        tree_wf(arena),
        0 <= i < arena.len(),
        arena[0].parent is None,
        forall|j: int| 0 < j < arena.len() ==> (#[trigger] arena[j]).parent is Some,
    ensures
        path_seq(arena, i).len() >= 1,
        path_seq(arena, i)[0] == arena[0].val,
    decreases i,
{
    if i == 0 {
    } else {
        let p = arena[i].parent->Some_0;
        lemma_path_starts_at_root(arena, p as int);
    }
}

/// An arena-backed tree with parent pointers.
pub struct Tree<T: PartialEq + Copy> {
    /// The nodes, the root first.
    pub arena: Vec<Node<T>>,
}

impl<T: PartialEq + Copy> Tree<T> {
    /// Create a tree holding only a root with the given value.
    pub fn new(root: T) -> (r: Tree<T>)
        ensures
            r.arena@.len() == 1,
            r.arena@[0].parent is None,
            r.arena@[0].val == root,
            tree_wf(r.arena@),
    {
        let node = Node::new(root);
        let mut arena: Vec<Node<T>> = Vec::new();
        arena.push(node);
        Tree { arena }
    }

    /// Append a value under an existing parent and return its index.
    pub fn insert(&mut self, parent: usize, val: T) -> (idx: usize)
        requires
            tree_wf(old(self).arena@),
            parent < old(self).arena@.len(),
        ensures
            idx == old(self).arena@.len(),
            final(self).arena@.len() == old(self).arena@.len() + 1,
            final(self).arena@ == old(self).arena@.push(
                Node { parent: Some(parent), val },
            ),
            tree_wf(final(self).arena@),
    {
        let idx = self.arena.len();
        let mut node = Node::new(val);
        node.set_parent(parent);
        self.arena.push(node);
        proof {
            assert forall|i: int|
                0 <= i < self.arena@.len() implies match (#[trigger] self.arena@[i]).parent {
                Some(p) => p < i,
                None => true,
            } by {
                if i < idx {
                    assert(self.arena@[i] == old(self).arena@[i]);
                }
            }
        }
        idx
    }

    /// The value stored at an index.
    pub fn get(&self, index: usize) -> (r: &T)
        requires
            index < self.arena@.len(),
        ensures
            *r == self.arena@[index as int].val,
    {
        self.arena[index].inner()
    }

    /// The values from the chain's top down to `index`, in that order.
    pub fn path_to(&self, index: usize) -> (r: Vec<T>)
        requires
            tree_wf(self.arena@),
            index < self.arena@.len(),
        ensures
            r@ == path_seq(self.arena@, index as int),
    {
        let mut index_path: Vec<usize> = Vec::new();
        index_path.push(index);
        let mut cur: usize = index;
        loop
            invariant
                tree_wf(self.arena@),
                index_path@.len() >= 1,
                index_path@[0] == index,
                index < self.arena@.len(),
                cur < self.arena@.len(),
                index_path@[index_path@.len() - 1] == cur,
                forall|k: int|
                    0 <= k < index_path@.len() ==> #[trigger] index_path@[k]
                        < self.arena@.len(),
                forall|k: int|
                    0 <= k < index_path@.len() - 1 ==> self.arena@[#[trigger] index_path@[
                    k] as int].parent == Some(index_path@[k + 1]),
            ensures
                self.arena@[index_path@[index_path@.len() - 1] as int].parent is None,
            decreases cur,
        {
            let node_parent = self.arena[cur].parent;
            match node_parent {
                Some(p) => {
                    index_path.push(p);
                    cur = p;
                },
                None => {
                    break ;
                },
            }
        }
        let m = index_path.len();
        let mut result: Vec<T> = Vec::new();
        let mut j: usize = m;
        while j > 0
            invariant
                tree_wf(self.arena@),
                m == index_path@.len(),
                m >= 1,
                0 <= j <= m,
                index_path@[0] == index,
                index < self.arena@.len(),
                forall|k: int|
                    0 <= k < index_path@.len() ==> #[trigger] index_path@[k]
                        < self.arena@.len(),
                forall|k: int|
                    0 <= k < index_path@.len() - 1 ==> self.arena@[#[trigger] index_path@[
                    k] as int].parent == Some(index_path@[k + 1]),
                self.arena@[index_path@[m - 1] as int].parent is None,
                j == m ==> result@ == Seq::<T>::empty(),
                j < m ==> result@ == path_seq(self.arena@, index_path@[j as int] as int),
            decreases j,
        {
            j = j - 1;
            let at = index_path[j];
            result.push(*self.arena[at].inner());
            proof {
                if j == m - 1 {
                    assert(result@ =~= path_seq(self.arena@, at as int));
                } else {
                    assert(self.arena@[at as int].parent == Some(index_path@[j + 1]));
                    assert(index_path@[j + 1] < at) by {
                        assert(tree_wf(self.arena@));
                    }
                    assert(result@ =~= path_seq(self.arena@, at as int));
                }
            }
        }
        result
    }
}

} // verus!
