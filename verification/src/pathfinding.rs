//! An 8-directional informed search over an implicit grid of step size
//! `delta`, used as a movement-planning primitive: it is re-invoked every
//! tick and hands back only the first entry of the found path.

use vstd::prelude::*;
use crate::num::{dist_points, isqrt};
use crate::priority_queue::PriorityQueue;
use crate::tree::{lemma_path_starts_at_root, tree_wf, Tree};

verus! {

/// A frontier entry: tree index, accumulated cost, and grid coordinates.
#[derive(Debug, PartialEq, Eq, Copy, Clone, Structural)]
pub struct Node(pub usize, pub u32, pub i32, pub i32);

/// Largest coordinate magnitude the search accepts for its endpoints.
pub const GRID_BOUND: i32 = 1048576;

/// Largest coordinate magnitude the frontier ever stores; expansion steps
/// that would leave this range are not taken, which no search within the
/// endpoint and step bounds can ever reach anyway.
pub const FRONTIER_BOUND: i32 = 8388608;

/// Largest grid step size the search accepts.
pub const DELTA_BOUND: i32 = 1024;

/// How many nodes the search expands before giving up.
pub const MAX_EXPANSIONS: usize = 4096;

/// Euclidean distance between two grid points, rounded down.
pub fn dist(x0: i32, y0: i32, x1: i32, y1: i32) -> (r: u32)
    requires
        -FRONTIER_BOUND <= x0 <= FRONTIER_BOUND,
        -FRONTIER_BOUND <= y0 <= FRONTIER_BOUND,
        -FRONTIER_BOUND <= x1 <= FRONTIER_BOUND,
        -FRONTIER_BOUND <= y1 <= FRONTIER_BOUND,
    ensures
        r as int == dist_points(x0 as int, y0 as int, x1 as int, y1 as int),
{
    let dx: i64 = x1 as i64 - x0 as i64;
    let dy: i64 = y1 as i64 - y0 as i64;
    proof {
        assert(0 <= dx * dx <= 281474976710656 && 0 <= dy * dy <= 281474976710656)
            by (nonlinear_arith)
            requires
                -16777216 <= dx <= 16777216,
                -16777216 <= dy <= 16777216,
        ;
    }
    let sq: u64 = (dx * dx + dy * dy) as u64;
    let r64 = isqrt(sq as u128);
    proof {
        assert(r64 <= 4294967295) by (nonlinear_arith)
            requires
                (r64 as int) * (r64 as int) <= 562949953421313,
                r64 >= 0,
        ;
        assert(dx as int == x1 - x0 && dy as int == y1 - y0);
    }
    r64 as u32
}

/// The first step of a shortest path from `from` toward `to` on the grid of
/// step `delta`. The frontier is ordered by cost; expansion adds a fixed
/// step cost of one plus the straight-line distance to the goal, saturating
/// at the cost type's ceiling; a node within `delta` of the goal succeeds,
/// and the returned step is the first entry of the recorded path, which is
/// always the start itself. The search gives up and reports no step when
/// the frontier empties or after a fixed budget of expansions.
pub fn shortest_path_segment(from: (i32, i32), to: (i32, i32), delta: i32) -> (r: Option<
    (i32, i32)>)
    requires
        -GRID_BOUND <= from.0 <= GRID_BOUND,
        -GRID_BOUND <= from.1 <= GRID_BOUND,
        -GRID_BOUND <= to.0 <= GRID_BOUND,
        -GRID_BOUND <= to.1 <= GRID_BOUND,
        0 < delta <= DELTA_BOUND,
    ensures
        r is Some ==> r == Some(from),
        dist_points(from.0 as int, from.1 as int, to.0 as int, to.1 as int) < delta as int ==> r
            == Some(from),
{
    let mut tree = Tree::new(from);
    let mut queue = PriorityQueue::new();
    queue.push(Node(0, 0, from.0, from.1));
    let mut visits: Vec<(i32, i32)> = Vec::new();
    let mut budget: usize = MAX_EXPANSIONS;
    let ghost goal_near = dist_points(from.0 as int, from.1 as int, to.0 as int, to.1 as int)
        < delta as int;

    while budget > 0
        invariant
            0 < delta <= DELTA_BOUND,
            -GRID_BOUND <= from.0 <= GRID_BOUND,
            -GRID_BOUND <= from.1 <= GRID_BOUND,
            -GRID_BOUND <= to.0 <= GRID_BOUND,
            -GRID_BOUND <= to.1 <= GRID_BOUND,
            budget <= MAX_EXPANSIONS,
            tree_wf(tree.arena@),
            tree.arena@.len() >= 1,
            tree.arena@[0].parent is None,
            tree.arena@[0].val == from,
            forall|j: int|
                0 < j < tree.arena@.len() ==> (#[trigger] tree.arena@[j]).parent is Some,
            forall|k: int|
                0 <= k < queue@.len() ==> (#[trigger] queue@[k]).0 < tree.arena@.len(),
            forall|k: int|
                0 <= k < queue@.len() ==> -FRONTIER_BOUND <= (#[trigger] queue@[k]).2
                    <= FRONTIER_BOUND && -FRONTIER_BOUND <= queue@[k].3 <= FRONTIER_BOUND,
            crate::priority_queue::sorted_desc(queue@),
            budget == MAX_EXPANSIONS ==> queue@ == seq![Node(0usize, 0u32, from.0, from.1)],
            budget < MAX_EXPANSIONS ==> !goal_near,
            goal_near == (dist_points(from.0 as int, from.1 as int, to.0 as int, to.1 as int)
                < delta as int),
        decreases budget,
    {
        let popped = queue.pop();
        match popped {
            None => {
                proof {
                    assert(!(budget == MAX_EXPANSIONS));
                }
                return None;
            },
            Some(nd) => {
                let Node(node, curr_cost, x, y) = nd;
                visits.push((x, y));
                if dist(x, y, to.0, to.1) < delta as u32 {
                    let path = tree.path_to(node);
                    proof {
                        lemma_path_starts_at_root(tree.arena@, node as int);
                        assert(path@[0] == from);
                    }
                    return Some(path[0]);
                }
                proof {
                    if budget == MAX_EXPANSIONS {
                        assert(nd == Node(0usize, 0u32, from.0, from.1));
                        assert(dist_points(x as int, y as int, to.0 as int, to.1 as int)
                            >= delta as int);
                        assert(!goal_near);
                    }
                }
                let mut i: i32 = -1;
                while i <= 1
                    invariant
                        -1 <= i <= 2,
                        0 < delta <= DELTA_BOUND,
                        -GRID_BOUND <= to.0 <= GRID_BOUND,
                        -GRID_BOUND <= to.1 <= GRID_BOUND,
                        -FRONTIER_BOUND <= x <= FRONTIER_BOUND,
                        -FRONTIER_BOUND <= y <= FRONTIER_BOUND,
                        node < tree.arena@.len(),
                        tree_wf(tree.arena@),
                        tree.arena@.len() >= 1,
                        tree.arena@[0].parent is None,
                        tree.arena@[0].val == from,
                        forall|j: int|
                            0 < j < tree.arena@.len() ==> (#[trigger] tree.arena@[j]).parent
                                is Some,
                        forall|k: int|
                            0 <= k < queue@.len() ==> (#[trigger] queue@[k]).0
                                < tree.arena@.len(),
                        forall|k: int|
                            0 <= k < queue@.len() ==> -FRONTIER_BOUND <= (#[trigger] queue@[
                            k]).2 <= FRONTIER_BOUND && -FRONTIER_BOUND <= queue@[k].3
                                <= FRONTIER_BOUND,
                        crate::priority_queue::sorted_desc(queue@),
                    decreases 2 - i,
                {
                    let mut jj: i32 = -1;
                    while jj <= 1
                        invariant
                            -1 <= i <= 1,
                            -1 <= jj <= 2,
                            0 < delta <= DELTA_BOUND,
                            -GRID_BOUND <= to.0 <= GRID_BOUND,
                            -GRID_BOUND <= to.1 <= GRID_BOUND,
                            -FRONTIER_BOUND <= x <= FRONTIER_BOUND,
                            -FRONTIER_BOUND <= y <= FRONTIER_BOUND,
                            node < tree.arena@.len(),
                            tree_wf(tree.arena@),
                            tree.arena@.len() >= 1,
                            tree.arena@[0].parent is None,
                            tree.arena@[0].val == from,
                            forall|j: int|
                                0 < j < tree.arena@.len() ==> (#[trigger] tree.arena@[j]).parent
                                    is Some,
                            forall|k: int|
                                0 <= k < queue@.len() ==> (#[trigger] queue@[k]).0
                                    < tree.arena@.len(),
                            forall|k: int|
                                0 <= k < queue@.len() ==> -FRONTIER_BOUND <= (#[trigger] queue@[
                                k]).2 <= FRONTIER_BOUND && -FRONTIER_BOUND <= queue@[k].3
                                    <= FRONTIER_BOUND,
                            crate::priority_queue::sorted_desc(queue@),
                        decreases 2 - jj,
                    {
                        if !(i == 0 && jj == 0) {
                            proof {
                                assert(-1024 <= delta * i <= 1024 && -1024 <= delta * jj <= 1024)
                                    by (nonlinear_arith)
                                    requires
                                        -1 <= i <= 1,
                                        -1 <= jj <= 1,
                                        0 < delta <= 1024,
                                ;
                            }
                            let new_x = x + delta * i;
                            let new_y = y + delta * jj;
                            if new_x >= -FRONTIER_BOUND && new_x <= FRONTIER_BOUND && new_y
                                >= -FRONTIER_BOUND && new_y <= FRONTIER_BOUND {
                                let mut seen = false;
                                let vn = visits.len();
                                let mut vi: usize = 0;
                                while vi < vn
                                    invariant
                                        vn == visits@.len(),
                                        0 <= vi <= vn,
                                    decreases vn - vi,
                                {
                                    let v = visits[vi];
                                    if v.0 == new_x && v.1 == new_y {
                                        seen = true;
                                    }
                                    vi = vi + 1;
                                }
                                if !seen {
                                    let d = dist(x, y, to.0, to.1);
                                    let c64: u64 = curr_cost as u64 + 1 + d as u64;
                                    let cost: u32 = if c64 > u32::MAX as u64 {
                                        u32::MAX
                                    } else {
                                        c64 as u32
                                    };
                                    let id = tree.insert(node, (new_x, new_y));
                                    let new_node = Node(id, cost, new_x, new_y);
                                    let ghost qpre = queue@;
                                    queue.insert_or_replace(new_node);
                                    proof {
                                        assert forall|k: int|
                                            0 <= k < queue@.len() implies (#[trigger] queue@[
                                        k]).0 < tree.arena@.len() && -FRONTIER_BOUND <= queue@[
                                        k].2 <= FRONTIER_BOUND && -FRONTIER_BOUND <= queue@[k].3
                                            <= FRONTIER_BOUND by {
                                            if queue@[k] != new_node {
                                                assert(qpre.contains(queue@[k]));
                                                let j = choose|j: int|
                                                    0 <= j < qpre.len() && qpre[j] == queue@[k];
                                                assert(qpre[j].0 < tree.arena@.len());
                                            }
                                        }
                                    }
                                }
                            }
                        }
                        jj = jj + 1;
                    }
                    i = i + 1;
                }
                budget = budget - 1;
            },
        }
    }
    None
}

} // verus!
