use game_core::pathfinding::{dist, shortest_path_segment, Node};
use game_core::priority_queue::PriorityQueue;
use game_core::tree::Tree;

#[test]
fn goal_within_delta_returns_the_start_step() {
    // the very first frontier node is the start, already within delta of the
    // goal, so the one-point path is returned rather than no step at all
    assert_eq!(shortest_path_segment((0, 0), (1, 0), 5), Some((0, 0)));
    assert_eq!(shortest_path_segment((3, 4), (3, 4), 1), Some((3, 4)));
}

#[test]
fn reachable_goal_yields_a_step() {
    let r = shortest_path_segment((0, 0), (50, 50), 25);
    assert_eq!(r, Some((0, 0)));
}

#[test]
fn grid_distance_rounds_down() {
    assert_eq!(dist(0, 0, 3, 4), 5);
    assert_eq!(dist(0, 0, 1, 1), 1);
    assert_eq!(dist(10, 10, 10, 10), 0);
    assert_eq!(dist(-3, 0, 0, 4), 5);
}

#[test]
fn queue_pops_minimum_cost_first() {
    let mut q = PriorityQueue::new();
    q.push(Node(0, 30, 0, 0));
    q.push(Node(1, 10, 1, 0));
    q.push(Node(2, 20, 2, 0));
    assert_eq!(q.pop(), Some(Node(1, 10, 1, 0)));
    assert_eq!(q.pop(), Some(Node(2, 20, 2, 0)));
    assert_eq!(q.pop(), Some(Node(0, 30, 0, 0)));
    assert_eq!(q.pop(), None);
}

#[test]
fn insert_or_replace_keeps_cheaper_entry_per_point() {
    let mut q = PriorityQueue::new();
    q.push(Node(0, 30, 5, 5));
    // same grid point, higher cost: ignored
    q.insert_or_replace(Node(1, 40, 5, 5));
    // same grid point, lower cost: replaces
    q.insert_or_replace(Node(2, 10, 5, 5));
    // different point: inserted
    q.insert_or_replace(Node(3, 20, 6, 6));
    assert_eq!(q.pop(), Some(Node(2, 10, 5, 5)));
    assert_eq!(q.pop(), Some(Node(3, 20, 6, 6)));
    assert_eq!(q.pop(), None);
}

#[test]
fn index_of_finds_first_matching_point() {
    let mut q = PriorityQueue::new();
    q.push(Node(0, 3, 7, 7));
    q.push(Node(1, 2, 8, 8));
    assert_eq!(q.index_of(Node(9, 99, 8, 8)), Some(1));
    assert_eq!(q.index_of(Node(9, 99, 9, 9)), None);
}

#[test]
fn tree_paths_walk_back_to_the_root() {
    let mut t: Tree<(i32, i32)> = Tree::new((0, 0));
    let a = t.insert(0, (1, 0));
    let b = t.insert(a, (2, 0));
    let c = t.insert(0, (0, 1));
    assert_eq!(*t.get(b), (2, 0));
    assert_eq!(t.path_to(b), vec![(0, 0), (1, 0), (2, 0)]);
    assert_eq!(t.path_to(c), vec![(0, 0), (0, 1)]);
    assert_eq!(t.path_to(0), vec![(0, 0)]);
}
