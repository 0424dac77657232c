//! The quadrant index: building, inserting, removing, cell descent, and
//! the equivalence of the radius search with a plain linear scan.

use torus_flock::config::Config;
use torus_flock::pvector::PVector;
use torus_flock::quad_tree::{AgentSnap, QuadTree, Rectangle};

fn cfg() -> Config {
    Config::standard()
}

fn sized_rect(width: i64, height: i64) -> Rectangle {
    Rectangle { x: 0, y: 0, width, height }
}

fn snap_at(id: u64, x: i64, y: i64) -> AgentSnap {
    AgentSnap { id, position: PVector { x, y }, velocity: PVector { x: 0, y: 0 } }
}

fn get_all_animals(tree: &QuadTree) -> Vec<AgentSnap> {
    match tree {
        QuadTree::Leaf { animals, .. } => animals.clone(),
        QuadTree::Branch { c0, c1, c2, c3, .. } => {
            let mut ret = get_all_animals(c0);
            ret.extend(get_all_animals(c1));
            ret.extend(get_all_animals(c2));
            ret.extend(get_all_animals(c3));
            ret
        }
    }
}

fn tree_depth(tree: &QuadTree) -> usize {
    match tree {
        QuadTree::Leaf { .. } => 0,
        QuadTree::Branch { c0, .. } => tree_depth(c0) + 1,
    }
}

fn tree_minsq(tree: &QuadTree) -> Rectangle {
    match tree {
        QuadTree::Leaf { rectangle, .. } => *rectangle,
        QuadTree::Branch { c0, .. } => tree_minsq(c0),
    }
}

/// Walk the whole tree: every leaf of a fresh tree is empty, every region
/// is narrower than the cell limit exactly at the leaves.
fn tree_parse(tree: &QuadTree, min_cell: i64, expect_empty: bool) {
    match tree {
        QuadTree::Leaf { rectangle, animals } => {
            assert!(rectangle.width < min_cell);
            if expect_empty {
                assert!(animals.is_empty());
            }
        }
        QuadTree::Branch { rectangle, c0, c1, c2, c3 } => {
            assert!(rectangle.width >= min_cell);
            tree_parse(c0, min_cell, expect_empty);
            tree_parse(c1, min_cell, expect_empty);
            tree_parse(c2, min_cell, expect_empty);
            tree_parse(c3, min_cell, expect_empty);
        }
    }
}

fn tree_animals_size(tree: &QuadTree, index: usize) -> usize {
    match tree {
        QuadTree::Leaf { animals, .. } => animals.len(),
        QuadTree::Branch { c0, c1, c2, c3, .. } => {
            let child = match index {
                0 => c0,
                1 => c1,
                2 => c2,
                _ => c3,
            };
            tree_animals_size(child, index)
        }
    }
}

#[test]
fn whole_screen_test() {
    let c = cfg();
    let Rectangle { width, height, .. } = Rectangle::whole_screen(&c);
    assert_eq!(c.width, width);
    assert_eq!(c.height, height);
}

#[test]
fn new_tree_test() {
    let rect = sized_rect(1_000_000, 2_000_000);
    let tree = QuadTree::new_tree(&rect, 10_000);
    assert_eq!(tree_depth(&tree), 7);
    let Rectangle { width, height, .. } = tree_minsq(&tree);
    // 1_000_000 halved seven times with integer flooring
    assert_eq!(7_812, width);
    assert_eq!(15_625, height);
}

#[test]
fn new_tree_child_test() {
    tree_parse(&QuadTree::new_tree(&sized_rect(1_000_000, 2_000_000), 10_000), 10_000, true);
}

#[test]
fn append_test_left_up() {
    let rect = sized_rect(1_000_000, 2_000_000);
    let mut tree = QuadTree::new_tree(&rect, 10_000);
    let cat = snap_at(7, 5_000, 10_000);
    for _ in 0..10 {
        tree = tree.append(&cat);
    }
    assert_eq!(tree_animals_size(&tree, 0), 10);
    assert_eq!(tree_animals_size(&tree, 1), 0);
    assert_eq!(tree_animals_size(&tree, 2), 0);
    assert_eq!(tree_animals_size(&tree, 3), 0);
}

#[test]
fn append_test_right_up() {
    let rect = sized_rect(1_000_000, 2_000_000);
    let mut tree = QuadTree::new_tree(&rect, 10_000);
    let cat = snap_at(7, 995_000, 10_000);
    for _ in 0..10 {
        tree = tree.append(&cat);
    }
    assert_eq!(tree_animals_size(&tree, 0), 0);
    assert_eq!(tree_animals_size(&tree, 1), 10);
    assert_eq!(tree_animals_size(&tree, 2), 0);
    assert_eq!(tree_animals_size(&tree, 3), 0);
}

#[test]
fn append_test_left_down() {
    let rect = sized_rect(1_000_000, 2_000_000);
    let mut tree = QuadTree::new_tree(&rect, 10_000);
    let cat = snap_at(7, 5_000, 1_990_000);
    for _ in 0..10 {
        tree = tree.append(&cat);
    }
    assert_eq!(tree_animals_size(&tree, 0), 0);
    assert_eq!(tree_animals_size(&tree, 1), 0);
    assert_eq!(tree_animals_size(&tree, 2), 10);
    assert_eq!(tree_animals_size(&tree, 3), 0);
}

#[test]
fn append_test_right_down() {
    let rect = sized_rect(1_000_000, 2_000_000);
    let mut tree = QuadTree::new_tree(&rect, 10_000);
    let cat = snap_at(7, 995_000, 1_990_000);
    for _ in 0..10 {
        tree = tree.append(&cat);
    }
    assert_eq!(tree_animals_size(&tree, 0), 0);
    assert_eq!(tree_animals_size(&tree, 1), 0);
    assert_eq!(tree_animals_size(&tree, 2), 0);
    assert_eq!(tree_animals_size(&tree, 3), 10);
}

/// The standard plane in steps: 640_000 x 480_000, cells 5_000 x 3_750.
fn grid_population(side: u64) -> Vec<AgentSnap> {
    let mut animals = Vec::new();
    for i in 0..side {
        for j in 0..side {
            animals.push(snap_at(
                i * 1000 + j,
                i as i64 * 5_000 + 2_500,
                j as i64 * 3_750 + 1_875,
            ));
        }
    }
    animals
}

#[test]
fn test_new_test() {
    let c = cfg();
    let animals = grid_population(128);
    let tree = QuadTree::new(&animals, &c);
    let all = get_all_animals(&tree);
    assert_eq!(all.len(), 128 * 128);
}

#[test]
fn remove_center_test() {
    let c = cfg();
    let animals = grid_population(128);
    let mut tree = QuadTree::new(&animals, &c);
    for cat in &animals {
        tree.remove(cat);
    }
    let all = get_all_animals(&tree);
    assert_eq!(all.len(), 0);
}

#[test]
fn remove_corner_test() {
    // agents exactly on interior cell corners: half-open regions place
    // each in exactly one leaf, so they insert and remove cleanly
    let c = cfg();
    let mut animals = Vec::new();
    for i in 0..128u64 {
        for j in 0..128u64 {
            animals.push(snap_at(i * 1000 + j, i as i64 * 5_000, j as i64 * 3_750));
        }
    }
    let mut tree = QuadTree::new(&animals, &c);
    for cat in &animals {
        tree.remove(cat);
    }
    let all = get_all_animals(&tree);
    assert_eq!(all.len(), 0);
}

#[test]
fn get_index_test() {
    let c = cfg();
    let tree = QuadTree::new(&Vec::new(), &c);
    let r = tree.leaf_rect_of(&PVector { x: 2_500, y: 1_000 });
    assert_eq!(r, Rectangle { x: 0, y: 0, width: 5_000, height: 3_750 });
}

#[test]
fn get_index_test2() {
    let c = cfg();
    let tree = QuadTree::new(&Vec::new(), &c);
    let r = tree.leaf_rect_of(&PVector { x: 127 * 5_000 + 2_500, y: 127 * 3_750 + 1_000 });
    assert_eq!(r, Rectangle { x: 127 * 5_000, y: 127 * 3_750, width: 5_000, height: 3_750 });
}

#[test]
fn get_index_test3() {
    let c = cfg();
    let tree = QuadTree::new(&Vec::new(), &c);
    let r = tree.leaf_rect_of(&PVector { x: 2_500, y: 127 * 3_750 + 1_000 });
    assert_eq!(r, Rectangle { x: 0, y: 127 * 3_750, width: 5_000, height: 3_750 });
}

#[test]
fn get_index_test4() {
    let c = cfg();
    let tree = QuadTree::new(&Vec::new(), &c);
    let r = tree.leaf_rect_of(&PVector { x: 127 * 5_000 + 2_500, y: 1_000 });
    assert_eq!(r, Rectangle { x: 127 * 5_000, y: 0, width: 5_000, height: 3_750 });
}

#[test]
fn get_index_test5() {
    let c = cfg();
    let tree = QuadTree::new(&Vec::new(), &c);
    let r = tree.leaf_rect_of(&PVector { x: 51 * 5_000 + 2_500, y: 112 * 3_750 + 1_000 });
    assert_eq!(r, Rectangle { x: 51 * 5_000, y: 112 * 3_750, width: 5_000, height: 3_750 });
}

#[test]
fn is_move_tree_test() {
    let c = cfg();
    let tree = QuadTree::new(&Vec::new(), &c);
    let origin = PVector { x: 78 * 5_000 + 2_500, y: 67 * 3_750 + 1_875 };
    let still = AgentSnap { id: 1, position: origin, velocity: PVector { x: 0, y: 0 } };
    assert!(!tree.is_move_tree(&still, &c));
    let steps = [
        (5_000, 0),
        (0, 3_750),
        (-5_000, 0),
        (0, -3_750),
        (5_000, 3_750),
        (-5_000, 3_750),
        (5_000, -3_750),
        (-5_000, -3_750),
    ];
    for (vx, vy) in steps.iter() {
        let mover = AgentSnap { id: 1, position: origin, velocity: PVector { x: *vx, y: *vy } };
        assert!(tree.is_move_tree(&mover, &c));
    }
}

#[test]
fn min_rectangle_matches_leaf_size() {
    let c = cfg();
    let r = Rectangle::whole_screen(&c).min_rectangle(c.min_cell_width);
    assert_eq!(r.width, 5_000);
    assert_eq!(r.height, 3_750);
}

/// A deterministic scatter of agents, no randomness crate involved.
fn scattered(n: u64) -> Vec<AgentSnap> {
    let mut out = Vec::new();
    let mut state: u64 = 12345;
    for id in 0..n {
        state = state.wrapping_mul(6364136223846793005).wrapping_add(1442695040888963407);
        let x = (state >> 16) % 640_000;
        state = state.wrapping_mul(6364136223846793005).wrapping_add(1442695040888963407);
        let y = (state >> 16) % 480_000;
        out.push(snap_at(id, x as i64, y as i64));
    }
    out
}

fn dist2(a: &PVector, b: &PVector, c: &Config) -> i64 {
    let o = a.offset(b, c.width, c.height);
    o.x * o.x + o.y * o.y
}

#[test]
fn search_matches_linear_scan() {
    let c = cfg();
    let animals = scattered(80);
    let tree = QuadTree::new(&animals, &c);
    let queries = [
        (PVector { x: 100_000, y: 100_000 }, 10_000i64),
        (PVector { x: 1_000, y: 1_000 }, 50_000),
        (PVector { x: 639_000, y: 479_000 }, 30_000),
        (PVector { x: 320_000, y: 240_000 }, 200_000),
        (PVector { x: 0, y: 0 }, 640_000 / 2),
    ];
    for (q, radius) in queries.iter() {
        let mut found: Vec<u64> = tree
            .search(q, *radius, c.width, c.height)
            .iter()
            .map(|m| m.id)
            .collect();
        let mut brute: Vec<u64> = animals
            .iter()
            .filter(|m| dist2(q, &m.position, &c) < radius * radius)
            .map(|m| m.id)
            .collect();
        found.sort();
        brute.sort();
        assert_eq!(found, brute);
    }
}

#[test]
fn built_tree_is_well_formed() {
    let c = cfg();
    let animals = scattered(50);
    let tree = QuadTree::new(&animals, &c);
    // leaf XOR branch is structural; check the cell discipline and that
    // every stored snapshot sits inside its leaf's region
    tree_parse(&tree, c.min_cell_width, false);
    check_members_in_rect(&tree);
}

fn check_members_in_rect(tree: &QuadTree) {
    match tree {
        QuadTree::Leaf { rectangle, animals } => {
            for m in animals {
                assert!(rectangle.x <= m.position.x && m.position.x < rectangle.x + rectangle.width);
                assert!(
                    rectangle.y <= m.position.y && m.position.y < rectangle.y + rectangle.height
                );
            }
        }
        QuadTree::Branch { c0, c1, c2, c3, .. } => {
            check_members_in_rect(c0);
            check_members_in_rect(c1);
            check_members_in_rect(c2);
            check_members_in_rect(c3);
        }
    }
}
