use einkrad::node::{Node, NodeGraph};

type Matrix = [f32; 16];

const IDENTITY: Matrix = [
    1.0, 0.0, 0.0, 0.0, 0.0, 1.0, 0.0, 0.0, 0.0, 0.0, 1.0, 0.0, 0.0, 0.0, 0.0, 1.0,
];

const ZERO: Matrix = [0.0; 16];

/// Column-major product `m * o`.
fn product(m: Matrix, o: Matrix) -> Matrix {
    let mut r = [0.0f32; 16];
    for col in 0..4 {
        for row in 0..4 {
            let mut sum = 0.0f32;
            for k in 0..4 {
                sum += m[k * 4 + row] * o[col * 4 + k];
            }
            r[col * 4 + row] = sum;
        }
    }
    r
}

fn translation(x: f32, y: f32, z: f32) -> Matrix {
    let mut m = IDENTITY;
    m[12] = x;
    m[13] = y;
    m[14] = z;
    m
}

fn scaling(x: f32, y: f32, z: f32) -> Matrix {
    let mut m = IDENTITY;
    m[0] = x;
    m[5] = y;
    m[10] = z;
    m
}

fn words() -> NodeGraph<&'static str> {
    NodeGraph::new("", "?")
}

#[test]
fn new_graph_is_empty() {
    let g: NodeGraph<Matrix> = NodeGraph::new(IDENTITY, ZERO);
    assert_eq!(g.node_count(), 0);
    assert_eq!(g.instances_count(), 0);
    assert!(!g.contains(0));
    assert!(!g.contains(1));
    assert!(!g.has_instances(1));
}

#[test]
fn create_gives_ids_from_one_upwards() {
    let mut g: NodeGraph<Matrix> = NodeGraph::new(IDENTITY, ZERO);
    assert_eq!(g.create(), 1);
    assert_eq!(g.create(), 2);
    assert_eq!(g.create(), 3);
    assert_eq!(g.node_count(), 3);
    assert!(g.contains(1) && g.contains(3));
    assert!(!g.contains(0) && !g.contains(4));
}

#[test]
fn new_node_starts_with_identity_and_blank_world() {
    let mut g: NodeGraph<Matrix> = NodeGraph::new(IDENTITY, ZERO);
    let n = g.create();
    let node = g.node(n);
    assert_eq!(node.id(), n);
    assert_eq!(node.parent(), None);
    assert_eq!(node.drawable(), None);
    assert!(node.children().is_empty());
    assert_eq!(node.transform(), IDENTITY);
    assert_eq!(node.transform_world(), ZERO);
}

#[test]
fn free_node_applies_its_transform_to_its_world() {
    let mut n: Node<i64> = Node::new(7, 3, 5);
    assert_eq!(n.id(), 7);
    n.apply_transform(&|world: i64, local: i64| world * 10 + local);
    assert_eq!(n.transform_world(), 53);
    assert_eq!(n.transform(), 3);
    n.apply_transform(&|world: i64, local: i64| world * 10 + local);
    assert_eq!(n.transform_world(), 533);
}

#[test]
fn add_sets_parent_and_child() {
    let mut g = words();
    let p = g.create();
    let c = g.create();
    g.add(p, c);
    assert_eq!(g.node(c).parent(), Some(p));
    assert_eq!(g.node(p).children(), &vec![c]);
    assert_eq!(g.node(p).parent(), None);
    assert!(g.node(c).children().is_empty());
}

#[test]
fn add_twice_lists_the_child_once() {
    let mut g = words();
    let p = g.create();
    let a = g.create();
    let b = g.create();
    g.add(p, a);
    g.add(p, b);
    g.add(p, a);
    g.add(p, a);
    let listed = g.node(p).children().iter().filter(|&&x| x == a).count();
    assert_eq!(listed, 1);
    assert_eq!(g.node(p).children(), &vec![b, a]);
    assert_eq!(g.node(a).parent(), Some(p));
}

#[test]
fn reparenting_removes_child_from_former_parent() {
    let mut g = words();
    let first = g.create();
    let second = g.create();
    let c = g.create();
    let other = g.create();
    g.add(first, c);
    g.add(first, other);
    g.add(second, c);
    assert_eq!(g.node(c).parent(), Some(second));
    assert_eq!(g.node(second).children(), &vec![c]);
    assert_eq!(g.node(first).children(), &vec![other]);
    for id in 1..=g.node_count() as u32 {
        if id != second {
            assert!(!g.node(id).children().contains(&c));
        }
    }
}

#[test]
fn children_keep_the_order_they_were_added_in() {
    let mut g = words();
    let p = g.create();
    let a = g.create();
    let b = g.create();
    let c = g.create();
    g.add(p, a);
    g.add(p, b);
    g.add(p, c);
    g.add(p, b);
    assert_eq!(g.node(p).children(), &vec![a, c, b]);
}

#[test]
fn transform_operations_compose_in_call_order() {
    let mut h: NodeGraph<i64> = NodeGraph::new(1, 0);
    let n = h.create();
    let other = h.create();
    h.transform_local(n, |t: i64| t + 2);
    h.transform_local(n, |t: i64| t * 5);
    h.transform_local(n, |t: i64| t - 1);
    assert_eq!(h.node(n).transform(), ((1 + 2) * 5) - 1);
    assert_eq!(h.node(other).transform(), 1);
    assert_eq!(h.node(n).transform_world(), 0);
}

#[test]
fn translate_then_scale_is_the_product_of_both_matrices() {
    let mut g: NodeGraph<Matrix> = NodeGraph::new(IDENTITY, ZERO);
    let n = g.create();
    g.transform_local(n, |m: Matrix| product(m, translation(1.0, 2.0, 3.0)));
    g.transform_local(n, |m: Matrix| product(m, scaling(2.0, 2.0, 2.0)));
    let expected: Matrix = [
        2.0, 0.0, 0.0, 0.0, 0.0, 2.0, 0.0, 0.0, 0.0, 0.0, 2.0, 0.0, 1.0, 2.0, 3.0, 1.0,
    ];
    assert_eq!(g.node(n).transform(), expected);
}

#[test]
fn update_world_gives_root_its_local_transform() {
    let mut g: NodeGraph<Matrix> = NodeGraph::new(IDENTITY, ZERO);
    let root = g.create();
    g.transform_local(root, |m: Matrix| product(m, translation(4.0, 5.0, 6.0)));
    g.update_world(root, product);
    assert_eq!(g.node(root).transform_world(), translation(4.0, 5.0, 6.0));
}

#[test]
fn update_world_composes_from_root_to_leaf() {
    let mut paths: NodeGraph<u64> = NodeGraph::new(0, 999);
    let root = paths.create();
    let a = paths.create();
    let b = paths.create();
    let c = paths.create();
    let d = paths.create();
    let loose = paths.create();
    paths.add(root, a);
    paths.add(root, b);
    paths.add(a, c);
    paths.add(c, d);
    paths.transform_local(root, |_| 1);
    paths.transform_local(a, |_| 2);
    paths.transform_local(b, |_| 3);
    paths.transform_local(c, |_| 4);
    paths.transform_local(d, |_| 5);
    paths.transform_local(loose, |_| 6);
    // The composition writes the local digit behind the parent's digits,
    // so a world transform spells the path from the root.
    paths.update_world(root, |world: u64, local: u64| world * 10 + local);
    assert_eq!(paths.node(root).transform_world(), 1);
    assert_eq!(paths.node(a).transform_world(), 12);
    assert_eq!(paths.node(b).transform_world(), 13);
    assert_eq!(paths.node(c).transform_world(), 124);
    assert_eq!(paths.node(d).transform_world(), 1245);
    assert_eq!(paths.node(loose).transform_world(), 999);
    assert_eq!(paths.node(d).transform(), 5);
}

#[test]
fn update_world_multiplies_matrices_down_the_tree() {
    let mut g: NodeGraph<Matrix> = NodeGraph::new(IDENTITY, ZERO);
    let root = g.create();
    let child = g.create();
    let leaf = g.create();
    g.add(root, child);
    g.add(child, leaf);
    g.transform_local(root, |m: Matrix| product(m, translation(1.0, 0.0, 0.0)));
    g.transform_local(child, |m: Matrix| product(m, scaling(2.0, 2.0, 2.0)));
    g.transform_local(leaf, |m: Matrix| product(m, translation(0.0, 3.0, 0.0)));
    g.update_world(root, product);
    assert_eq!(g.node(root).transform_world(), translation(1.0, 0.0, 0.0));
    let expected_child: Matrix = [
        2.0, 0.0, 0.0, 0.0, 0.0, 2.0, 0.0, 0.0, 0.0, 0.0, 2.0, 0.0, 1.0, 0.0, 0.0, 1.0,
    ];
    assert_eq!(g.node(child).transform_world(), expected_child);
    let expected_leaf: Matrix = [
        2.0, 0.0, 0.0, 0.0, 0.0, 2.0, 0.0, 0.0, 0.0, 0.0, 2.0, 0.0, 1.0, 6.0, 0.0, 1.0,
    ];
    assert_eq!(g.node(leaf).transform_world(), expected_leaf);
}

#[test]
fn update_world_from_inner_node_leaves_the_rest_alone() {
    let mut g: NodeGraph<u64> = NodeGraph::new(0, 999);
    let root = g.create();
    let a = g.create();
    let b = g.create();
    g.add(root, a);
    g.add(a, b);
    g.transform_local(root, |_| 1);
    g.transform_local(a, |_| 2);
    g.transform_local(b, |_| 3);
    g.update_world(a, |world: u64, local: u64| world * 10 + local);
    assert_eq!(g.node(root).transform_world(), 999);
    assert_eq!(g.node(a).transform_world(), 2);
    assert_eq!(g.node(b).transform_world(), 23);
}

#[test]
fn update_world_ends_on_a_cycle_through_the_root() {
    let mut g: NodeGraph<u64> = NodeGraph::new(0, 999);
    let root = g.create();
    let a = g.create();
    let b = g.create();
    g.add(root, a);
    g.add(a, b);
    g.add(b, root);
    g.transform_local(root, |_| 1);
    g.transform_local(a, |_| 2);
    g.transform_local(b, |_| 3);
    g.update_world(root, |world: u64, local: u64| world * 10 + local);
    assert_eq!(g.node(root).transform_world(), 1);
    assert_eq!(g.node(a).transform_world(), 12);
    assert_eq!(g.node(b).transform_world(), 123);
}

#[test]
fn node_may_hang_under_itself() {
    let mut g: NodeGraph<u64> = NodeGraph::new(7, 999);
    let n = g.create();
    g.add(n, n);
    assert_eq!(g.node(n).parent(), Some(n));
    assert_eq!(g.node(n).children(), &vec![n]);
    g.update_world(n, |world: u64, local: u64| world * 10 + local);
    assert_eq!(g.node(n).transform_world(), 7);
}

#[test]
fn set_drawable_registers_node_with_identity_matrix() {
    let mut g: NodeGraph<Matrix> = NodeGraph::new(IDENTITY, ZERO);
    let n = g.create();
    let list = g.create_instances();
    assert_eq!(list, 1);
    assert!(g.instances(list).nodes().is_empty());
    assert!(g.instances(list).matrices().is_empty());
    g.set_drawable(n, list);
    assert_eq!(g.node(n).drawable(), Some(list));
    assert_eq!(g.instances(list).nodes(), &vec![n]);
    assert_eq!(g.instances(list).matrices(), &vec![IDENTITY]);
    assert!(g.instances(list).is_registered(n));
}

#[test]
fn registering_again_keeps_the_slot_and_appends_a_matrix() {
    let mut g: NodeGraph<u64> = NodeGraph::new(1, 0);
    let a = g.create();
    let b = g.create();
    let list = g.create_instances();
    g.set_drawable(a, list);
    g.set_drawable(b, list);
    g.set_drawable(a, list);
    assert_eq!(g.instances(list).nodes(), &vec![a, b]);
    assert_eq!(g.instances(list).matrices(), &vec![1, 1, 1]);
}

#[test]
fn second_registration_replaces_the_first_on_the_node_only() {
    let mut g: NodeGraph<u64> = NodeGraph::new(1, 0);
    let n = g.create();
    let first = g.create_instances();
    let second = g.create_instances();
    g.set_drawable(n, first);
    g.set_drawable(n, second);
    assert_eq!(g.node(n).drawable(), Some(second));
    assert_eq!(g.instances(first).nodes(), &vec![n]);
    assert_eq!(g.instances(second).nodes(), &vec![n]);
    assert_eq!(g.instances(first).matrices().len(), 1);
}

#[test]
fn aggregate_copies_world_transforms_into_slots() {
    let mut g: NodeGraph<u64> = NodeGraph::new(1, 0);
    let root = g.create();
    let a = g.create();
    let b = g.create();
    g.add(root, a);
    g.add(root, b);
    g.transform_local(root, |_| 1);
    g.transform_local(a, |_| 2);
    g.transform_local(b, |_| 3);
    let list = g.create_instances();
    g.set_drawable(b, list);
    g.set_drawable(a, list);
    g.set_drawable(b, list);
    g.update_world(root, |world: u64, local: u64| world * 10 + local);
    g.aggregate(list);
    // Slot 0 is b's, slot 1 is a's; the third matrix has no node and
    // keeps the identity.
    assert_eq!(g.instances(list).matrices(), &vec![13, 12, 1]);
    assert_eq!(g.instances(list).nodes(), &vec![b, a]);
}
