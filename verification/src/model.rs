//! The mathematical model of the node graph: what a graph is, when it
//! is well formed, what each operation makes of it, and the laws that
//! follow.

use vstd::prelude::*;
use crate::drawable::InstancesView;

verus! {

/// Mathematical model of a [`Node`].
pub struct NodeView<T> {
    pub id: u32,
    /// The node this one hangs under, if any.
    pub parent: Option<u32>,
    /// The nodes that hang under this one, in the order they were added.
    pub children: Seq<u32>,
    /// The transform relative to the parent.
    pub transform: T,
    /// The transform relative to the root, as the last update pass left it.
    pub transform_world: T,
    /// The instance list that the node last registered with, if any.
    pub drawable: Option<u32>,
}

/// Mathematical model of a [`NodeGraph`]. The node with id `i` is
/// `nodes[i - 1]`, the instance list with handle `h` is `instances[h - 1]`.
pub struct GraphView<T> {
    pub nodes: Seq<NodeView<T>>,
    pub instances: Seq<InstancesView<T>>,
    /// The local transform of a new node, and the matrix that a
    /// registration appends.
    pub identity: T,
    /// The world transform of a node that no update pass has reached yet.
    pub blank: T,
}

impl<T> GraphView<T> {
    pub open spec fn contains(self, id: u32) -> bool {
        1 <= id <= self.nodes.len()
    }

    pub open spec fn node(self, id: u32) -> NodeView<T>
        recommends
            self.contains(id),
    {
        self.nodes[id - 1]
    }

    pub open spec fn has_instances(self, handle: u32) -> bool {
        1 <= handle <= self.instances.len()
    }

    pub open spec fn instance_list(self, handle: u32) -> InstancesView<T>
        recommends
            self.has_instances(handle),
    {
        self.instances[handle - 1]
    }

    /// Node `id` is consistent with its neighbours: it carries its own id,
    /// its parent lists it as a child, each of its children names it as
    /// parent, no child is listed twice, and the instance list it points at
    /// holds it.
    pub open spec fn node_wf(self, id: u32) -> bool {
        let n = self.node(id);
        &&& n.id == id
        &&& n.children.no_duplicates()
        &&& match n.parent {
            Some(p) => self.contains(p) && self.node(p).children.contains(id),
            None => true,
        }
        &&& forall|k: int|
            0 <= k < n.children.len() ==> self.contains(#[trigger] n.children[k]) && self.node(
                n.children[k],
            ).parent == Some(id)
        &&& match n.drawable {
            Some(h) => self.has_instances(h) && self.instance_list(h).nodes.contains(id),
            None => true,
        }
    }

    /// Instance list `handle` is well formed and names only nodes of this
    /// graph.
    pub open spec fn instances_wf(self, handle: u32) -> bool {
        let l = self.instance_list(handle);
        &&& l.wf()
        &&& forall|k: int| 0 <= k < l.nodes.len() ==> self.contains(#[trigger] l.nodes[k])
    }

    /// The invariant of the graph. Every node has at most one parent, and
    /// the parent and child edges agree. Cycles are not excluded.
    pub open spec fn wf(self) -> bool {
        &&& self.nodes.len() <= u32::MAX
        &&& self.instances.len() <= u32::MAX
        &&& forall|id: u32| #[trigger] self.contains(id) ==> self.node_wf(id)
        &&& forall|h: u32| #[trigger] self.has_instances(h) ==> self.instances_wf(h)
    }

    /// The graph with one more node: the next id, no parent, no children,
    /// the identity as local transform.
    pub open spec fn create(self) -> Self {
        GraphView {
            nodes: self.nodes.push(
                NodeView {
                    id: (self.nodes.len() + 1) as u32,
                    parent: None,
                    children: Seq::empty(),
                    transform: self.identity,
                    transform_world: self.blank,
                    drawable: None,
                },
            ),
            ..self
        }
    }

    /// The graph with one more, empty, instance list.
    pub open spec fn create_instances(self) -> Self {
        GraphView {
            instances: self.instances.push(
                InstancesView { nodes: Seq::empty(), matrices: Seq::empty() },
            ),
            ..self
        }
    }
}

impl<T> GraphView<T> {
    /// A new node keeps the graph well formed.
    pub proof fn lemma_create_wf(self)
        requires
            self.wf(),
            self.nodes.len() < u32::MAX,
        ensures
            self.create().wf(),
    {
        let g = self.create();
        assert forall|id: u32| #[trigger] g.contains(id) implies g.node_wf(id) by {
            if self.contains(id) {
                assert(self.node_wf(id));
                assert(g.node(id) == self.node(id));
                let n = g.node(id);
                assert forall|k: int| 0 <= k < n.children.len() implies g.contains(
                    #[trigger] n.children[k],
                ) && g.node(n.children[k]).parent == Some(id) by {
                    assert(self.contains(n.children[k]));
                }
            }
        }
        assert forall|h: u32| #[trigger] g.has_instances(h) implies g.instances_wf(h) by {
            assert(self.has_instances(h));
            assert(self.instances_wf(h));
        }
    }

    /// A new instance list keeps the graph well formed.
    pub proof fn lemma_create_instances_wf(self)
        requires
            self.wf(),
            self.instances.len() < u32::MAX,
        ensures
            self.create_instances().wf(),
    {
        let g = self.create_instances();
        assert forall|id: u32| #[trigger] g.contains(id) implies g.node_wf(id) by {
            assert(self.contains(id));
            assert(self.node_wf(id));
        }
        assert forall|h: u32| #[trigger] g.has_instances(h) implies g.instances_wf(h) by {
            if self.has_instances(h) {
                assert(self.instances_wf(h));
            }
        }
    }
}

/// What removing a value from a sequence without duplicates leaves: no
/// duplicates, not the value, and every other element.
pub proof fn lemma_remove_value<A>(s: Seq<A>, v: A)
    requires
        s.no_duplicates(),
    ensures
        s.remove_value(v).no_duplicates(),
        !s.remove_value(v).contains(v),
        forall|x: A| x != v ==> (#[trigger] s.remove_value(v).contains(x) <==> s.contains(x)),
        !s.contains(v) ==> s.remove_value(v) == s,
        s.contains(v) ==> s.remove_value(v).len() == s.len() - 1,
{
    s.index_of_first_ensures(v);
    match s.index_of_first(v) {
        Some(i) => {
            let r = s.remove(i);
            assert(r == s.remove_value(v));
            assert forall|a: int, b: int| 0 <= a < r.len() && 0 <= b < r.len() && a != b implies r[a]
                != r[b] by {
                let a0 = if a < i { a } else { a + 1 };
                let b0 = if b < i { b } else { b + 1 };
                assert(r[a] == s[a0] && r[b] == s[b0]);
            }
            assert(!r.contains(v)) by {
                if r.contains(v) {
                    let a = choose|a: int| 0 <= a < r.len() && r[a] == v;
                    let a0 = if a < i { a } else { a + 1 };
                    assert(r[a] == s[a0]);
                }
            }
            assert forall|x: A| x != v implies (#[trigger] r.contains(x) <==> s.contains(x)) by {
                if r.contains(x) {
                    let a = choose|a: int| 0 <= a < r.len() && r[a] == x;
                    let a0 = if a < i { a } else { a + 1 };
                    assert(r[a] == s[a0]);
                }
                if s.contains(x) {
                    let b = choose|b: int| 0 <= b < s.len() && s[b] == x;
                    let b1 = if b < i { b } else { b - 1 };
                    assert(r[b1] == s[b]);
                }
            }
        },
        None => {},
    }
}

impl<T> GraphView<T> {
    /// The graph after `child` was hung under `parent`: the child is
    /// taken out of every child list, appended to `parent`'s, and names
    /// `parent` as its parent. Transforms and registrations stay.
    pub open spec fn add(self, parent: u32, child: u32) -> Self {
        GraphView {
            nodes: Seq::new(
                self.nodes.len(),
                |i: int|
                    {
                        let n = self.nodes[i];
                        NodeView {
                            parent: if i + 1 == child {
                                Some(parent)
                            } else {
                                n.parent
                            },
                            children: if i + 1 == parent {
                                n.children.remove_value(child).push(child)
                            } else {
                                n.children.remove_value(child)
                            },
                            ..n
                        }
                    },
            ),
            ..self
        }
    }

    /// Hanging a node under another keeps the graph well formed.
    pub proof fn lemma_add_wf(self, parent: u32, child: u32)
        requires
            self.wf(),
            self.contains(parent),
            self.contains(child),
        ensures
            self.add(parent, child).wf(),
    {
        let g = self.add(parent, child);
        assert forall|id: u32| #[trigger] g.contains(id) implies g.node_wf(id) by {
            assert(self.contains(id));
            assert(self.node_wf(id));
            let n0 = self.node(id);
            let n = g.node(id);
            lemma_remove_value(n0.children, child);
            match n.parent {
                Some(p) => {
                    if id == child {
                        let cs = g.node(parent).children;
                        assert(cs[cs.len() - 1] == child);
                    } else {
                        assert(self.contains(p));
                        assert(self.node_wf(p));
                        lemma_remove_value(self.node(p).children, child);
                        let r = self.node(p).children.remove_value(child);
                        assert(r.contains(id));
                        let a = choose|a: int| 0 <= a < r.len() && r[a] == id;
                        if p == parent {
                            assert(r.push(child)[a] == id);
                        }
                    }
                },
                None => {},
            }
            assert forall|k: int| 0 <= k < n.children.len() implies g.contains(
                #[trigger] n.children[k],
            ) && g.node(n.children[k]).parent == Some(id) by {
                let x = n.children[k];
                let r = n0.children.remove_value(child);
                if k < r.len() {
                    assert(r[k] == x);
                    assert(r.contains(x));
                    assert(n0.children.contains(x));
                    let a = choose|a: int| 0 <= a < n0.children.len() && n0.children[a] == x;
                    assert(self.contains(n0.children[a]));
                }
            }
        }
        assert forall|h: u32| #[trigger] g.has_instances(h) implies g.instances_wf(h) by {
            assert(self.has_instances(h));
            assert(self.instances_wf(h));
            let l = g.instance_list(h);
            assert forall|k: int| 0 <= k < l.nodes.len() implies g.contains(
                #[trigger] l.nodes[k],
            ) by {
                assert(self.contains(l.nodes[k]));
            }
        }
    }
}

impl<T> GraphView<T> {
    /// After `child` was hung under `parent`, `parent` lists it exactly
    /// once and no other node lists it.
    pub proof fn lemma_add_single_parent(self, parent: u32, child: u32)
        requires
            self.wf(),
            self.contains(parent),
            self.contains(child),
        ensures
            self.add(parent, child).node(child).parent == Some(parent),
            self.add(parent, child).node(parent).children.to_multiset().count(child) == 1,
            forall|n: u32|
                self.add(parent, child).contains(n) && n != parent ==> !(#[trigger] self.add(
                    parent,
                    child,
                ).node(n)).children.contains(child),
    {
        let g = self.add(parent, child);
        self.lemma_add_wf(parent, child);
        assert(g.contains(parent));
        assert(g.node_wf(parent));
        let cs = g.node(parent).children;
        assert(cs[cs.len() - 1] == child);
        cs.to_multiset_ensures();
        cs.lemma_multiset_has_no_duplicates();
        assert forall|n: u32| g.contains(n) && n != parent implies !(#[trigger] g.node(
            n,
        )).children.contains(child) by {
            assert(self.contains(n));
            assert(self.node_wf(n));
            lemma_remove_value(self.node(n).children, child);
        }
    }

    /// Hanging `child` under `parent` a second time changes nothing.
    pub proof fn lemma_add_twice(self, parent: u32, child: u32)
        requires
            self.wf(),
            self.contains(parent),
            self.contains(child),
        ensures
            self.add(parent, child).add(parent, child) == self.add(parent, child),
            self.add(parent, child).add(parent, child).node(parent).children.to_multiset().count(
                child,
            ) == 1,
    {
        let g1 = self.add(parent, child);
        let g2 = g1.add(parent, child);
        self.lemma_add_wf(parent, child);
        self.lemma_add_single_parent(parent, child);
        assert forall|i: int| 0 <= i < g1.nodes.len() implies g2.nodes[i] == g1.nodes[i] by {
            let id = (i + 1) as u32;
            assert(g1.contains(id));
            assert(g1.node_wf(id));
            assert(g1.node(id) == g1.nodes[i]);
            let cs = g1.nodes[i].children;
            lemma_remove_value(cs, child);
            if id == parent {
                let r = cs.remove_value(child);
                assert(cs[cs.len() - 1] == child);
                assert(cs.contains(child));
                assert(r.push(child) =~= cs) by {
                    cs.index_of_first_ensures(child);
                    let k = cs.index_of_first(child).unwrap();
                    assert(k == cs.len() - 1);
                }
            }
            assert(g2.nodes[i].children =~= cs);
        }
        assert(g2.nodes =~= g1.nodes);
    }
}

impl<T> GraphView<T> {
    /// The graph after `node` registered with instance list `handle`: the
    /// list registers the node and grows by one identity matrix, and the
    /// node points at the list. A list that the node pointed at before
    /// keeps its entry.
    pub open spec fn set_drawable(self, node: u32, handle: u32) -> Self {
        GraphView {
            nodes: self.nodes.update(
                node - 1,
                NodeView { drawable: Some(handle), ..self.node(node) },
            ),
            instances: self.instances.update(
                handle - 1,
                self.instance_list(handle).register(node, self.identity),
            ),
            ..self
        }
    }

    /// The graph after the local transform of `id` became `t`.
    pub open spec fn with_transform(self, id: u32, t: T) -> Self {
        GraphView {
            nodes: self.nodes.update(id - 1, NodeView { transform: t, ..self.node(id) }),
            ..self
        }
    }

    /// The graph after instance list `handle` was refreshed: the slot of
    /// each registered node holds that node's world transform. Slots
    /// beyond the registered nodes keep what they held.
    pub open spec fn aggregate(self, handle: u32) -> Self {
        let l = self.instance_list(handle);
        GraphView {
            instances: self.instances.update(
                handle - 1,
                InstancesView {
                    nodes: l.nodes,
                    matrices: Seq::new(
                        l.matrices.len(),
                        |i: int|
                            if i < l.nodes.len() {
                                self.node(l.nodes[i]).transform_world
                            } else {
                                l.matrices[i]
                            },
                    ),
                },
            ),
            ..self
        }
    }

    /// A registration keeps the graph well formed.
    pub proof fn lemma_set_drawable_wf(self, node: u32, handle: u32)
        requires
            self.wf(),
            self.contains(node),
            self.has_instances(handle),
        ensures
            self.set_drawable(node, handle).wf(),
    {
        let g = self.set_drawable(node, handle);
        assert(self.instances_wf(handle));
        let l0 = self.instance_list(handle);
        let l = g.instance_list(handle);
        assert(l == l0.register(node, self.identity));
        assert forall|x: u32| l0.nodes.contains(x) implies l.nodes.contains(x) by {
            let a = choose|a: int| 0 <= a < l0.nodes.len() && l0.nodes[a] == x;
            assert(l.nodes[a] == x);
        }
        assert(l.nodes.contains(node)) by {
            if !l0.nodes.contains(node) {
                assert(l.nodes[l.nodes.len() - 1] == node);
            }
        }
        assert forall|id: u32| #[trigger] g.contains(id) implies g.node_wf(id) by {
            assert(self.contains(id));
            assert(self.node_wf(id));
            let n = g.node(id);
            assert forall|k: int| 0 <= k < n.children.len() implies g.contains(
                #[trigger] n.children[k],
            ) && g.node(n.children[k]).parent == Some(id) by {
                assert(self.contains(n.children[k]));
            }
            match n.drawable {
                Some(h) => {
                    if h != handle {
                        assert(g.instance_list(h) == self.instance_list(h));
                    }
                },
                None => {},
            }
        }
        assert forall|h: u32| #[trigger] g.has_instances(h) implies g.instances_wf(h) by {
            assert(self.has_instances(h));
            assert(self.instances_wf(h));
            let m = g.instance_list(h);
            assert forall|k: int| 0 <= k < m.nodes.len() implies g.contains(
                #[trigger] m.nodes[k],
            ) by {
                if h == handle && k >= l0.nodes.len() {
                } else {
                    assert(self.contains(self.instance_list(h).nodes[k]));
                }
            }
        }
    }

    /// A new local transform keeps the graph well formed.
    pub proof fn lemma_with_transform_wf(self, id: u32, t: T)
        requires
            self.wf(),
            self.contains(id),
        ensures
            self.with_transform(id, t).wf(),
    {
        let g = self.with_transform(id, t);
        assert forall|x: u32| #[trigger] g.contains(x) implies g.node_wf(x) by {
            assert(self.contains(x));
            assert(self.node_wf(x));
            let n = g.node(x);
            assert forall|k: int| 0 <= k < n.children.len() implies g.contains(
                #[trigger] n.children[k],
            ) && g.node(n.children[k]).parent == Some(x) by {
                assert(self.contains(n.children[k]));
            }
        }
        assert forall|h: u32| #[trigger] g.has_instances(h) implies g.instances_wf(h) by {
            assert(self.has_instances(h));
            assert(self.instances_wf(h));
        }
    }

    /// A refreshed instance list keeps the graph well formed.
    pub proof fn lemma_aggregate_wf(self, handle: u32)
        requires
            self.wf(),
            self.has_instances(handle),
        ensures
            self.aggregate(handle).wf(),
    {
        let g = self.aggregate(handle);
        assert forall|x: u32| #[trigger] g.contains(x) implies g.node_wf(x) by {
            assert(self.contains(x));
            assert(self.node_wf(x));
            match g.node(x).drawable {
                Some(h) => {
                    assert(g.instance_list(h).nodes == self.instance_list(h).nodes);
                },
                None => {},
            }
        }
        assert forall|h: u32| #[trigger] g.has_instances(h) implies g.instances_wf(h) by {
            assert(self.has_instances(h));
            assert(self.instances_wf(h));
            assert(g.instance_list(h).nodes == self.instance_list(h).nodes);
        }
    }
}

impl<T> GraphView<T> {
    /// The node `k` parent steps above `id`, if the chain is that long.
    pub open spec fn ancestor(self, id: u32, k: nat) -> Option<u32>
        decreases k,
    {
        if k == 0 {
            Some(id)
        } else {
            match self.node(id).parent {
                Some(p) => self.ancestor(p, (k - 1) as nat),
                None => None,
            }
        }
    }

    /// `id` is `root` or hangs below it.
    pub open spec fn in_subtree(self, root: u32, id: u32) -> bool {
        exists|k: nat| self.ancestor(id, k) == Some(root)
    }

    /// The two graphs differ in world transforms at most.
    pub open spec fn same_shape(self, other: Self) -> bool {
        &&& self.nodes.len() == other.nodes.len()
        &&& self.instances == other.instances
        &&& self.identity == other.identity
        &&& self.blank == other.blank
        &&& forall|i: int|
            0 <= i < self.nodes.len() ==> #[trigger] self.nodes[i] == (NodeView {
                transform_world: self.nodes[i].transform_world,
                ..other.nodes[i]
            })
    }

    /// The world transform of `id` is what `compose` makes of the parent's
    /// world transform and the node's local transform.
    pub open spec fn composed<F: Fn(T, T) -> T>(self, id: u32, compose: F) -> bool {
        match self.node(id).parent {
            Some(p) => compose.ensures(
                (self.node(p).transform_world, self.node(id).transform),
                self.node(id).transform_world,
            ),
            None => false,
        }
    }

    /// The world transforms below `root` are up to date: the root's equals
    /// its local transform, and every other node of the subtree is
    /// composed from its parent.
    pub open spec fn world_consistent<F: Fn(T, T) -> T>(self, root: u32, compose: F) -> bool {
        &&& self.node(root).transform_world == self.node(root).transform
        &&& forall|id: u32|
            self.contains(id) && id != root && #[trigger] self.in_subtree(root, id)
                ==> self.composed(id, compose)
    }

    /// `self` is `before` after an update pass from `root`: the same
    /// shape, consistent world transforms below `root`, and untouched
    /// world transforms elsewhere.
    pub open spec fn world_updated<F: Fn(T, T) -> T>(
        self,
        before: Self,
        root: u32,
        compose: F,
    ) -> bool {
        &&& self.same_shape(before)
        &&& self.world_consistent(root, compose)
        &&& forall|id: u32|
            self.contains(id) && !(#[trigger] self.in_subtree(root, id)) ==> self.node(
                id,
            ).transform_world == before.node(id).transform_world
    }

    /// Graphs of the same shape have the same ancestors.
    pub proof fn lemma_same_shape_ancestor(self, other: Self, id: u32, k: nat)
        requires
            other.wf(),
            other.contains(id),
            self.same_shape(other),
        ensures
            self.ancestor(id, k) == other.ancestor(id, k),
        decreases k,
    {
        if k > 0 {
            assert(other.node_wf(id));
            assert(self.nodes[id - 1].parent == other.nodes[id - 1].parent);
            match other.node(id).parent {
                Some(p) => {
                    self.lemma_same_shape_ancestor(other, p, (k - 1) as nat);
                },
                None => {},
            }
        }
    }

    /// A graph of the same shape as a well-formed one is well formed.
    pub proof fn lemma_same_shape_wf(self, other: Self)
        requires
            other.wf(),
            self.same_shape(other),
        ensures
            self.wf(),
    {
        assert forall|id: u32| #[trigger] self.contains(id) implies self.node_wf(id) by {
            assert(other.contains(id));
            assert(other.node_wf(id));
            assert(self.nodes[id - 1].parent == other.nodes[id - 1].parent);
            let n = self.node(id);
            match n.parent {
                Some(p) => {
                    assert(self.nodes[p - 1].children == other.nodes[p - 1].children);
                },
                None => {},
            }
            assert forall|k: int| 0 <= k < n.children.len() implies self.contains(
                #[trigger] n.children[k],
            ) && self.node(n.children[k]).parent == Some(id) by {
                let c = n.children[k];
                assert(other.contains(other.node(id).children[k]));
                assert(self.nodes[c - 1].parent == other.nodes[c - 1].parent);
            }
        }
        assert forall|h: u32| #[trigger] self.has_instances(h) implies self.instances_wf(h) by {
            assert(other.has_instances(h));
            assert(other.instances_wf(h));
            let l = self.instance_list(h);
            assert forall|k: int| 0 <= k < l.nodes.len() implies self.contains(
                #[trigger] l.nodes[k],
            ) by {
                assert(other.contains(other.instance_list(h).nodes[k]));
            }
        }
    }
}

impl<T> GraphView<T> {
    /// The graph after the local transform of `id` went through the
    /// operations `ops`, one call after the other, first to last.
    pub open spec fn transformed(self, id: u32, ops: Seq<spec_fn(T) -> T>) -> Self
        decreases ops.len(),
    {
        if ops.len() == 0 {
            self
        } else {
            let g = self.transformed(id, ops.drop_last());
            g.with_transform(id, ops.last()(g.node(id).transform))
        }
    }

    /// The product of the local transforms on the path that leads from the
    /// node `k` steps above `id` down to `id`, the topmost first.
    pub open spec fn path_product(self, id: u32, k: nat, times: spec_fn(T, T) -> T) -> T
        decreases k,
    {
        if k == 0 {
            self.node(id).transform
        } else {
            match self.node(id).parent {
                Some(p) => times(
                    self.path_product(p, (k - 1) as nat, times),
                    self.node(id).transform,
                ),
                None => self.node(id).transform,
            }
        }
    }

    /// A run of transform operations on one node composes in call order:
    /// the local transform ends as the last operation applied to the
    /// result of the earlier ones, starting from the transform the node
    /// had. Nothing else in the graph changes.
    pub proof fn lemma_transforms_compose(self, id: u32, ops: Seq<spec_fn(T) -> T>)
        requires
            self.contains(id),
        ensures
            self.transformed(id, ops) == self.with_transform(
                id,
                ops.fold_left(self.node(id).transform, |acc: T, f: spec_fn(T) -> T| f(acc)),
            ),
        decreases ops.len(),
    {
        let step = |acc: T, f: spec_fn(T) -> T| f(acc);
        if ops.len() == 0 {
            assert(self.with_transform(id, self.node(id).transform).nodes =~= self.nodes);
        } else {
            self.lemma_transforms_compose(id, ops.drop_last());
            let t = ops.drop_last().fold_left(self.node(id).transform, step);
            let g = self.with_transform(id, t);
            let u = ops.last()(t);
            assert(g.with_transform(id, u).nodes =~= self.with_transform(id, u).nodes);
        }
    }

    /// After an update pass from a root without parent, the world
    /// transform of every node below the root is the product of the local
    /// transforms on the path from the root down to the node, and the
    /// world transform of the root is its local transform.
    pub proof fn lemma_world_is_path_product<F: Fn(T, T) -> T>(
        self,
        root: u32,
        compose: F,
        times: spec_fn(T, T) -> T,
        id: u32,
        k: nat,
    )
        requires
            self.wf(),
            self.contains(root),
            self.contains(id),
            self.node(root).parent is None,
            self.world_consistent(root, compose),
            forall|a: T, b: T, r: T| compose.ensures((a, b), r) ==> r == times(a, b),
            self.ancestor(id, k) == Some(root),
        ensures
            self.node(id).transform_world == self.path_product(id, k, times),
            self.node(root).transform_world == self.node(root).transform,
        decreases k,
    {
        if k > 0 {
            assert(self.node_wf(id));
            assert(self.in_subtree(root, id));
            assert(self.composed(id, compose));
            match self.node(id).parent {
                Some(p) => {
                    self.lemma_world_is_path_product(root, compose, times, p, (k - 1) as nat);
                },
                None => {},
            }
        }
    }
}

impl<T> GraphView<T> {
    /// The graph after the instance lists `handles` were refreshed one
    /// after the other, first to last.
    pub open spec fn aggregate_all(self, handles: Seq<u32>) -> Self
        decreases handles.len(),
    {
        if handles.len() == 0 {
            self
        } else {
            self.aggregate_all(handles.drop_last()).aggregate(handles.last())
        }
    }

    /// Refreshing instance lists leaves the nodes as they are and keeps
    /// the graph well formed.
    pub proof fn lemma_aggregate_all(self, handles: Seq<u32>)
        requires
            self.wf(),
            forall|k: int| 0 <= k < handles.len() ==> self.has_instances(#[trigger] handles[k]),
        ensures
            self.aggregate_all(handles).wf(),
            self.aggregate_all(handles).nodes == self.nodes,
            self.aggregate_all(handles).instances.len() == self.instances.len(),
            self.aggregate_all(handles).identity == self.identity,
            self.aggregate_all(handles).blank == self.blank,
        decreases handles.len(),
    {
        if handles.len() > 0 {
            let rest = handles.drop_last();
            assert forall|k: int| 0 <= k < rest.len() implies self.has_instances(
                #[trigger] rest[k],
            ) by {
                assert(rest[k] == handles[k]);
            }
            self.lemma_aggregate_all(rest);
            let g = self.aggregate_all(rest);
            assert(self.has_instances(handles[handles.len() - 1]));
            g.lemma_aggregate_wf(handles.last());
        }
    }
}

} // verus!
