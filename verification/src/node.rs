//! The node graph: an arena of transform nodes addressed by id, with
//! parent and child edges stored as ids, and the instance lists that
//! nodes register with.

use std::collections::VecDeque;
use vstd::prelude::*;
use crate::drawable::DrawableInstances;
use crate::model::{lemma_remove_value, GraphView, NodeView};

verus! {

/// One element of the transform hierarchy.
pub struct Node<T> {
    id: u32,
    parent: Option<u32>,
    pub children: Vec<u32>,
    pub transform: T,
    pub transform_world: T,
    drawable: Option<u32>,
}

impl<T> View for Node<T> {
    type V = NodeView<T>;

    closed spec fn view(&self) -> NodeView<T> {
        NodeView {
            id: self.id,
            parent: self.parent,
            children: self.children@,
            transform: self.transform,
            transform_world: self.transform_world,
            drawable: self.drawable,
        }
    }
}

impl<T: Copy> Node<T> {
    /// A node without parent, children or drawable.
    pub fn new(id: u32, transform: T, transform_world: T) -> (n: Self)
        ensures
            n@ == (NodeView {
                id,
                parent: None,
                children: Seq::empty(),
                transform,
                transform_world,
                drawable: None,
            }),
    {
        Node { id, parent: None, children: Vec::new(), transform, transform_world, drawable: None }
    }

    pub fn id(&self) -> (r: u32)
        ensures
            r == self@.id,
    {
        self.id
    }

    pub fn parent(&self) -> (r: Option<u32>)
        ensures
            r == self@.parent,
    {
        self.parent
    }

    pub fn drawable(&self) -> (r: Option<u32>)
        ensures
            r == self@.drawable,
    {
        self.drawable
    }

    pub fn children(&self) -> (r: &Vec<u32>)
        ensures
            r@ == self@.children,
    {
        &self.children
    }

    pub fn transform(&self) -> (r: T)
        ensures
            r == self@.transform,
    {
        self.transform
    }

    pub fn transform_world(&self) -> (r: T)
        ensures
            r == self@.transform_world,
    {
        self.transform_world
    }

    /// Composes the world transform with the local one, in place: the
    /// world transform becomes `compose(world, local)`. Nothing else
    /// changes.
    pub fn apply_transform<F: Fn(T, T) -> T>(&mut self, compose: &F)
        requires
            compose.requires((old(self)@.transform_world, old(self)@.transform)),
        ensures
            compose.ensures(
                (old(self)@.transform_world, old(self)@.transform),
                final(self)@.transform_world,
            ),
            final(self)@ == (NodeView {
                transform_world: final(self)@.transform_world,
                ..old(self)@
            }),
    {
        self.transform_world = compose(self.transform_world, self.transform);
    }
}

/// The arena that owns every node and every instance list.
pub struct NodeGraph<T> {
    nodes: Vec<Node<T>>,
    instances: Vec<DrawableInstances<T>>,
    identity: T,
    blank: T,
}

impl<T> View for NodeGraph<T> {
    type V = GraphView<T>;

    closed spec fn view(&self) -> GraphView<T> {
        GraphView {
            nodes: self.nodes@.map_values(|n: Node<T>| n@),
            instances: self.instances@.map_values(|l: DrawableInstances<T>| l@),
            identity: self.identity,
            blank: self.blank,
        }
    }
}

impl<T: Copy> NodeGraph<T> {
    /// An empty graph. `identity` is the local transform that new nodes
    /// start with and the matrix that a registration appends; `blank` is
    /// the world transform of a node before the first update pass.
    pub fn new(identity: T, blank: T) -> (g: Self)
        ensures
            g@.nodes.len() == 0,
            g@.instances.len() == 0,
            g@.identity == identity,
            g@.blank == blank,
            g@.wf(),
    {
        NodeGraph { nodes: Vec::new(), instances: Vec::new(), identity, blank }
    }

    /// The number of nodes. Ids run from 1 to this number.
    pub fn node_count(&self) -> (r: usize)
        ensures
            r == self@.nodes.len(),
    {
        self.nodes.len()
    }

    /// The number of instance lists. Handles run from 1 to this number.
    pub fn instances_count(&self) -> (r: usize)
        ensures
            r == self@.instances.len(),
    {
        self.instances.len()
    }

    pub fn contains(&self, id: u32) -> (r: bool)
        ensures
            r == self@.contains(id),
    {
        1 <= id && id as usize <= self.nodes.len()
    }

    pub fn has_instances(&self, handle: u32) -> (r: bool)
        ensures
            r == self@.has_instances(handle),
    {
        1 <= handle && handle as usize <= self.instances.len()
    }

    pub fn node(&self, id: u32) -> (n: &Node<T>)
        requires
            self@.contains(id),
        ensures
            n@ == self@.node(id),
    {
        &self.nodes[(id - 1) as usize]
    }

    pub fn instances(&self, handle: u32) -> (l: &DrawableInstances<T>)
        requires
            self@.has_instances(handle),
        ensures
            l@ == self@.instance_list(handle),
    {
        &self.instances[(handle - 1) as usize]
    }

    /// Adds a node and returns its id, which no earlier node has.
    pub fn create(&mut self) -> (id: u32)
        requires
            old(self)@.wf(),
            old(self)@.nodes.len() < u32::MAX,
        ensures
            final(self)@ == old(self)@.create(),
            final(self)@.wf(),
            id == old(self)@.nodes.len() + 1,
            !old(self)@.contains(id),
            final(self)@.contains(id),
    {
        let id: u32 = (self.nodes.len() + 1) as u32;
        self.nodes.push(Node::new(id, self.identity, self.blank));
        proof {
            assert(self@.nodes =~= old(self)@.create().nodes);
            assert(self@.instances =~= old(self)@.instances);
            old(self)@.lemma_create_wf();
        }
        id
    }

    /// Adds an empty instance list and returns its handle.
    pub fn create_instances(&mut self) -> (handle: u32)
        requires
            old(self)@.wf(),
            old(self)@.instances.len() < u32::MAX,
        ensures
            final(self)@ == old(self)@.create_instances(),
            final(self)@.wf(),
            handle == old(self)@.instances.len() + 1,
            !old(self)@.has_instances(handle),
            final(self)@.has_instances(handle),
    {
        let handle: u32 = (self.instances.len() + 1) as u32;
        self.instances.push(DrawableInstances::new());
        proof {
            assert(self@.nodes =~= old(self)@.nodes);
            assert(self@.instances =~= old(self)@.create_instances().instances);
            old(self)@.lemma_create_instances_wf();
        }
        handle
    }
}

impl<T: Copy> NodeGraph<T> {
    /// Hangs `child` under `parent`. The child leaves the child list of
    /// its former parent first, so it is listed once, under `parent` only.
    /// Whether `parent` is a descendant of `child` is not examined.
    pub fn add(&mut self, parent: u32, child: u32)
        requires
            old(self)@.wf(),
            old(self)@.contains(parent),
            old(self)@.contains(child),
        ensures
            final(self)@ == old(self)@.add(parent, child),
            final(self)@.wf(),
            final(self)@.node(child).parent == Some(parent),
            final(self)@.node(parent).children.to_multiset().count(child) == 1,
            forall|n: u32|
                final(self)@.contains(n) && n != parent ==> !(#[trigger] final(self)@.node(
                    n,
                )).children.contains(child),
    {
        proof {
            old(self)@.lemma_add_single_parent(parent, child);
        }
        let ci: usize = (child - 1) as usize;
        let pi: usize = (parent - 1) as usize;
        proof {
            assert(self@.node_wf(child));
            assert(self@.node_wf(parent));
        }
        if let Some(former) = self.nodes[ci].parent {
            let fi: usize = (former - 1) as usize;
            proof {
                assert(self@.contains(former));
                assert(self@.node_wf(former));
            }
            let ghost siblings = self.nodes[fi as int].children@;
            assert(siblings.len() == self.nodes[fi as int].children.len());
            let mut k: usize = 0;
            while self.nodes[fi].children[k] != child
                invariant
                    fi < self.nodes.len(),
                    self.nodes[fi as int].children@ == siblings,
                    siblings.contains(child),
                    siblings.len() <= usize::MAX,
                    k < siblings.len(),
                    forall|j: int| 0 <= j < k ==> siblings[j] != child,
                decreases siblings.len() - k,
            {
                k += 1;
            }
            self.nodes[fi].children.remove(k);
            proof {
                siblings.index_of_first_ensures(child);
                assert(siblings.remove_value(child) == siblings.remove(k as int));
            }
        }
        self.nodes[ci].parent = Some(parent);
        self.nodes[pi].children.push(child);
        proof {
            let g = old(self)@.add(parent, child);
            assert forall|i: int| 0 <= i < g.nodes.len() implies self@.nodes[i] == g.nodes[i] by {
                let id = (i + 1) as u32;
                assert(old(self)@.contains(id));
                assert(old(self)@.node_wf(id));
                let n0 = old(self)@.nodes[i];
                lemma_remove_value(n0.children, child);
                if n0.children.contains(child) {
                    let a = choose|a: int| 0 <= a < n0.children.len() && n0.children[a] == child;
                    assert(old(self)@.node(n0.children[a]).parent == Some(id));
                }
                assert(self@.nodes[i].children =~= g.nodes[i].children);
            }
            assert(self@.nodes =~= g.nodes);
            assert(self@.instances =~= g.instances);
            old(self)@.lemma_add_wf(parent, child);
        }
    }
}

impl<T: Copy> NodeGraph<T> {
    /// Registers `node` with instance list `handle` and records the list on
    /// the node. The list gets one more identity matrix on every call. A
    /// list recorded earlier is replaced on the node and keeps its entry.
    pub fn set_drawable(&mut self, node: u32, handle: u32)
        requires
            old(self)@.wf(),
            old(self)@.contains(node),
            old(self)@.has_instances(handle),
        ensures
            final(self)@ == old(self)@.set_drawable(node, handle),
            final(self)@.wf(),
    {
        let ni: usize = (node - 1) as usize;
        let hi: usize = (handle - 1) as usize;
        proof {
            assert(self@.instances_wf(handle));
        }
        let identity = self.identity;
        self.instances[hi].register(node, identity);
        self.nodes[ni].drawable = Some(handle);
        proof {
            let g = old(self)@.set_drawable(node, handle);
            assert(self@.nodes =~= g.nodes);
            assert(self@.instances =~= g.instances);
            old(self)@.lemma_set_drawable_wf(node, handle);
        }
    }

    /// Replaces the local transform of `id` by what `op` makes of it. The
    /// operation sees the current transform, so successive calls compose
    /// in call order. Nothing else in the graph changes.
    pub fn transform_local<F: FnOnce(T) -> T>(&mut self, id: u32, op: F)
        requires
            old(self)@.contains(id),
            op.requires((old(self)@.node(id).transform,)),
        ensures
            op.ensures((old(self)@.node(id).transform,), final(self)@.node(id).transform),
            final(self)@ == old(self)@.with_transform(id, final(self)@.node(id).transform),
            old(self)@.wf() ==> final(self)@.wf(),
    {
        let i: usize = (id - 1) as usize;
        let t = op(self.nodes[i].transform);
        self.nodes[i].transform = t;
        proof {
            let g = old(self)@.with_transform(id, t);
            assert(self@.nodes =~= g.nodes);
            assert(self@.instances =~= g.instances);
            if old(self)@.wf() {
                old(self)@.lemma_with_transform_wf(id, t);
            }
        }
    }

    /// Refreshes instance list `handle`: copies the world transform of
    /// each registered node into the node's matrix slot.
    pub fn aggregate(&mut self, handle: u32)
        requires
            old(self)@.wf(),
            old(self)@.has_instances(handle),
        ensures
            final(self)@ == old(self)@.aggregate(handle),
            final(self)@.wf(),
    {
        let hi: usize = (handle - 1) as usize;
        proof {
            assert(self@.instances_wf(handle));
        }
        let ghost l0 = self@.instance_list(handle);
        let count = self.instances[hi].nodes().len();
        let mut i: usize = 0;
        while i < count
            invariant
                i <= count,
                count == l0.nodes.len(),
                l0.wf(),
                hi == handle - 1,
                l0 == old(self)@.instance_list(handle),
                old(self)@.wf(),
                old(self)@.has_instances(handle),
                self.nodes@ == old(self).nodes@,
                self.identity == old(self).identity,
                self.blank == old(self).blank,
                self.instances@.len() == old(self).instances@.len(),
                forall|j: int|
                    0 <= j < self.instances@.len() && j != hi ==> self.instances@[j] == old(
                        self,
                    ).instances@[j],
                self.instances@[hi as int]@.nodes == l0.nodes,
                self.instances@[hi as int]@.matrices.len() == l0.matrices.len(),
                forall|j: int|
                    0 <= j < i ==> self.instances@[hi as int]@.matrices[j] == old(self)@.node(
                        l0.nodes[j],
                    ).transform_world,
                forall|j: int|
                    i <= j < l0.matrices.len() ==> self.instances@[hi as int]@.matrices[j]
                        == l0.matrices[j],
            decreases count - i,
        {
            let id = self.instances[hi].nodes()[i];
            proof {
                assert(old(self)@.instances_wf(handle));
                assert(old(self)@.contains(l0.nodes[i as int]));
            }
            let world = self.nodes[(id - 1) as usize].transform_world;
            self.instances[hi].store(i, world);
            i += 1;
        }
        proof {
            let g = old(self)@.aggregate(handle);
            assert(self@.nodes =~= g.nodes);
            assert(self@.instance_list(handle).matrices =~= g.instance_list(handle).matrices);
            assert(self@.instances =~= g.instances);
            old(self)@.lemma_aggregate_wf(handle);
        }
    }
}

/// The number of `false` entries.
spec fn count_false(s: Seq<bool>) -> nat
    decreases s.len(),
{
    if s.len() == 0 {
        0
    } else {
        count_false(s.drop_last()) + if s.last() {
            0nat
        } else {
            1nat
        }
    }
}

proof fn lemma_count_false_update(s: Seq<bool>, i: int)
    requires
        0 <= i < s.len(),
        !s[i],
    ensures
        count_false(s.update(i, true)) + 1 == count_false(s),
    decreases s.len(),
{
    let t = s.update(i, true);
    if i == s.len() - 1 {
        assert(t.drop_last() =~= s.drop_last());
    } else {
        assert(t.drop_last() =~= s.drop_last().update(i, true));
        lemma_count_false_update(s.drop_last(), i);
    }
}

/// What an update pass in progress has established of node `id`: a node
/// that was reached hangs below the root and is composed from its parent,
/// which was reached before it; any other node is untouched.
spec fn node_inv<T, F: Fn(T, T) -> T>(
    cur: GraphView<T>,
    g0: GraphView<T>,
    root: u32,
    compose: F,
    seen: Seq<bool>,
    depth: Seq<nat>,
    id: u32,
) -> bool {
    if seen[id - 1] {
        &&& g0.ancestor(id, depth[id - 1]) == Some(root)
        &&& id != root ==> match g0.node(id).parent {
            Some(p) => seen[p - 1] && compose.ensures(
                (cur.node(p).transform_world, g0.node(id).transform),
                cur.node(id).transform_world,
            ),
            None => false,
        }
    } else {
        cur.node(id).transform_world == g0.node(id).transform_world
    }
}

spec fn pass_inv<T, F: Fn(T, T) -> T>(
    cur: GraphView<T>,
    g0: GraphView<T>,
    root: u32,
    compose: F,
    seen: Seq<bool>,
    depth: Seq<nat>,
) -> bool {
    &&& cur.same_shape(g0)
    &&& seen.len() == g0.nodes.len()
    &&& depth.len() == g0.nodes.len()
    &&& seen[root - 1]
    &&& cur.node(root).transform_world == g0.node(root).transform
    &&& forall|id: u32| #[trigger] g0.contains(id) ==> node_inv(cur, g0, root, compose, seen, depth, id)
}

/// The first `upto` children of `id` were reached.
spec fn expanded<T>(g0: GraphView<T>, seen: Seq<bool>, id: u32, upto: int) -> bool {
    forall|k: int| 0 <= k < upto ==> seen[#[trigger] g0.node(id).children[k] - 1]
}

/// Every queued node was reached, and every reached node is queued or has
/// all its children reached; of node `open`, the first `upto` children.
spec fn frontier_inv<T>(
    g0: GraphView<T>,
    seen: Seq<bool>,
    queue: Seq<u32>,
    open: u32,
    upto: int,
) -> bool {
    &&& forall|j: int| 0 <= j < queue.len() ==> g0.contains(#[trigger] queue[j]) && seen[queue[j] - 1]
    &&& forall|id: u32| #[trigger]
        g0.contains(id) && seen[id - 1] ==> queue.contains(id) || expanded(
            g0,
            seen,
            id,
            if id == open {
                upto
            } else {
                g0.node(id).children.len() as int
            },
        )
}

/// Once no node is queued, every node below the root was reached.
proof fn lemma_pass_reaches<T>(g0: GraphView<T>, seen: Seq<bool>, root: u32, id: u32, k: nat)
    requires
        g0.wf(),
        g0.contains(root),
        g0.contains(id),
        seen.len() == g0.nodes.len(),
        seen[root - 1],
        frontier_inv(g0, seen, Seq::empty(), 0, 0),
        g0.ancestor(id, k) == Some(root),
    ensures
        seen[id - 1],
    decreases k,
{
    if k > 0 {
        assert(g0.node_wf(id));
        match g0.node(id).parent {
            Some(p) => {
                lemma_pass_reaches(g0, seen, root, p, (k - 1) as nat);
                assert(g0.contains(p) && seen[p - 1]);
                assert(!Seq::<u32>::empty().contains(p));
                assert(expanded(g0, seen, p, g0.node(p).children.len() as int));
                let a = choose|a: int|
                    0 <= a < g0.node(p).children.len() && g0.node(p).children[a] == id;
                assert(seen[g0.node(p).children[a] - 1]);
            },
            None => {},
        }
    }
}

impl<T: Copy> NodeGraph<T> {
    /// The world-transform pass. The world transform of `root` becomes
    /// its local transform. Then the nodes below `root` are visited
    /// breadth first, and each gets `compose(parent world, own local)`
    /// as its world transform. A node is visited once: in a graph where
    /// `root` hangs below itself the pass still ends, and `root` keeps
    /// the world transform it was given first.
    pub fn update_world<F: Fn(T, T) -> T>(&mut self, root: u32, compose: F)
        requires
            old(self)@.wf(),
            old(self)@.contains(root),
            forall|a: T, b: T| compose.requires((a, b)),
        ensures
            final(self)@.world_updated(old(self)@, root, compose),
            final(self)@.wf(),
    {
        let ghost g0 = self@;
        let total = self.nodes.len();
        let mut seen: Vec<bool> = Vec::new();
        while seen.len() < total
            invariant
                seen.len() <= total,
                forall|j: int| 0 <= j < seen.len() ==> !seen@[j],
            decreases total - seen.len(),
        {
            seen.push(false);
        }
        let ri: usize = (root - 1) as usize;
        let local = self.nodes[ri].transform;
        self.nodes[ri].transform_world = local;
        seen[ri] = true;
        let mut queue: VecDeque<u32> = VecDeque::new();
        queue.push_back(root);
        let ghost mut depth: Seq<nat> = Seq::new(total as nat, |i: int| 0nat);
        proof {
            assert(queue@[0] == root);
            assert(queue@.contains(root));
            assert forall|id: u32| #[trigger] g0.contains(id) implies node_inv(
                self@,
                g0,
                root,
                compose,
                seen@,
                depth,
                id,
            ) by {}
        }
        loop
            invariant
                self.nodes.len() == total,
                total == g0.nodes.len(),
                g0.wf(),
                g0.contains(root),
                forall|a: T, b: T| compose.requires((a, b)),
                pass_inv(self@, g0, root, compose, seen@, depth),
                frontier_inv(g0, seen@, queue@, 0, 0),
            ensures
                queue@.len() == 0,
            decreases 2 * count_false(seen@) + queue@.len(),
        {
            let ghost before = queue@;
            let next = queue.pop_front();
            if next.is_none() {
                break;
            }
            let p = next.unwrap();
            let pi: usize = (p - 1) as usize;
            let ghost bound = 2 * count_false(seen@) + before.len();
            proof {
                assert(g0.contains(before[0]));
                assert forall|id: u32| #[trigger]
                    g0.contains(id) && seen@[id - 1] && id != p && before.contains(
                        id,
                    ) implies queue@.contains(id) by {
                    let a = choose|a: int| 0 <= a < before.len() && before[a] == id;
                    assert(queue@[a - 1] == id);
                }
                assert forall|j: int| 0 <= j < queue@.len() implies g0.contains(
                    #[trigger] queue@[j],
                ) && seen@[queue@[j] - 1] by {
                    assert(queue@[j] == before[j + 1]);
                }
            }
            let world = self.nodes[pi].transform_world;
            let kids = self.nodes[pi].children.len();
            let mut k: usize = 0;
            while k < kids
                invariant
                    self.nodes.len() == total,
                    total == g0.nodes.len(),
                    g0.wf(),
                    g0.contains(root),
                    g0.contains(p),
                    pi == p - 1,
                    k <= kids,
                    kids == g0.node(p).children.len(),
                    seen@[pi as int],
                    world == self@.node(p).transform_world,
                    forall|a: T, b: T| compose.requires((a, b)),
                    pass_inv(self@, g0, root, compose, seen@, depth),
                    frontier_inv(g0, seen@, queue@, p, k as int),
                    2 * count_false(seen@) + queue@.len() < bound,
                decreases kids - k,
            {
                proof {
                    assert(g0.node_wf(p));
                    assert(g0.contains(g0.node(p).children[k as int]));
                }
                let c = self.nodes[pi].children[k];
                let ci: usize = (c - 1) as usize;
                if !seen[ci] {
                    let ghost seen0 = seen@;
                    let ghost queue0 = queue@;
                    let ghost cur0 = self@;
                    let ghost depth0 = depth;
                    seen[ci] = true;
                    self.nodes[ci].transform_world = world;
                    self.nodes[ci].apply_transform(&compose);
                    if self.nodes[ci].children.len() > 0 {
                        queue.push_back(c);
                    }
                    proof {
                        depth = depth.update(ci as int, depth[pi as int] + 1);
                        lemma_count_false_update(seen0, ci as int);
                        assert(g0.node(c).parent == Some(p));
                        assert(node_inv(cur0, g0, root, compose, seen0, depth0, p));
                        assert forall|id: u32| #[trigger] g0.contains(id) implies node_inv(
                            self@,
                            g0,
                            root,
                            compose,
                            seen@,
                            depth,
                            id,
                        ) by {
                            assert(node_inv(cur0, g0, root, compose, seen0, depth0, id));
                            if id != c {
                                assert(self@.node(id) == cur0.node(id));
                                if seen0[id - 1] && id != root {
                                    let q = g0.node(id).parent.unwrap();
                                    assert(self@.node(q) == cur0.node(q));
                                }
                            }
                        }
                        assert(self@.instances =~= cur0.instances);
                        assert forall|i: int| 0 <= i < self@.nodes.len() implies #[trigger] self@.nodes[i]
                            == (NodeView {
                            transform_world: self@.nodes[i].transform_world,
                            ..g0.nodes[i]
                        }) by {
                            assert(cur0.nodes[i] == (NodeView {
                                transform_world: cur0.nodes[i].transform_world,
                                ..g0.nodes[i]
                            }));
                        }
                        assert forall|j: int| 0 <= j < queue@.len() implies g0.contains(
                            #[trigger] queue@[j],
                        ) && seen@[queue@[j] - 1] by {
                            if j < queue0.len() {
                                assert(queue@[j] == queue0[j]);
                            }
                        }
                        assert forall|id: u32| #[trigger]
                            g0.contains(id) && seen@[id - 1] implies queue@.contains(id)
                            || expanded(
                            g0,
                            seen@,
                            id,
                            if id == p {
                                k as int + 1
                            } else {
                                g0.node(id).children.len() as int
                            },
                        ) by {
                            if id == c {
                                if g0.node(c).children.len() > 0 {
                                    assert(queue@[queue@.len() - 1] == c);
                                }
                            } else {
                                if queue0.contains(id) {
                                    let a = choose|a: int| 0 <= a < queue0.len() && queue0[a] == id;
                                    assert(queue@[a] == id);
                                } else {
                                    assert(expanded(
                                        g0,
                                        seen0,
                                        id,
                                        if id == p {
                                            k as int
                                        } else {
                                            g0.node(id).children.len() as int
                                        },
                                    ));
                                }
                            }
                        }
                    }
                } else {
                    proof {
                        assert forall|id: u32| #[trigger]
                            g0.contains(id) && seen@[id - 1] implies queue@.contains(id)
                            || expanded(
                            g0,
                            seen@,
                            id,
                            if id == p {
                                k as int + 1
                            } else {
                                g0.node(id).children.len() as int
                            },
                        ) by {
                            if !queue@.contains(id) {
                                assert(expanded(
                                    g0,
                                    seen@,
                                    id,
                                    if id == p {
                                        k as int
                                    } else {
                                        g0.node(id).children.len() as int
                                    },
                                ));
                            }
                        }
                    }
                }
                k += 1;
            }
        }
        proof {
            let g = self@;
            assert(queue@ =~= Seq::<u32>::empty());
            g.lemma_same_shape_wf(g0);
            assert forall|id: u32|
                g.contains(id) && id != root && #[trigger] g.in_subtree(root, id) implies g.composed(
                id,
                compose,
            ) by {
                let k = choose|k: nat| g.ancestor(id, k) == Some(root);
                g.lemma_same_shape_ancestor(g0, id, k);
                lemma_pass_reaches(g0, seen@, root, id, k);
                assert(g0.contains(id));
                assert(node_inv(g, g0, root, compose, seen@, depth, id));
                assert(g.nodes[id - 1].parent == g0.nodes[id - 1].parent);
            }
            assert forall|id: u32| g.contains(id) && !(#[trigger] g.in_subtree(root, id)) implies g.node(
                id,
            ).transform_world == g0.node(id).transform_world by {
                assert(g0.contains(id));
                assert(node_inv(g, g0, root, compose, seen@, depth, id));
                if seen@[id - 1] {
                    g.lemma_same_shape_ancestor(g0, id, depth[id - 1]);
                }
            }
            assert(g.nodes[root - 1].transform == g0.nodes[root - 1].transform);
        }
    }
}

} // verus!
