//! Instance lists: for one drawable, the nodes that show it and the
//! matrix buffer that an instanced draw call consumes.

use vstd::prelude::*;
use crate::node::NodeGraph;

verus! {

/// Mathematical model of a [`DrawableInstances`].
pub struct InstancesView<T> {
    /// The registered node ids, in registration order. The position of an
    /// id is its matrix slot.
    pub nodes: Seq<u32>,
    /// The matrix buffer. It has one entry per registration call, so it is
    /// at least as long as `nodes`.
    pub matrices: Seq<T>,
}

impl<T> InstancesView<T> {
    /// No node is registered twice and every registered node has a slot.
    pub open spec fn wf(self) -> bool {
        &&& self.nodes.no_duplicates()
        &&& self.nodes.len() <= self.matrices.len()
    }

    /// The list after `node` asked to be shown: the node is registered
    /// unless it already was, and one `identity` matrix is appended either
    /// way.
    pub open spec fn register(self, node: u32, identity: T) -> Self {
        InstancesView {
            nodes: if self.nodes.contains(node) {
                self.nodes
            } else {
                self.nodes.push(node)
            },
            matrices: self.matrices.push(identity),
        }
    }

    /// The list after slot `slot` received matrix `m`.
    pub open spec fn store(self, slot: int, m: T) -> Self {
        InstancesView { nodes: self.nodes, matrices: self.matrices.update(slot, m) }
    }
}

/// The registry and matrix buffer of one drawable.
pub struct DrawableInstances<T> {
    nodes: Vec<u32>,
    matrices: Vec<T>,
}

impl<T> View for DrawableInstances<T> {
    type V = InstancesView<T>;

    closed spec fn view(&self) -> InstancesView<T> {
        InstancesView { nodes: self.nodes@, matrices: self.matrices@ }
    }
}

impl<T: Copy> DrawableInstances<T> {
    /// An empty list: no node, no matrix.
    pub fn new() -> (r: Self)
        ensures
            r@.nodes == Seq::<u32>::empty(),
            r@.matrices == Seq::<T>::empty(),
            r@.wf(),
    {
        DrawableInstances { nodes: Vec::new(), matrices: Vec::new() }
    }

    /// The registered node ids in slot order.
    pub fn nodes(&self) -> (r: &Vec<u32>)
        ensures
            r@ == self@.nodes,
    {
        &self.nodes
    }

    /// The matrix buffer.
    pub fn matrices(&self) -> (r: &Vec<T>)
        ensures
            r@ == self@.matrices,
    {
        &self.matrices
    }

    /// Whether `node` is registered.
    pub fn is_registered(&self, node: u32) -> (r: bool)
        ensures
            r == self@.nodes.contains(node),
    {
        let mut i: usize = 0;
        while i < self.nodes.len()
            invariant
                i <= self.nodes.len(),
                forall|j: int| 0 <= j < i ==> self.nodes@[j] != node,
            decreases self.nodes.len() - i,
        {
            if self.nodes[i] == node {
                return true;
            }
            i += 1;
        }
        false
    }

    /// Registers `node` and appends one `identity` matrix. A node that is
    /// already registered keeps its slot; the matrix is appended all the
    /// same.
    pub fn register(&mut self, node: u32, identity: T)
        requires
            old(self)@.wf(),
        ensures
            final(self)@ == old(self)@.register(node, identity),
            final(self)@.wf(),
    {
        if !self.is_registered(node) {
            self.nodes.push(node);
        }
        self.matrices.push(identity);
        proof {
            assert(self@.nodes =~= old(self)@.register(node, identity).nodes);
            assert(self@.matrices =~= old(self)@.register(node, identity).matrices);
        }
    }

    /// Writes `m` into matrix slot `slot`.
    pub fn store(&mut self, slot: usize, m: T)
        requires
            slot < old(self)@.matrices.len(),
        ensures
            final(self)@ == old(self)@.store(slot as int, m),
    {
        self.matrices[slot] = m;
    }
}


/// Mathematical model of a [`Drawable`].
pub struct DrawableView {
    pub id: u32,
    pub file: Seq<char>,
    pub instances: u32,
}

/// A mesh that a scene shows, once for every node registered with its
/// instance list.
pub struct Drawable {
    pub id: u32,
    /// The file that the mesh comes from.
    pub file: String,
    /// The handle of the instance list in the node graph.
    pub instances: u32,
}

impl View for Drawable {
    type V = DrawableView;

    open spec fn view(&self) -> DrawableView {
        DrawableView { id: self.id, file: self.file@, instances: self.instances }
    }
}

impl Drawable {
    /// A drawable with a new, empty instance list in `graph`.
    pub fn new<T: Copy>(id: u32, file: String, graph: &mut NodeGraph<T>) -> (d: Self)
        requires
            old(graph)@.wf(),
            old(graph)@.instances.len() < u32::MAX,
        ensures
            d@ == (DrawableView {
                id,
                file: file@,
                instances: (old(graph)@.instances.len() + 1) as u32,
            }),
            final(graph)@ == old(graph)@.create_instances(),
            final(graph)@.wf(),
            final(graph)@.has_instances(d.instances),
    {
        let instances = graph.create_instances();
        Drawable { id, file, instances }
    }

    /// Brings the matrix buffer up to date: the slot of each registered
    /// node receives the node's world transform.
    pub fn draw<T: Copy>(&self, graph: &mut NodeGraph<T>)
        requires
            old(graph)@.wf(),
            old(graph)@.has_instances(self.instances),
        ensures
            final(graph)@ == old(graph)@.aggregate(self.instances),
            final(graph)@.wf(),
    {
        graph.aggregate(self.instances);
    }
}

} // verus!
