//! What script code holds and calls: handles of scenes, nodes and
//! drawables, and the operations behind the script-facing methods.

use vstd::prelude::*;
use crate::error::{PackageError, PackageErrorKind};
use crate::message::{
    create_scene_request, load_drawable_request, ServiceMessage, ServiceMessageView,
};
use crate::node::NodeGraph;
use crate::package::App;

verus! {

/// The handle of a node: its id in the node graph.
#[derive(Clone, Copy, Debug, PartialEq, Eq, Structural)]
pub struct LuaNode {
    pub inner: u32,
}

/// The handle of a drawable: its id and the handle of its instance list.
#[derive(Clone, Copy, Debug, PartialEq, Eq, Structural)]
pub struct LuaDrawable {
    pub id: u32,
    pub instances: u32,
}

/// The handle of a scene: its id and its root node.
#[derive(Clone, Copy, Debug, PartialEq, Eq, Structural)]
pub struct LuaScene {
    pub id: u32,
    pub root: LuaNode,
}

/// What script code makes of the answer to `CreateScene`: a
/// `CreatedScene` becomes the scene's handle. Any other message is a
/// protocol error, thrown as a script error with the message
/// `could not create scene`.
pub fn created_scene(answer: ServiceMessage) -> (r: Result<LuaScene, PackageError>)
    ensures
        match answer@ {
            ServiceMessageView::CreatedScene(id, root) => r == Ok::<LuaScene, PackageError>(
                LuaScene { id, root: LuaNode { inner: root } },
            ),
            _ => r matches Err(e) && e.kind == PackageErrorKind::Lua && e.msg@
                == "could not create scene"@,
        },
{
    match answer {
        ServiceMessage::CreatedScene(id, root) => Ok(LuaScene { id, root: LuaNode { inner: root } }),
        _ => Err(PackageError::script("could not create scene")),
    }
}

/// What script code makes of the answer to `LoadDrawable`: a
/// `LoadedDrawable` becomes the drawable's handle. Any other message is a
/// protocol error, thrown as a script error with the message
/// `could not load drawable`.
pub fn loaded_drawable(answer: ServiceMessage) -> (r: Result<LuaDrawable, PackageError>)
    ensures
        match answer@ {
            ServiceMessageView::LoadedDrawable(id, instances) => r == Ok::<
                LuaDrawable,
                PackageError,
            >(LuaDrawable { id, instances }),
            _ => r matches Err(e) && e.kind == PackageErrorKind::Lua && e.msg@
                == "could not load drawable"@,
        },
{
    match answer {
        ServiceMessage::LoadedDrawable(id, instances) => Ok(LuaDrawable { id, instances }),
        _ => Err(PackageError::script("could not load drawable")),
    }
}

/// `Scene.new(name)`: sends the render thread the request that
/// `create_scene_request` makes of `name` and waits for the answer, which
/// `created_scene` turns into the result.
/// So it fails in three ways: with the error of the failed send or of the
/// failed receive when the bridge is broken, both of kind `Sync`, and with
/// kind `Lua` and the message `could not create scene` when the answer is
/// not a `CreatedScene`.
pub fn lua_scene_new(app: &App<ServiceMessage>, name: String) -> (r: Result<
    LuaScene,
    PackageError,
>)
    ensures
        r matches Err(e) ==> e.is_send_failure::<ServiceMessage>() || e.is_recv_failure() || (
        e.kind == PackageErrorKind::Lua && e.msg@ == "could not create scene"@),
        r matches Err(e) ==> e.kind == PackageErrorKind::Sync || e.kind == PackageErrorKind::Lua,
{
    match app.sync_send(create_scene_request(name)) {
        Ok(answer) => created_scene(answer),
        Err(e) => Err(e),
    }
}

impl LuaScene {
    /// `scene.load(file)`: sends the render thread the request that
    /// `load_drawable_request` makes of this scene's id and `file`, and
    /// waits for the answer, which `loaded_drawable` turns into the
    /// result. So it fails in three ways:
    /// with the error of the failed send or of the failed receive when the
    /// bridge is broken, both of kind `Sync`, and with kind `Lua` and the
    /// message `could not load drawable` when the answer is not a
    /// `LoadedDrawable`.
    pub fn load(&self, app: &App<ServiceMessage>, file: String) -> (r: Result<
        LuaDrawable,
        PackageError,
    >)
        ensures
            r matches Err(e) ==> e.is_send_failure::<ServiceMessage>() || e.is_recv_failure() || (
            e.kind == PackageErrorKind::Lua && e.msg@ == "could not load drawable"@),
            r matches Err(e) ==> e.kind == PackageErrorKind::Sync || e.kind
                == PackageErrorKind::Lua,
    {
        match app.sync_send(load_drawable_request(self.id, file)) {
            Ok(answer) => loaded_drawable(answer),
            Err(e) => Err(e),
        }
    }
}

impl LuaNode {
    /// `Node.new()`: a new node of `graph`.
    pub fn new<T: Copy>(graph: &mut NodeGraph<T>) -> (n: Self)
        requires
            old(graph)@.wf(),
            old(graph)@.nodes.len() < u32::MAX,
        ensures
            n.inner == old(graph)@.nodes.len() + 1,
            final(graph)@ == old(graph)@.create(),
            final(graph)@.wf(),
    {
        LuaNode { inner: graph.create() }
    }

    /// `node.add(child)`: hangs `child` under this node.
    pub fn add<T: Copy>(&self, graph: &mut NodeGraph<T>, child: &LuaNode)
        requires
            old(graph)@.wf(),
            old(graph)@.contains(self.inner),
            old(graph)@.contains(child.inner),
        ensures
            final(graph)@ == old(graph)@.add(self.inner, child.inner),
            final(graph)@.wf(),
    {
        graph.add(self.inner, child.inner);
    }

    /// `node.setDrawable(drawable)`: registers this node with the
    /// drawable's instance list.
    pub fn set_drawable<T: Copy>(&self, graph: &mut NodeGraph<T>, drawable: &LuaDrawable)
        requires
            old(graph)@.wf(),
            old(graph)@.contains(self.inner),
            old(graph)@.has_instances(drawable.instances),
        ensures
            final(graph)@ == old(graph)@.set_drawable(self.inner, drawable.instances),
            final(graph)@.wf(),
    {
        graph.set_drawable(self.inner, drawable.instances);
    }

    /// `node.translate(v)`, `node.rotateX(a)`, `node.rotateY(a)`,
    /// `node.rotateZ(a)`, `node.scale(v)`: the operation `op` works on the
    /// node's local transform in place.
    pub fn transform<T: Copy, F: FnOnce(T) -> T>(&self, graph: &mut NodeGraph<T>, op: F)
        requires
            old(graph)@.contains(self.inner),
            op.requires((old(graph)@.node(self.inner).transform,)),
        ensures
            op.ensures(
                (old(graph)@.node(self.inner).transform,),
                final(graph)@.node(self.inner).transform,
            ),
            final(graph)@ == old(graph)@.with_transform(
                self.inner,
                final(graph)@.node(self.inner).transform,
            ),
            old(graph)@.wf() ==> final(graph)@.wf(),
    {
        graph.transform_local(self.inner, op);
    }
}

} // verus!
