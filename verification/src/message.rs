//! The messages that cross between a plugin and the render thread.

use vstd::prelude::*;

verus! {

/// A request of a plugin to the render thread, or the answer to one.
/// Nodes and instance lists travel as ids into the shared node graph.
#[derive(Clone, Debug, PartialEq, Eq)]
pub enum ServiceMessage {
    /// Request: create a scene with this name.
    CreateScene(String),
    /// Answer to `CreateScene`: the id of the scene and of its root node.
    CreatedScene(u32, u32),
    /// Request: load the drawable in this file into the scene with this id.
    LoadDrawable(u32, String),
    /// Answer to `LoadDrawable`: the id of the drawable and the handle of
    /// its instance list.
    LoadedDrawable(u32, u32),
}

/// Mathematical model of a [`ServiceMessage`].
pub enum ServiceMessageView {
    CreateScene(Seq<char>),
    CreatedScene(u32, u32),
    LoadDrawable(u32, Seq<char>),
    LoadedDrawable(u32, u32),
}

impl View for ServiceMessage {
    type V = ServiceMessageView;

    open spec fn view(&self) -> ServiceMessageView {
        match self {
            ServiceMessage::CreateScene(name) => ServiceMessageView::CreateScene(name@),
            ServiceMessage::CreatedScene(id, root) => ServiceMessageView::CreatedScene(*id, *root),
            ServiceMessage::LoadDrawable(scene, file) => ServiceMessageView::LoadDrawable(
                *scene,
                file@,
            ),
            ServiceMessage::LoadedDrawable(id, instances) => ServiceMessageView::LoadedDrawable(
                *id,
                *instances,
            ),
        }
    }
}

impl ServiceMessageView {
    /// The message is one that a plugin sends.
    pub open spec fn is_request(self) -> bool {
        self is CreateScene || self is LoadDrawable
    }

    /// `self` has the shape of an answer to `request`: `CreatedScene` for
    /// `CreateScene`, `LoadedDrawable` for `LoadDrawable`.
    pub open spec fn answers(self, request: ServiceMessageView) -> bool {
        match request {
            ServiceMessageView::CreateScene(_) => self is CreatedScene,
            ServiceMessageView::LoadDrawable(_, _) => self is LoadedDrawable,
            _ => false,
        }
    }
}

impl ServiceMessage {
    /// Whether the message is a request.
    pub fn is_request(&self) -> (r: bool)
        ensures
            r == self@.is_request(),
    {
        match self {
            ServiceMessage::CreateScene(_) => true,
            ServiceMessage::LoadDrawable(_, _) => true,
            _ => false,
        }
    }

    /// Whether the message has the shape of an answer to `request`.
    pub fn answers(&self, request: &ServiceMessage) -> (r: bool)
        ensures
            r == self@.answers(request@),
    {
        match request {
            ServiceMessage::CreateScene(_) => match self {
                ServiceMessage::CreatedScene(_, _) => true,
                _ => false,
            },
            ServiceMessage::LoadDrawable(_, _) => match self {
                ServiceMessage::LoadedDrawable(_, _) => true,
                _ => false,
            },
            _ => false,
        }
    }
}

impl ServiceMessage {
    /// A second message with the same content.
    pub fn duplicate(&self) -> (m: ServiceMessage)
        ensures
            m@ == self@,
    {
        match self {
            ServiceMessage::CreateScene(name) => ServiceMessage::CreateScene(name.clone()),
            ServiceMessage::CreatedScene(id, root) => ServiceMessage::CreatedScene(*id, *root),
            ServiceMessage::LoadDrawable(scene, file) => ServiceMessage::LoadDrawable(
                *scene,
                file.clone(),
            ),
            ServiceMessage::LoadedDrawable(id, instances) => ServiceMessage::LoadedDrawable(
                *id,
                *instances,
            ),
        }
    }
}

/// The request that `Scene.new(name)` sends: `CreateScene` with the name
/// as it was given.
pub fn create_scene_request(name: String) -> (m: ServiceMessage)
    ensures
        m@ == ServiceMessageView::CreateScene(name@),
{
    ServiceMessage::CreateScene(name)
}

/// The request that `scene.load(file)` sends for the scene with id
/// `scene`: `LoadDrawable` with that id and the file name as it was given.
pub fn load_drawable_request(scene: u32, file: String) -> (m: ServiceMessage)
    ensures
        m@ == ServiceMessageView::LoadDrawable(scene, file@),
{
    ServiceMessage::LoadDrawable(scene, file)
}

/// A fire-and-forget message of a plugin to the render thread.
#[derive(Clone, Copy, Debug, PartialEq, Eq, Structural)]
pub enum GameMessage {
    /// Draw the scene with this id from now on.
    SetLevel(u32),
}

} // verus!
