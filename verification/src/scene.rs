//! Scenes and the directory that owns them. The directory is the one
//! writer of scene state: it answers the requests that plugins send.

use vstd::prelude::*;
use crate::drawable::{Drawable, DrawableView};
use crate::error::{PackageError, PackageErrorKind};
use crate::message::{GameMessage, ServiceMessage, ServiceMessageView};
use crate::model::GraphView;
use crate::node::NodeGraph;
use crate::package::{Package, Polled};

verus! {

/// Mathematical model of a [`Scene`].
pub struct SceneView {
    pub id: u32,
    pub name: Seq<char>,
    /// The drawables in the order they were loaded.
    pub drawables: Seq<DrawableView>,
    /// The id of the root node.
    pub root: u32,
}

impl SceneView {
    /// The root node and the instance lists of the scene exist in `g`.
    pub open spec fn fits<T>(self, g: GraphView<T>) -> bool {
        &&& g.contains(self.root)
        &&& forall|k: int|
            0 <= k < self.drawables.len() ==> g.has_instances(
                (#[trigger] self.drawables[k]).instances,
            )
    }

    /// The instance list handles of the drawables, in loading order.
    pub open spec fn handles(self) -> Seq<u32> {
        self.drawables.map_values(|d: DrawableView| d.instances)
    }

    /// The scene with one more drawable.
    pub open spec fn load(self, drawable: DrawableView) -> Self {
        SceneView { drawables: self.drawables.push(drawable), ..self }
    }

    /// `after` is `before` after one frame of upkeep of this scene: the
    /// nodes went through an update pass from the root, and then every
    /// instance list of the scene was refreshed from the new world
    /// transforms.
    pub open spec fn drawn<T, F: Fn(T, T) -> T>(
        self,
        before: GraphView<T>,
        after: GraphView<T>,
        compose: F,
    ) -> bool {
        let updated = GraphView { instances: before.instances, ..after };
        &&& updated.world_updated(before, self.root, compose)
        &&& after == updated.aggregate_all(self.handles())
    }
}

/// A named collection of drawables under one root node.
pub struct Scene {
    pub id: u32,
    pub name: String,
    pub drawables: Vec<Drawable>,
    pub root: u32,
}

impl View for Scene {
    type V = SceneView;

    open spec fn view(&self) -> SceneView {
        SceneView {
            id: self.id,
            name: self.name@,
            drawables: self.drawables@.map_values(|d: Drawable| d@),
            root: self.root,
        }
    }
}

impl Scene {
    /// A scene without drawables, with a new node of `graph` as its root.
    pub fn new<T: Copy>(id: u32, name: String, graph: &mut NodeGraph<T>) -> (s: Self)
        requires
            old(graph)@.wf(),
            old(graph)@.nodes.len() < u32::MAX,
        ensures
            s@ == (SceneView {
                id,
                name: name@,
                drawables: Seq::empty(),
                root: (old(graph)@.nodes.len() + 1) as u32,
            }),
            final(graph)@ == old(graph)@.create(),
            final(graph)@.wf(),
            s@.fits(final(graph)@),
    {
        let root = graph.create();
        let s = Scene { id, name, drawables: Vec::new(), root };
        proof {
            assert(s@.drawables =~= Seq::empty());
        }
        s
    }

    /// Whether the root node and the instance lists of the scene exist in
    /// `graph`.
    pub fn fits<T: Copy>(&self, graph: &NodeGraph<T>) -> (r: bool)
        ensures
            r == self@.fits(graph@),
    {
        if !graph.contains(self.root) {
            return false;
        }
        let mut k: usize = 0;
        while k < self.drawables.len()
            invariant
                k <= self.drawables.len(),
                forall|j: int|
                    0 <= j < k ==> graph@.has_instances((#[trigger] self@.drawables[j]).instances),
            decreases self.drawables.len() - k,
        {
            if !graph.has_instances(self.drawables[k].instances) {
                proof {
                    assert(self@.drawables[k as int].instances == self.drawables[k as int].instances);
                }
                return false;
            }
            k += 1;
        }
        true
    }

    /// Registers a drawable with id `id` for the mesh in `file`, with a new
    /// and empty instance list. Returns the id and the handle of the list.
    pub fn load<T: Copy>(&mut self, id: u32, file: String, graph: &mut NodeGraph<T>) -> (r: (
        u32,
        u32,
    ))
        requires
            old(graph)@.wf(),
            old(graph)@.instances.len() < u32::MAX,
            old(self)@.fits(old(graph)@),
        ensures
            r.0 == id,
            r.1 == old(graph)@.instances.len() + 1,
            final(self)@ == old(self)@.load(DrawableView { id, file: file@, instances: r.1 }),
            final(graph)@ == old(graph)@.create_instances(),
            final(graph)@.wf(),
            final(self)@.fits(final(graph)@),
            final(graph)@.instance_list(r.1).nodes.len() == 0,
            final(graph)@.instance_list(r.1).matrices.len() == 0,
    {
        let d = Drawable::new(id, file, graph);
        let handle = d.instances;
        self.drawables.push(d);
        proof {
            let target = old(self)@.load(DrawableView { id, file: file@, instances: handle });
            assert(self@.drawables =~= target.drawables);
            assert forall|k: int| 0 <= k < self@.drawables.len() implies graph@.has_instances(
                (#[trigger] self@.drawables[k]).instances,
            ) by {
                if k < old(self)@.drawables.len() {
                    assert(old(graph)@.has_instances(old(self)@.drawables[k].instances));
                }
            }
        }
        (id, handle)
    }

    /// One frame of scene upkeep: the world-transform pass from the root,
    /// then the refresh of the instance list of every drawable, in loading
    /// order.
    pub fn draw<T: Copy, F: Fn(T, T) -> T>(&self, graph: &mut NodeGraph<T>, compose: F)
        requires
            old(graph)@.wf(),
            self@.fits(old(graph)@),
            forall|a: T, b: T| compose.requires((a, b)),
        ensures
            self@.drawn(old(graph)@, final(graph)@, compose),
            final(graph)@.wf(),
    {
        graph.update_world(self.root, compose);
        let ghost updated = graph@;
        let ghost handles = self@.handles();
        let mut k: usize = 0;
        proof {
            assert(handles.take(0) =~= Seq::empty());
        }
        while k < self.drawables.len()
            invariant
                k <= self.drawables.len(),
                handles == self@.handles(),
                handles.len() == self.drawables.len(),
                updated.wf(),
                self@.fits(updated),
                graph@ == updated.aggregate_all(handles.take(k as int)),
                graph@.wf(),
                graph@.instances.len() == updated.instances.len(),
            decreases self.drawables.len() - k,
        {
            proof {
                assert(updated.has_instances(self@.drawables[k as int].instances));
                assert(handles.take(k as int + 1).drop_last() =~= handles.take(k as int));
                assert forall|j: int| 0 <= j < handles.take(k as int + 1).len() implies updated.has_instances(
                    #[trigger] handles.take(k as int + 1)[j],
                ) by {
                    assert(updated.has_instances(self@.drawables[j].instances));
                }
                updated.lemma_aggregate_all(handles.take(k as int + 1));
            }
            self.drawables[k].draw(graph);
            k += 1;
        }
        proof {
            assert(handles.take(k as int) =~= handles);
            assert forall|j: int| 0 <= j < handles.len() implies updated.has_instances(
                #[trigger] handles[j],
            ) by {
                assert(updated.has_instances(self@.drawables[j].instances));
            }
            updated.lemma_aggregate_all(handles);
            assert(updated == (GraphView { instances: old(graph)@.instances, ..graph@ }));
        }
    }
}


/// Mathematical model of a [`SceneDirectory`]. The scene with id `i` is
/// `scenes[i - 1]`.
pub struct DirectoryView {
    pub scenes: Seq<SceneView>,
    /// The number of drawable ids given out so far.
    pub drawables: nat,
    /// The id of the scene to draw; 0 while none was chosen.
    pub active: u32,
}

/// What answering one request leaves: the answer, if one is owed, and the
/// directory and the graph after it.
pub struct Outcome<T> {
    pub answer: Option<ServiceMessageView>,
    pub directory: DirectoryView,
    pub graph: GraphView<T>,
}

/// What answering a run of requests leaves.
pub struct Session<T> {
    /// For each request, in order, the answer or `None`.
    pub answers: Seq<Option<ServiceMessageView>>,
    pub directory: DirectoryView,
    pub graph: GraphView<T>,
}

impl DirectoryView {
    pub open spec fn contains(self, id: u32) -> bool {
        1 <= id <= self.scenes.len()
    }

    pub open spec fn scene(self, id: u32) -> SceneView
        recommends
            self.contains(id),
    {
        self.scenes[id - 1]
    }

    /// Scene ids follow the position in the directory, every drawable
    /// carries an id that was given out, and no two drawables carry the
    /// same id.
    pub open spec fn wf(self) -> bool {
        &&& self.scenes.len() <= u32::MAX
        &&& self.drawables <= u32::MAX
        &&& forall|i: int| 0 <= i < self.scenes.len() ==> (#[trigger] self.scenes[i]).id == i + 1
        &&& forall|i: int, k: int|
            0 <= i < self.scenes.len() && 0 <= k < self.scenes[i].drawables.len() ==> 1 <= (
            #[trigger] self.scenes[i].drawables[k]).id <= self.drawables
        &&& forall|i: int, k: int, j: int, l: int|
            0 <= i < self.scenes.len() && 0 <= k < self.scenes[i].drawables.len() && 0 <= j
                < self.scenes.len() && 0 <= l < self.scenes[j].drawables.len() && (
            #[trigger] self.scenes[i].drawables[k]).id == (
            #[trigger] self.scenes[j].drawables[l]).id ==> i == j && k == l
    }

    /// Every scene fits the graph.
    pub open spec fn fits<T>(self, g: GraphView<T>) -> bool {
        forall|i: int| 0 <= i < self.scenes.len() ==> (#[trigger] self.scenes[i]).fits(g)
    }

    /// An id is left for one more scene and for its root node.
    pub open spec fn room_for_scene<T>(self, g: GraphView<T>) -> bool {
        &&& self.scenes.len() < u32::MAX
        &&& g.nodes.len() < u32::MAX
    }

    /// An id is left for one more drawable and for its instance list.
    pub open spec fn room_for_drawable<T>(self, g: GraphView<T>) -> bool {
        &&& self.drawables < u32::MAX
        &&& g.instances.len() < u32::MAX
    }

    /// One more scene and one more drawable can be made without running
    /// out of ids.
    pub open spec fn has_room<T>(self, g: GraphView<T>) -> bool {
        &&& self.room_for_scene(g)
        &&& self.room_for_drawable(g)
    }

    /// The message is a request that can be carried out: a `CreateScene`
    /// while an id is left for the scene, or a `LoadDrawable` that names a
    /// scene of the directory while an id is left for the drawable.
    pub open spec fn answerable<T>(self, request: ServiceMessageView, g: GraphView<T>) -> bool {
        match request {
            ServiceMessageView::CreateScene(_) => self.room_for_scene(g),
            ServiceMessageView::LoadDrawable(scene, _) => self.contains(scene)
                && self.room_for_drawable(g),
            _ => false,
        }
    }

    /// Some scene holds a drawable with this id.
    pub open spec fn has_drawable(self, id: u32) -> bool {
        exists|i: int, k: int|
            0 <= i < self.scenes.len() && 0 <= k < self.scenes[i].drawables.len() && (
            #[trigger] self.scenes[i].drawables[k]).id == id
    }

    /// The directory with one more scene, named `name`, whose root is the
    /// next node of `g`.
    pub open spec fn create_scene<T>(self, name: Seq<char>, g: GraphView<T>) -> Self {
        DirectoryView {
            scenes: self.scenes.push(
                SceneView {
                    id: (self.scenes.len() + 1) as u32,
                    name,
                    drawables: Seq::empty(),
                    root: (g.nodes.len() + 1) as u32,
                },
            ),
            ..self
        }
    }

    /// The directory after scene `scene` got a drawable for `file`, with
    /// the next drawable id and the next instance list of `g`.
    pub open spec fn load_drawable<T>(self, scene: u32, file: Seq<char>, g: GraphView<T>) -> Self {
        DirectoryView {
            scenes: self.scenes.update(
                scene - 1,
                self.scene(scene).load(
                    DrawableView {
                        id: (self.drawables + 1) as u32,
                        file,
                        instances: (g.instances.len() + 1) as u32,
                    },
                ),
            ),
            drawables: self.drawables + 1,
            ..self
        }
    }

    /// What the render thread makes of one message of a plugin. A
    /// request that can be carried out is carried out and answered:
    /// `CreateScene` by `CreatedScene` with the new scene's id and root,
    /// `LoadDrawable` by `LoadedDrawable` with the new drawable's id and
    /// instance list. Any other message is dropped: no answer, no change.
    /// That holds of a `LoadDrawable` on an unknown scene, of a request
    /// for which no id is left, and of a message that is no request.
    pub open spec fn respond<T>(self, request: ServiceMessageView, g: GraphView<T>) -> Outcome<T> {
        if !self.answerable(request, g) {
            Outcome { answer: None, directory: self, graph: g }
        } else {
            match request {
                ServiceMessageView::CreateScene(name) => Outcome {
                    answer: Some(
                        ServiceMessageView::CreatedScene(
                            (self.scenes.len() + 1) as u32,
                            (g.nodes.len() + 1) as u32,
                        ),
                    ),
                    directory: self.create_scene(name, g),
                    graph: g.create(),
                },
                ServiceMessageView::LoadDrawable(scene, file) => Outcome {
                    answer: Some(
                        ServiceMessageView::LoadedDrawable(
                            (self.drawables + 1) as u32,
                            (g.instances.len() + 1) as u32,
                        ),
                    ),
                    directory: self.load_drawable(scene, file, g),
                    graph: g.create_instances(),
                },
                _ => Outcome { answer: None, directory: self, graph: g },
            }
        }
    }

    /// What the render thread makes of a run of requests that arrive one
    /// at a time: each is answered in the state that the earlier ones
    /// left.
    pub open spec fn serve<T>(self, requests: Seq<ServiceMessageView>, g: GraphView<T>) -> Session<
        T,
    >
        decreases requests.len(),
    {
        if requests.len() == 0 {
            Session { answers: Seq::empty(), directory: self, graph: g }
        } else {
            let s = self.serve(requests.drop_last(), g);
            let o = s.directory.respond(requests.last(), s.graph);
            Session { answers: s.answers.push(o.answer), directory: o.directory, graph: o.graph }
        }
    }

    /// Answering a request keeps directory and graph well formed and
    /// fitting.
    pub proof fn lemma_respond_wf<T>(self, request: ServiceMessageView, g: GraphView<T>)
        requires
            self.wf(),
            g.wf(),
            self.fits(g),
        ensures
            self.respond(request, g).directory.wf(),
            self.respond(request, g).graph.wf(),
            self.respond(request, g).directory.fits(self.respond(request, g).graph),
    {
        if self.answerable(request, g) {
            match request {
                ServiceMessageView::CreateScene(name) => {
                    lemma_create_scene_wf(self, name, g);
                    g.lemma_create_wf();
                },
                ServiceMessageView::LoadDrawable(scene, file) => {
                    lemma_load_drawable_wf(self, scene, file, g);
                    g.lemma_create_instances_wf();
                },
                _ => {},
            }
        }
    }
}

/// A directory that fits a graph fits every graph with at least as many
/// nodes and instance lists: what plugins do to the graph between two
/// frames never takes a scene's root or instance lists away.
pub proof fn lemma_fits_grown<T>(directory: DirectoryView, g: GraphView<T>, grown: GraphView<T>)
    requires
        directory.fits(g),
        g.nodes.len() <= grown.nodes.len(),
        g.instances.len() <= grown.instances.len(),
    ensures
        directory.fits(grown),
{
    assert forall|i: int| 0 <= i < directory.scenes.len() implies (
    #[trigger] directory.scenes[i]).fits(grown) by {
        let sc = directory.scenes[i];
        assert(sc.fits(g));
        assert forall|k: int| 0 <= k < sc.drawables.len() implies grown.has_instances(
            (#[trigger] sc.drawables[k]).instances,
        ) by {
            assert(g.has_instances(sc.drawables[k].instances));
        }
    }
}

/// A plugin that sends its requests strictly one at a time gets one
/// answer slot per request, in the order of the requests; each answer has
/// the shape that pairs with its request and is what `respond` gives in
/// the state that the earlier requests left; and a message goes without
/// an answer exactly when it cannot be carried out in that state.
pub proof fn lemma_round_trip<T>(
    directory: DirectoryView,
    requests: Seq<ServiceMessageView>,
    g: GraphView<T>,
)
    ensures
        directory.serve(requests, g).answers.len() == requests.len(),
        forall|i: int|
            0 <= i < requests.len() ==> #[trigger] directory.serve(requests, g).answers[i]
                == directory.serve(requests.take(i), g).directory.respond(
                requests[i],
                directory.serve(requests.take(i), g).graph,
            ).answer,
        forall|i: int|
            0 <= i < requests.len() ==> match #[trigger] directory.serve(requests, g).answers[i] {
                Some(a) => a.answers(requests[i]) && directory.serve(
                    requests.take(i),
                    g,
                ).directory.answerable(requests[i], directory.serve(requests.take(i), g).graph),
                None => !directory.serve(requests.take(i), g).directory.answerable(
                    requests[i],
                    directory.serve(requests.take(i), g).graph,
                ),
            },
    decreases requests.len(),
{
    if requests.len() > 0 {
        let rest = requests.drop_last();
        lemma_round_trip(directory, rest, g);
        let s = directory.serve(rest, g);
        let all = directory.serve(requests, g);
        assert forall|i: int| 0 <= i < requests.len() implies #[trigger] all.answers[i]
            == directory.serve(requests.take(i), g).directory.respond(
            requests[i],
            directory.serve(requests.take(i), g).graph,
        ).answer by {
            if i < rest.len() {
                assert(rest.take(i) =~= requests.take(i));
                assert(all.answers[i] == s.answers[i]);
            } else {
                assert(requests.take(i) =~= rest);
            }
        }
        assert forall|i: int| 0 <= i < requests.len() implies match #[trigger] all.answers[i] {
            Some(a) => a.answers(requests[i]) && directory.serve(
                requests.take(i),
                g,
            ).directory.answerable(requests[i], directory.serve(requests.take(i), g).graph),
            None => !directory.serve(requests.take(i), g).directory.answerable(
                requests[i],
                directory.serve(requests.take(i), g).graph,
            ),
        } by {
            if i < rest.len() {
                assert(rest.take(i) =~= requests.take(i));
                assert(all.answers[i] == s.answers[i]);
            } else {
                assert(requests.take(i) =~= rest);
            }
        }
    }
}

/// A scene id is never given out twice, and ids go upwards: of two
/// `CreateScene` requests that are answered, with whatever requests
/// between them, the later gets the greater id, and each gets an id that
/// no scene of the directory had when the request came.
pub proof fn lemma_scene_ids_fresh<T>(
    directory: DirectoryView,
    first: Seq<char>,
    between: Seq<ServiceMessageView>,
    second: Seq<char>,
    g: GraphView<T>,
)
    ensures
        ({
            let a = directory.respond(ServiceMessageView::CreateScene(first), g);
            let s = a.directory.serve(between, a.graph);
            let b = s.directory.respond(ServiceMessageView::CreateScene(second), s.graph);
            &&& a.answer matches Some(ServiceMessageView::CreatedScene(x, _)) ==> {
                &&& !directory.contains(x)
                &&& a.directory.contains(x)
                &&& b.answer matches Some(ServiceMessageView::CreatedScene(y, _)) ==> x < y
            }
            &&& b.answer matches Some(ServiceMessageView::CreatedScene(y, _)) ==> {
                &&& !s.directory.contains(y)
                &&& b.directory.contains(y)
            }
            &&& a.answer is Some <==> directory.room_for_scene(g)
            &&& b.answer is Some <==> s.directory.room_for_scene(s.graph)
        }),
{
    let a = directory.respond(ServiceMessageView::CreateScene(first), g);
    lemma_serve_grows(a.directory, between, a.graph);
}

/// A new scene gets an id above the id of every scene that the directory
/// holds.
pub proof fn lemma_scene_id_above_all<T>(directory: DirectoryView, name: Seq<char>, g: GraphView<T>)
    requires
        directory.wf(),
    ensures
        directory.respond(ServiceMessageView::CreateScene(name), g).answer matches Some(
            ServiceMessageView::CreatedScene(x, _),
        ) ==> forall|i: int|
            0 <= i < directory.scenes.len() ==> (#[trigger] directory.scenes[i]).id < x,
{
}

/// A `LoadDrawable` that names no scene of the directory gets no answer
/// and changes nothing.
pub proof fn lemma_unknown_scene_dropped<T>(
    directory: DirectoryView,
    scene: u32,
    file: Seq<char>,
    g: GraphView<T>,
)
    requires
        !directory.contains(scene),
    ensures
        directory.respond(ServiceMessageView::LoadDrawable(scene, file), g) == (Outcome {
            answer: None,
            directory,
            graph: g,
        }),
{
}

/// Answering requests never removes a scene, and adds at most one per
/// request.
pub proof fn lemma_serve_grows<T>(
    directory: DirectoryView,
    requests: Seq<ServiceMessageView>,
    g: GraphView<T>,
)
    ensures
        directory.scenes.len() <= directory.serve(requests, g).directory.scenes.len()
            <= directory.scenes.len() + requests.len(),
    decreases requests.len(),
{
    if requests.len() > 0 {
        lemma_serve_grows(directory, requests.drop_last(), g);
    }
}

/// What one look at a plugin's request queue led to.
#[derive(Debug, PartialEq, Eq)]
pub enum Served {
    /// No request was waiting.
    Idle,
    /// A request was carried out, and this is its answer.
    Answered(ServiceMessage),
    /// A message was taken that gets no answer; nothing changed.
    Dropped,
}

/// `after` and `g1` are what answering some request with `answer` makes
/// of `before` and `g0`.
pub open spec fn answered<T>(
    before: DirectoryView,
    g0: GraphView<T>,
    after: DirectoryView,
    g1: GraphView<T>,
    answer: ServiceMessageView,
) -> bool {
    exists|request: ServiceMessageView| #[trigger]
        before.respond(request, g0) == (Outcome {
            answer: Some(answer),
            directory: after,
            graph: g1,
        })
}

/// What a look into a plugin's request queue asks of the render thread:
/// a message that was found is answered as `respond` says, and an empty
/// queue, or one whose plugin is gone, asks nothing.
pub open spec fn taken<T>(
    before: DirectoryView,
    g: GraphView<T>,
    found: Polled<ServiceMessage>,
) -> Outcome<T> {
    match found {
        Polled::Message(request) => before.respond(request@, g),
        _ => Outcome { answer: None, directory: before, graph: g },
    }
}

/// The answer that `served` speaks of, if it speaks of one.
pub open spec fn owed(served: Served) -> Option<ServiceMessageView> {
    match served {
        Served::Answered(a) => Some(a@),
        _ => None,
    }
}

/// What is reported of a request once its answer was handed to the
/// channel: the answer when the send went through, else the error of the
/// send.
pub fn served(answer: ServiceMessage, sent: Result<(), PackageError>) -> (r: Result<
    Served,
    PackageError,
>)
    ensures
        r == match sent {
            Ok(_) => Ok::<Served, PackageError>(Served::Answered(answer)),
            Err(e) => Err::<Served, PackageError>(e),
        },
{
    match sent {
        Ok(()) => Ok(Served::Answered(answer)),
        Err(e) => Err(e),
    }
}

/// The scenes of the render thread, by id.
pub struct SceneDirectory {
    scenes: Vec<Scene>,
    drawables: u32,
    active: u32,
}

impl View for SceneDirectory {
    type V = DirectoryView;

    closed spec fn view(&self) -> DirectoryView {
        DirectoryView {
            scenes: self.scenes@.map_values(|s: Scene| s@),
            drawables: self.drawables as nat,
            active: self.active,
        }
    }
}

/// The model of an answer that may be missing.
pub open spec fn answer_view(answer: Option<ServiceMessage>) -> Option<ServiceMessageView> {
    match answer {
        Some(m) => Some(m@),
        None => None,
    }
}

impl SceneDirectory {
    /// A directory without scenes. No scene is active.
    pub fn new() -> (d: Self)
        ensures
            d@.scenes.len() == 0,
            d@.drawables == 0,
            d@.active == 0,
            d@.wf(),
    {
        SceneDirectory { scenes: Vec::new(), drawables: 0, active: 0 }
    }

    /// The number of scenes. Ids run from 1 to this number.
    pub fn scene_count(&self) -> (r: usize)
        ensures
            r == self@.scenes.len(),
    {
        self.scenes.len()
    }

    pub fn contains(&self, id: u32) -> (r: bool)
        ensures
            r == self@.contains(id),
    {
        1 <= id && id as usize <= self.scenes.len()
    }

    pub fn scene(&self, id: u32) -> (s: &Scene)
        requires
            self@.contains(id),
        ensures
            s@ == self@.scene(id),
    {
        &self.scenes[(id - 1) as usize]
    }

    /// The id of the scene to draw, 0 while none was chosen.
    pub fn active(&self) -> (r: u32)
        ensures
            r == self@.active,
    {
        self.active
    }

    /// Whether one more scene and one more drawable can be made.
    pub fn has_room<T: Copy>(&self, graph: &NodeGraph<T>) -> (r: bool)
        ensures
            r == self@.has_room(graph@),
    {
        self.scenes.len() < u32::MAX as usize && self.drawables < u32::MAX && graph.node_count()
            < u32::MAX as usize && graph.instances_count() < u32::MAX as usize
    }

    /// Whether every scene fits `graph`.
    pub fn fits<T: Copy>(&self, graph: &NodeGraph<T>) -> (r: bool)
        ensures
            r == self@.fits(graph@),
    {
        let mut i: usize = 0;
        while i < self.scenes.len()
            invariant
                i <= self.scenes.len(),
                forall|j: int| 0 <= j < i ==> (#[trigger] self@.scenes[j]).fits(graph@),
            decreases self.scenes.len() - i,
        {
            if !self.scenes[i].fits(graph) {
                proof {
                    assert(self@.scenes[i as int] == self.scenes[i as int]@);
                }
                return false;
            }
            i += 1;
        }
        true
    }

    /// Looks for the drawable with id `id`. Returns the id of the scene
    /// that holds it and its position among that scene's drawables, or
    /// `None` when no scene holds such a drawable.
    pub fn find_drawable(&self, id: u32) -> (r: Option<(u32, usize)>)
        requires
            self@.wf(),
        ensures
            match r {
                Some((scene, k)) => {
                    &&& self@.contains(scene)
                    &&& k < self@.scene(scene).drawables.len()
                    &&& self@.scene(scene).drawables[k as int].id == id
                },
                None => !self@.has_drawable(id),
            },
    {
        let mut i: usize = 0;
        while i < self.scenes.len()
            invariant
                i <= self.scenes.len(),
                self@.wf(),
                forall|a: int, b: int|
                    0 <= a < i && 0 <= b < self@.scenes[a].drawables.len() ==> (
                    #[trigger] self@.scenes[a].drawables[b]).id != id,
            decreases self.scenes.len() - i,
        {
            let mut k: usize = 0;
            while k < self.scenes[i].drawables.len()
                invariant
                    i < self.scenes.len(),
                    k <= self.scenes[i as int].drawables.len(),
                    self@.wf(),
                    forall|a: int, b: int|
                        0 <= a < i && 0 <= b < self@.scenes[a].drawables.len() ==> (
                        #[trigger] self@.scenes[a].drawables[b]).id != id,
                    forall|b: int|
                        0 <= b < k ==> (#[trigger] self@.scenes[i as int].drawables[b]).id != id,
                decreases self.scenes[i as int].drawables.len() - k,
            {
                proof {
                    assert(self@.scenes[i as int].drawables[k as int]
                        == self.scenes[i as int].drawables[k as int]@);
                }
                if self.scenes[i].drawables[k].id == id {
                    return Some(((i + 1) as u32, k));
                }
                k += 1;
            }
            i += 1;
        }
        None
    }

    /// Carries out a fire-and-forget message of a plugin: `SetLevel` makes
    /// the named scene the one to draw.
    pub fn apply(&mut self, message: GameMessage)
        ensures
            final(self)@ == (DirectoryView {
                active: match message {
                    GameMessage::SetLevel(id) => id,
                },
                ..old(self)@
            }),
    {
        match message {
            GameMessage::SetLevel(id) => {
                self.active = id;
            },
        }
    }

    /// Creates a scene named `name` with a new root node. Returns the id
    /// of the scene, which no scene had before, and the id of the root.
    pub fn create_scene<T: Copy>(&mut self, name: String, graph: &mut NodeGraph<T>) -> (r: (
        u32,
        u32,
    ))
        requires
            old(self)@.wf(),
            old(graph)@.wf(),
            old(self)@.fits(old(graph)@),
            old(self)@.scenes.len() < u32::MAX,
            old(graph)@.nodes.len() < u32::MAX,
        ensures
            r.0 == old(self)@.scenes.len() + 1,
            r.1 == old(graph)@.nodes.len() + 1,
            !old(self)@.contains(r.0),
            forall|i: int|
                0 <= i < old(self)@.scenes.len() ==> (#[trigger] old(self)@.scenes[i]).id < r.0,
            final(self)@.contains(r.0),
            final(self)@ == old(self)@.create_scene(name@, old(graph)@),
            final(graph)@ == old(graph)@.create(),
            final(self)@.wf(),
            final(graph)@.wf(),
            final(self)@.fits(final(graph)@),
    {
        let id: u32 = (self.scenes.len() + 1) as u32;
        let scene = Scene::new(id, name, graph);
        let root = scene.root;
        self.scenes.push(scene);
        proof {
            let target = old(self)@.create_scene(name@, old(graph)@);
            assert(self@.scenes =~= target.scenes);
            lemma_create_scene_wf(old(self)@, name@, old(graph)@);
        }
        (id, root)
    }

    /// Loads the drawable in `file` into scene `scene`. Returns the id of
    /// the drawable, which no drawable had before, and the handle of its
    /// instance list, which is new and empty. On an unknown scene nothing
    /// happens and `None` is returned.
    pub fn load_drawable<T: Copy>(
        &mut self,
        scene: u32,
        file: String,
        graph: &mut NodeGraph<T>,
    ) -> (r: Option<(u32, u32)>)
        requires
            old(self)@.wf(),
            old(graph)@.wf(),
            old(self)@.fits(old(graph)@),
            old(self)@.drawables < u32::MAX,
            old(graph)@.instances.len() < u32::MAX,
        ensures
            r is Some <==> old(self)@.contains(scene),
            r is None ==> final(self)@ == old(self)@ && final(graph)@ == old(graph)@,
            r matches Some((id, handle)) ==> {
                &&& id == old(self)@.drawables + 1
                &&& handle == old(graph)@.instances.len() + 1
                &&& !old(self)@.has_drawable(id)
                &&& final(self)@ == old(self)@.load_drawable(scene, file@, old(graph)@)
                &&& final(graph)@ == old(graph)@.create_instances()
                &&& final(graph)@.instance_list(handle).nodes.len() == 0
                &&& final(graph)@.instance_list(handle).matrices.len() == 0
            },
            final(self)@.wf(),
            final(graph)@.wf(),
            final(self)@.fits(final(graph)@),
    {
        if !self.contains(scene) {
            return None;
        }
        let id: u32 = self.drawables + 1;
        self.drawables = id;
        let i: usize = (scene - 1) as usize;
        proof {
            assert(old(self)@.scenes[i as int].fits(old(graph)@));
            assert(self.scenes[i as int]@ == old(self)@.scenes[i as int]);
        }
        let r = self.scenes[i].load(id, file, graph);
        proof {
            let target = old(self)@.load_drawable(scene, file@, old(graph)@);
            assert(self@.scenes =~= target.scenes);
            lemma_load_drawable_wf(old(self)@, scene, file@, old(graph)@);
            assert(!old(self)@.has_drawable(id)) by {
                if old(self)@.has_drawable(id) {
                    let (a, b) = choose|a: int, b: int|
                        0 <= a < old(self)@.scenes.len() && 0 <= b < old(
                            self,
                        )@.scenes[a].drawables.len() && (#[trigger] old(
                            self,
                        )@.scenes[a].drawables[b]).id == id;
                    assert(old(self)@.scenes[a].drawables[b].id <= old(self)@.drawables);
                }
            }
        }
        Some(r)
    }

    /// Answers one message of a plugin, as `DirectoryView::respond` says:
    /// `CreateScene` with `CreatedScene`, `LoadDrawable` on a known scene
    /// with `LoadedDrawable`, each while ids are left. Anything else
    /// changes nothing and gets no answer.
    pub fn respond<T: Copy>(&mut self, request: ServiceMessage, graph: &mut NodeGraph<T>) -> (r:
        Option<ServiceMessage>)
        requires
            old(self)@.wf(),
            old(graph)@.wf(),
            old(self)@.fits(old(graph)@),
        ensures
            (Outcome { answer: answer_view(r), directory: final(self)@, graph: final(graph)@ })
                == old(self)@.respond(request@, old(graph)@),
            r is Some <==> old(self)@.answerable(request@, old(graph)@),
            r matches Some(a) ==> a@.answers(request@),
            final(self)@.wf(),
            final(graph)@.wf(),
            final(self)@.fits(final(graph)@),
    {
        match request {
            ServiceMessage::CreateScene(name) => {
                if self.scenes.len() < u32::MAX as usize && graph.node_count() < u32::MAX as usize {
                    let (id, root) = self.create_scene(name, graph);
                    Some(ServiceMessage::CreatedScene(id, root))
                } else {
                    None
                }
            },
            ServiceMessage::LoadDrawable(scene, file) => {
                if self.drawables < u32::MAX && graph.instances_count() < u32::MAX as usize {
                    match self.load_drawable(scene, file, graph) {
                        Some((id, handle)) => Some(ServiceMessage::LoadedDrawable(id, handle)),
                        None => None,
                    }
                } else {
                    None
                }
            },
            ServiceMessage::CreatedScene(_, _) => None,
            ServiceMessage::LoadedDrawable(_, _) => None,
        }
    }

    /// Carries out what a look into a plugin's request queue found, as
    /// `taken` says, and tells what is owed:
    /// - `Idle` when nothing was found. Nothing changed.
    /// - `Answered(a)` when a request was found; `a` is its answer, which
    ///   is yet to be sent.
    /// - `Dropped` when a message was found that gets no answer. Nothing
    ///   changed.
    pub fn handle<T: Copy>(&mut self, found: Polled<ServiceMessage>, graph: &mut NodeGraph<T>) -> (r:
        Served)
        requires
            old(self)@.wf(),
            old(graph)@.wf(),
            old(self)@.fits(old(graph)@),
        ensures
            (Outcome { answer: owed(r), directory: final(self)@, graph: final(graph)@ }) == taken(
                old(self)@,
                old(graph)@,
                found,
            ),
            r is Idle <==> !(found is Message),
            final(self)@.wf(),
            final(graph)@.wf(),
            final(self)@.fits(final(graph)@),
    {
        match found {
            Polled::Empty => Served::Idle,
            Polled::Disconnected => Served::Idle,
            Polled::Message(request) => match self.respond(request, graph) {
                None => Served::Dropped,
                Some(answer) => Served::Answered(answer),
            },
        }
    }

    /// Serves the oldest waiting request of `plugin`, if there is one:
    /// takes it from the queue, carries it out as `respond` says, and
    /// sends the answer. Which request arrives is the plugin's choice; the
    /// result says what was made of it.
    /// - `Idle`: the queue was empty, or the plugin is gone. Nothing
    ///   changed.
    /// - `Answered(a)`: a request was carried out and `a` was sent.
    /// - `Dropped`: the message gets no answer. Nothing changed.
    /// - The error of the failed send, of kind `Sync`: a request was
    ///   carried out, and the plugin was gone before the answer could be
    ///   sent.
    pub fn service<T: Copy>(
        &mut self,
        plugin: &Package<ServiceMessage>,
        graph: &mut NodeGraph<T>,
    ) -> (r: Result<Served, PackageError>)
        requires
            old(self)@.wf(),
            old(graph)@.wf(),
            old(self)@.fits(old(graph)@),
        ensures
            match r {
                Ok(Served::Idle) => final(self)@ == old(self)@ && final(graph)@ == old(graph)@,
                Ok(Served::Dropped) => final(self)@ == old(self)@ && final(graph)@ == old(graph)@,
                Ok(Served::Answered(a)) => {
                    &&& answered(old(self)@, old(graph)@, final(self)@, final(graph)@, a@)
                    &&& a@ is CreatedScene || a@ is LoadedDrawable
                },
                Err(e) => {
                    &&& e.is_send_failure::<ServiceMessage>()
                    &&& e.kind == PackageErrorKind::Sync
                    &&& exists|a: ServiceMessageView|
                        answered(old(self)@, old(graph)@, final(self)@, final(graph)@, a)
                },
            },
            final(self)@.wf(),
            final(graph)@.wf(),
            final(self)@.fits(final(graph)@),
    {
        let found = plugin.poll_request();
        let ghost asked = found;
        match self.handle(found, graph) {
            Served::Idle => Ok(Served::Idle),
            Served::Dropped => {
                proof {
                    lemma_unanswered(old(self)@, old(graph)@, asked);
                }
                Ok(Served::Dropped)
            },
            Served::Answered(answer) => {
                proof {
                    lemma_answered(old(self)@, old(graph)@, asked);
                }
                let copy = answer.duplicate();
                served(answer, plugin.reply(copy))
            },
        }
    }

    /// One frame of upkeep of the active scene. Without an active scene
    /// nothing changes.
    pub fn draw<T: Copy, F: Fn(T, T) -> T>(&self, graph: &mut NodeGraph<T>, compose: F)
        requires
            old(graph)@.wf(),
            self@.fits(old(graph)@),
            forall|a: T, b: T| compose.requires((a, b)),
        ensures
            self@.contains(self@.active) ==> self@.scene(self@.active).drawn(
                old(graph)@,
                final(graph)@,
                compose,
            ),
            !self@.contains(self@.active) ==> final(graph)@ == old(graph)@,
            final(graph)@.wf(),
    {
        if self.contains(self.active) {
            let i: usize = (self.active - 1) as usize;
            proof {
                assert(self@.scenes[i as int].fits(graph@));
            }
            self.scenes[i].draw(graph, compose);
        }
    }
}

/// A look into the queue that is owed an answer found a request, and the
/// answer is a `CreatedScene` or a `LoadedDrawable`.
proof fn lemma_answered<T>(before: DirectoryView, g: GraphView<T>, found: Polled<ServiceMessage>)
    requires
        taken(before, g, found).answer is Some,
    ensures
        found is Message,
        answered(
            before,
            g,
            taken(before, g, found).directory,
            taken(before, g, found).graph,
            taken(before, g, found).answer->0,
        ),
        taken(before, g, found).answer->0 is CreatedScene || taken(before, g, found).answer->0
            is LoadedDrawable,
{
    let request = found->Message_0@;
    assert(before.respond(request, g) == taken(before, g, found));
}

/// A look into the queue that is owed no answer changed nothing.
proof fn lemma_unanswered<T>(before: DirectoryView, g: GraphView<T>, found: Polled<ServiceMessage>)
    requires
        taken(before, g, found).answer is None,
    ensures
        taken(before, g, found).directory == before,
        taken(before, g, found).graph == g,
{
}

/// A new scene keeps directory and graph well formed and fitting.
proof fn lemma_create_scene_wf<T>(directory: DirectoryView, name: Seq<char>, g: GraphView<T>)
    requires
        directory.wf(),
        g.wf(),
        directory.fits(g),
        directory.scenes.len() < u32::MAX,
        g.nodes.len() < u32::MAX,
    ensures
        directory.create_scene(name, g).wf(),
        directory.create_scene(name, g).fits(g.create()),
{
    let d = directory.create_scene(name, g);
    let h = g.create();
    assert forall|i: int| 0 <= i < d.scenes.len() implies (#[trigger] d.scenes[i]).fits(h) by {
        if i < directory.scenes.len() {
            assert(directory.scenes[i].fits(g));
            let sc = directory.scenes[i];
            assert forall|k: int| 0 <= k < sc.drawables.len() implies h.has_instances(
                (#[trigger] sc.drawables[k]).instances,
            ) by {
                assert(g.has_instances(sc.drawables[k].instances));
            }
        }
    }
    assert forall|i: int, k: int|
        0 <= i < d.scenes.len() && 0 <= k < d.scenes[i].drawables.len() implies 1 <= (
    #[trigger] d.scenes[i].drawables[k]).id <= d.drawables by {
        assert(directory.scenes[i].drawables[k].id <= directory.drawables);
    }
    assert forall|i: int, k: int, j: int, l: int|
        0 <= i < d.scenes.len() && 0 <= k < d.scenes[i].drawables.len() && 0 <= j
            < d.scenes.len() && 0 <= l < d.scenes[j].drawables.len() && (
        #[trigger] d.scenes[i].drawables[k]).id == (
        #[trigger] d.scenes[j].drawables[l]).id implies i == j && k == l by {
        assert(directory.scenes[i].drawables[k].id == directory.scenes[j].drawables[l].id);
    }
}

/// A new drawable keeps directory and graph well formed and fitting.
proof fn lemma_load_drawable_wf<T>(
    directory: DirectoryView,
    scene: u32,
    file: Seq<char>,
    g: GraphView<T>,
)
    requires
        directory.wf(),
        g.wf(),
        directory.fits(g),
        directory.contains(scene),
        directory.drawables < u32::MAX,
        g.instances.len() < u32::MAX,
    ensures
        directory.load_drawable(scene, file, g).wf(),
        directory.load_drawable(scene, file, g).fits(g.create_instances()),
{
    let d = directory.load_drawable(scene, file, g);
    let h = g.create_instances();
    assert forall|i: int| 0 <= i < d.scenes.len() implies (#[trigger] d.scenes[i]).fits(h) by {
        assert(directory.scenes[i].fits(g));
        let sc = d.scenes[i];
        assert forall|k: int| 0 <= k < sc.drawables.len() implies h.has_instances(
            (#[trigger] sc.drawables[k]).instances,
        ) by {
            if k < directory.scenes[i].drawables.len() {
                assert(g.has_instances(directory.scenes[i].drawables[k].instances));
            }
        }
    }
    assert forall|i: int, k: int|
        0 <= i < d.scenes.len() && 0 <= k < d.scenes[i].drawables.len() implies 1 <= (
    #[trigger] d.scenes[i].drawables[k]).id <= d.drawables by {
        if k < directory.scenes[i].drawables.len() {
            assert(directory.scenes[i].drawables[k].id <= directory.drawables);
        }
    }
    assert forall|i: int, k: int, j: int, l: int|
        0 <= i < d.scenes.len() && 0 <= k < d.scenes[i].drawables.len() && 0 <= j
            < d.scenes.len() && 0 <= l < d.scenes[j].drawables.len() && (
        #[trigger] d.scenes[i].drawables[k]).id == (
        #[trigger] d.scenes[j].drawables[l]).id implies i == j && k == l by {
        let old_k = k < directory.scenes[i].drawables.len();
        let old_l = l < directory.scenes[j].drawables.len();
        if old_k {
            assert(directory.scenes[i].drawables[k].id <= directory.drawables);
        }
        if old_l {
            assert(directory.scenes[j].drawables[l].id <= directory.drawables);
        }
        if old_k && old_l {
            assert(directory.scenes[i].drawables[k].id == directory.scenes[j].drawables[l].id);
        }
    }
}

} // verus!
