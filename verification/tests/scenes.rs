use einkrad::drawable::Drawable;
use einkrad::message::{
    create_scene_request, load_drawable_request, GameMessage, ServiceMessage,
};
use einkrad::node::NodeGraph;
use einkrad::scene::{Scene, SceneDirectory};

type Matrix = [f32; 16];

const IDENTITY: Matrix = [
    1.0, 0.0, 0.0, 0.0, 0.0, 1.0, 0.0, 0.0, 0.0, 0.0, 1.0, 0.0, 0.0, 0.0, 0.0, 1.0,
];

const ZERO: Matrix = [0.0; 16];

fn product(m: Matrix, o: Matrix) -> Matrix {
    let mut r = [0.0f32; 16];
    for col in 0..4 {
        for row in 0..4 {
            let mut sum = 0.0f32;
            for k in 0..4 {
                sum += m[k * 4 + row] * o[col * 4 + k];
            }
            r[col * 4 + row] = sum;
        }
    }
    r
}

fn translation(x: f32, y: f32, z: f32) -> Matrix {
    let mut m = IDENTITY;
    m[12] = x;
    m[13] = y;
    m[14] = z;
    m
}

fn digits(world: u64, local: u64) -> u64 {
    world * 10 + local
}

#[test]
fn new_directory_has_no_scene_and_no_active_scene() {
    let d = SceneDirectory::new();
    assert_eq!(d.scene_count(), 0);
    assert_eq!(d.active(), 0);
    assert!(!d.contains(0));
    assert!(!d.contains(1));
}

#[test]
fn create_scene_answers_with_fresh_ids() {
    let mut g: NodeGraph<Matrix> = NodeGraph::new(IDENTITY, ZERO);
    let mut d = SceneDirectory::new();
    let first = d.respond(ServiceMessage::CreateScene(String::from("level1")), &mut g);
    let second = d.respond(ServiceMessage::CreateScene(String::from("level2")), &mut g);
    assert_eq!(first, Some(ServiceMessage::CreatedScene(1, 1)));
    assert_eq!(second, Some(ServiceMessage::CreatedScene(2, 2)));
    assert_eq!(d.scene_count(), 2);
    assert_eq!(d.scene(1).name, "level1");
    assert_eq!(d.scene(2).name, "level2");
    assert_eq!(d.scene(1).id, 1);
    assert_eq!(d.scene(2).root, 2);
    assert!(d.scene(1).drawables.is_empty());
    assert_eq!(g.node_count(), 2);
}

#[test]
fn scene_root_is_a_new_node_of_the_graph() {
    let mut g: NodeGraph<u64> = NodeGraph::new(1, 0);
    let _a = g.create();
    let _b = g.create();
    let mut d = SceneDirectory::new();
    let (id, root) = d.create_scene(String::from("level1"), &mut g);
    assert_eq!((id, root), (1, 3));
    assert!(g.contains(root));
    assert_eq!(g.node(root).parent(), None);
    assert_eq!(g.node(root).transform(), 1);
    assert!(d.fits(&g));
}

#[test]
fn load_drawable_on_valid_scene_starts_with_empty_instance_list() {
    let mut g: NodeGraph<Matrix> = NodeGraph::new(IDENTITY, ZERO);
    let mut d = SceneDirectory::new();
    let (scene, root) = d.create_scene(String::from("level1"), &mut g);
    let answer = d.respond(ServiceMessage::LoadDrawable(scene, String::from("mesh.obj")), &mut g);
    let (drawable, list) = match answer {
        Some(ServiceMessage::LoadedDrawable(drawable, list)) => (drawable, list),
        other => panic!("unexpected answer {:?}", other),
    };
    assert_eq!((drawable, list), (1, 1));
    assert!(g.instances(list).matrices().is_empty());
    assert!(g.instances(list).nodes().is_empty());
    assert_eq!(d.scene(scene).drawables.len(), 1);
    assert_eq!(d.scene(scene).drawables[0].id, drawable);
    assert_eq!(d.scene(scene).drawables[0].file, "mesh.obj");
    assert_eq!(d.scene(scene).drawables[0].instances, list);

    let node = g.create();
    g.add(root, node);
    g.set_drawable(node, list);
    assert_eq!(g.instances(list).matrices(), &vec![IDENTITY]);

    g.transform_local(node, |m: Matrix| product(m, translation(1.0, 2.0, 3.0)));
    assert_eq!(g.instances(list).matrices(), &vec![IDENTITY]);
    d.apply(GameMessage::SetLevel(scene));
    d.draw(&mut g, product);
    assert_eq!(g.instances(list).matrices(), &vec![translation(1.0, 2.0, 3.0)]);
}

#[test]
fn load_drawable_on_unknown_scene_is_dropped() {
    let mut g: NodeGraph<Matrix> = NodeGraph::new(IDENTITY, ZERO);
    let mut d = SceneDirectory::new();
    let (scene, _) = d.create_scene(String::from("level1"), &mut g);
    let answer = d.respond(ServiceMessage::LoadDrawable(scene + 1, String::from("mesh.obj")), &mut g);
    assert_eq!(answer, None);
    let answer = d.respond(ServiceMessage::LoadDrawable(0, String::from("mesh.obj")), &mut g);
    assert_eq!(answer, None);
    assert_eq!(d.load_drawable(9, String::from("mesh.obj"), &mut g), None);
    assert_eq!(g.instances_count(), 0);
    assert!(d.scene(scene).drawables.is_empty());
    // The directory still serves.
    let answer = d.respond(ServiceMessage::LoadDrawable(scene, String::from("mesh.obj")), &mut g);
    assert_eq!(answer, Some(ServiceMessage::LoadedDrawable(1, 1)));
}

#[test]
fn answers_are_not_requests_and_get_no_answer() {
    let mut g: NodeGraph<u64> = NodeGraph::new(1, 0);
    let mut d = SceneDirectory::new();
    assert_eq!(d.respond(ServiceMessage::CreatedScene(1, 1), &mut g), None);
    assert_eq!(d.respond(ServiceMessage::LoadedDrawable(1, 1), &mut g), None);
    assert_eq!(d.scene_count(), 0);
    assert_eq!(g.node_count(), 0);
}

#[test]
fn drawable_ids_are_unique_across_scenes() {
    let mut g: NodeGraph<u64> = NodeGraph::new(1, 0);
    let mut d = SceneDirectory::new();
    let (one, _) = d.create_scene(String::from("one"), &mut g);
    let (two, _) = d.create_scene(String::from("two"), &mut g);
    assert_eq!(d.load_drawable(one, String::from("a.obj"), &mut g), Some((1, 1)));
    assert_eq!(d.load_drawable(two, String::from("b.obj"), &mut g), Some((2, 2)));
    assert_eq!(d.load_drawable(one, String::from("c.obj"), &mut g), Some((3, 3)));
    assert_eq!(d.scene(one).drawables.len(), 2);
    assert_eq!(d.scene(two).drawables.len(), 1);
    assert_eq!(d.scene(one).drawables[1].id, 3);
}

#[test]
fn responses_pair_with_requests_in_order() {
    let mut g: NodeGraph<u64> = NodeGraph::new(1, 0);
    let mut d = SceneDirectory::new();
    let requests = vec![
        ServiceMessage::CreateScene(String::from("a")),
        ServiceMessage::LoadDrawable(1, String::from("x.obj")),
        ServiceMessage::LoadDrawable(5, String::from("y.obj")),
        ServiceMessage::CreateScene(String::from("b")),
        ServiceMessage::LoadDrawable(2, String::from("z.obj")),
    ];
    let mut answers = Vec::new();
    for request in requests.iter() {
        let answer = d.respond(request.clone(), &mut g);
        if let Some(a) = &answer {
            assert!(a.answers(request));
            assert!(!a.is_request());
        }
        answers.push(answer);
    }
    assert_eq!(
        answers,
        vec![
            Some(ServiceMessage::CreatedScene(1, 1)),
            Some(ServiceMessage::LoadedDrawable(1, 1)),
            None,
            Some(ServiceMessage::CreatedScene(2, 2)),
            Some(ServiceMessage::LoadedDrawable(2, 2)),
        ]
    );
}

#[test]
fn message_shapes() {
    let create = ServiceMessage::CreateScene(String::from("a"));
    let created = ServiceMessage::CreatedScene(1, 1);
    let load = ServiceMessage::LoadDrawable(1, String::from("a"));
    let loaded = ServiceMessage::LoadedDrawable(1, 1);
    assert!(create.is_request() && load.is_request());
    assert!(!created.is_request() && !loaded.is_request());
    assert!(created.answers(&create));
    assert!(loaded.answers(&load));
    assert!(!loaded.answers(&create));
    assert!(!created.answers(&load));
    assert!(!create.answers(&create));
    assert!(!created.answers(&created));
}

#[test]
fn set_level_chooses_the_scene_to_draw() {
    let mut g: NodeGraph<u64> = NodeGraph::new(0, 999);
    let mut d = SceneDirectory::new();
    let (one, root_one) = d.create_scene(String::from("one"), &mut g);
    let (two, root_two) = d.create_scene(String::from("two"), &mut g);
    g.transform_local(root_one, |_| 1);
    g.transform_local(root_two, |_| 2);

    // Without an active scene nothing is drawn.
    d.draw(&mut g, digits);
    assert_eq!(g.node(root_one).transform_world(), 999);
    assert_eq!(g.node(root_two).transform_world(), 999);

    d.apply(GameMessage::SetLevel(two));
    assert_eq!(d.active(), two);
    d.draw(&mut g, digits);
    assert_eq!(g.node(root_one).transform_world(), 999);
    assert_eq!(g.node(root_two).transform_world(), 2);

    d.apply(GameMessage::SetLevel(one));
    d.draw(&mut g, digits);
    assert_eq!(g.node(root_one).transform_world(), 1);

    d.apply(GameMessage::SetLevel(77));
    g.transform_local(root_one, |_| 5);
    d.draw(&mut g, digits);
    assert_eq!(g.node(root_one).transform_world(), 1);
}

#[test]
fn scene_draw_updates_worlds_and_every_instance_list() {
    let mut g: NodeGraph<u64> = NodeGraph::new(1, 0);
    let mut scene = Scene::new(4, String::from("level"), &mut g);
    assert_eq!(scene.id, 4);
    assert_eq!(scene.root, 1);
    let (_, first) = scene.load(10, String::from("a.obj"), &mut g);
    let (id, second) = scene.load(11, String::from("b.obj"), &mut g);
    assert_eq!((id, second), (11, 2));
    assert!(scene.fits(&g));

    let a = g.create();
    let b = g.create();
    g.add(scene.root, a);
    g.add(a, b);
    g.transform_local(scene.root, |_| 1);
    g.transform_local(a, |_| 2);
    g.transform_local(b, |_| 3);
    g.set_drawable(a, first);
    g.set_drawable(b, first);
    g.set_drawable(b, second);

    scene.draw(&mut g, digits);
    assert_eq!(g.instances(first).matrices(), &vec![12, 123]);
    assert_eq!(g.instances(second).matrices(), &vec![123]);
    assert_eq!(g.node(scene.root).transform_world(), 1);
}

#[test]
fn scene_does_not_fit_a_graph_without_its_nodes() {
    let mut g: NodeGraph<u64> = NodeGraph::new(1, 0);
    let mut scene = Scene::new(1, String::from("level"), &mut g);
    let _ = scene.load(1, String::from("a.obj"), &mut g);
    let empty: NodeGraph<u64> = NodeGraph::new(1, 0);
    assert!(scene.fits(&g));
    assert!(!scene.fits(&empty));
    let mut nodes_only: NodeGraph<u64> = NodeGraph::new(1, 0);
    let _ = nodes_only.create();
    assert!(!scene.fits(&nodes_only));
}

#[test]
fn drawable_refreshes_its_own_list() {
    let mut g: NodeGraph<u64> = NodeGraph::new(1, 0);
    let d = Drawable::new(3, String::from("a.obj"), &mut g);
    assert_eq!(d.id, 3);
    assert_eq!(d.file, "a.obj");
    assert_eq!(d.instances, 1);
    let n = g.create();
    g.transform_local(n, |_| 8);
    g.set_drawable(n, d.instances);
    g.update_world(n, digits);
    assert_eq!(g.instances(d.instances).matrices(), &vec![1]);
    d.draw(&mut g);
    assert_eq!(g.instances(d.instances).matrices(), &vec![8]);
}

#[test]
fn directory_has_room_in_a_small_world() {
    let mut g: NodeGraph<u64> = NodeGraph::new(1, 0);
    let mut d = SceneDirectory::new();
    assert!(d.has_room(&g));
    let _ = d.create_scene(String::from("one"), &mut g);
    assert!(d.has_room(&g));
    assert!(d.fits(&g));
    let other: NodeGraph<u64> = NodeGraph::new(1, 0);
    assert!(!d.fits(&other));
}

#[test]
fn find_drawable_gives_scene_and_position() {
    let mut g: NodeGraph<u64> = NodeGraph::new(1, 0);
    let mut d = SceneDirectory::new();
    assert_eq!(d.find_drawable(1), None);
    let (one, _) = d.create_scene(String::from("one"), &mut g);
    let (two, _) = d.create_scene(String::from("two"), &mut g);
    let _ = d.load_drawable(two, String::from("a.obj"), &mut g);
    let _ = d.load_drawable(one, String::from("b.obj"), &mut g);
    let _ = d.load_drawable(two, String::from("c.obj"), &mut g);
    assert_eq!(d.find_drawable(1), Some((two, 0)));
    assert_eq!(d.find_drawable(2), Some((one, 0)));
    assert_eq!(d.find_drawable(3), Some((two, 1)));
    assert_eq!(d.find_drawable(4), None);
    assert_eq!(d.find_drawable(0), None);
    assert_eq!(d.scene(two).drawables[1].file, "c.obj");
}

#[test]
fn requests_carry_their_arguments_unchanged() {
    assert_eq!(
        create_scene_request(String::from("level1")),
        ServiceMessage::CreateScene(String::from("level1"))
    );
    assert_eq!(create_scene_request(String::new()), ServiceMessage::CreateScene(String::new()));
    assert_eq!(
        load_drawable_request(7, String::from("mesh.obj")),
        ServiceMessage::LoadDrawable(7, String::from("mesh.obj"))
    );
    assert_eq!(
        load_drawable_request(0, String::from("a b.obj")),
        ServiceMessage::LoadDrawable(0, String::from("a b.obj"))
    );
}

#[test]
fn duplicate_has_the_same_content() {
    for m in [
        ServiceMessage::CreateScene(String::from("level1")),
        ServiceMessage::CreatedScene(3, 4),
        ServiceMessage::LoadDrawable(2, String::from("mesh.obj")),
        ServiceMessage::LoadedDrawable(5, 6),
    ] {
        assert_eq!(m.duplicate(), m);
    }
}

#[test]
fn scene_ids_go_upwards() {
    let mut g: NodeGraph<u64> = NodeGraph::new(1, 0);
    let mut d = SceneDirectory::new();
    let mut last = 0;
    for n in 0..20 {
        let _ = d.respond(ServiceMessage::LoadDrawable(last, String::from("a.obj")), &mut g);
        let _ = d.respond(ServiceMessage::LoadDrawable(99, String::from("a.obj")), &mut g);
        match d.respond(ServiceMessage::CreateScene(format!("level{}", n)), &mut g) {
            Some(ServiceMessage::CreatedScene(id, _)) => {
                assert!(id > last);
                last = id;
            }
            other => panic!("unexpected answer {:?}", other),
        }
    }
    assert_eq!(last, 20);
    assert_eq!(d.scene_count(), 20);
}
