use kamplud::components::{player_start, Health, IsGround, XP};
use kamplud::play::{add_xp, character_contacts, choose_push, coin_pickups, CharacterState, Contact, MoveKeys, Push};
use kamplud::scene::{
    classify_metadata, collect_meshes, metadata_commands, node_role, scene_meshes, MeshNode, NewMesh,
    NodeKind, NodeRole, SceneCommand, TaggedNode,
};

fn fresh(health: u8) -> CharacterState {
    CharacterState {
        health: Health(health),
        is_ground: IsGround(false),
        won: false,
        game_over: false,
        respawn: false,
        camera_reset: false,
    }
}

const CHILD: u64 = 10;
const GROUND: u64 = 20;
const GOAL: u64 = 30;
const HAZARD: u64 = 40;

fn run(start: CharacterState, contacts: Vec<Contact>) -> CharacterState {
    character_contacts(start, CHILD, &vec![GROUND], &vec![GOAL], &vec![HAZARD], &contacts)
}

#[test]
fn ground_contact_starts_and_stops() {
    let r = run(fresh(3), vec![Contact::Started(GROUND, CHILD)]);
    assert_eq!(r.is_ground, IsGround(true));
    let r = run(r, vec![Contact::Stopped(CHILD, GROUND)]);
    assert_eq!(r.is_ground, IsGround(false));
    let r = run(fresh(3), vec![Contact::Started(GROUND, 99)]);
    assert_eq!(r.is_ground, IsGround(false));
}

#[test]
fn goal_contact_wins() {
    let r = run(fresh(3), vec![Contact::Started(CHILD, GOAL)]);
    assert!(r.won && !r.game_over);
    assert_eq!(r.health, Health(3));
}

#[test]
fn hazard_costs_a_life() {
    let r = run(fresh(3), vec![Contact::Started(HAZARD, CHILD)]);
    assert_eq!(r.health, Health(2));
    assert!(r.respawn && !r.camera_reset && !r.game_over);
}

#[test]
fn hazard_with_last_life_ends_game() {
    let r = run(fresh(3), vec![Contact::Started(HAZARD, CHILD); 3]);
    assert_eq!(r.health, Health(1));
    assert!(r.game_over && r.camera_reset && r.respawn);
    let r = run(fresh(1), vec![Contact::Started(CHILD, HAZARD)]);
    assert_eq!(r.health, Health(1));
    assert!(r.game_over);
}

#[test]
fn stopped_hazard_contact_does_nothing() {
    let r = run(fresh(2), vec![Contact::Stopped(HAZARD, CHILD)]);
    assert_eq!(r, fresh(2));
}

#[test]
fn coins_touching_player_are_picked() {
    let coins = vec![1, 2, 3];
    let contacts = vec![
        Contact::Started(100, 2),
        Contact::Stopped(100, 3),
        Contact::Started(3, 100),
        Contact::Started(2, 100),
        Contact::Started(3, 7),
    ];
    assert_eq!(coin_pickups(100, &coins, &contacts), vec![2, 3, 2]);
    assert!(coin_pickups(100, &coins, &vec![]).is_empty());
}

#[test]
fn xp_adds_points() {
    assert_eq!(add_xp(XP(4), 3), XP(7));
    assert_eq!(add_xp(XP(65534), 1), XP(65535));
}

fn keys(forward: bool, back: bool, left: bool, right: bool, jump: bool) -> MoveKeys {
    MoveKeys { forward, back, left, right, jump }
}

#[test]
fn pushes_follow_key_priority() {
    assert_eq!(choose_push(keys(false, false, false, false, false), IsGround(true)), None);
    assert_eq!(choose_push(keys(true, false, false, false, false), IsGround(false)), Some(Push::Forward));
    assert_eq!(choose_push(keys(true, true, false, false, false), IsGround(false)), Some(Push::Back));
    assert_eq!(choose_push(keys(false, false, true, true, false), IsGround(false)), Some(Push::Right));
    assert_eq!(choose_push(keys(true, false, true, false, false), IsGround(false)), Some(Push::ForwardLeft));
    assert_eq!(choose_push(keys(false, true, true, false, false), IsGround(false)), Some(Push::BackLeft));
    assert_eq!(choose_push(keys(true, false, false, true, false), IsGround(false)), Some(Push::ForwardRight));
    assert_eq!(choose_push(keys(true, true, true, true, false), IsGround(false)), Some(Push::BackRight));
    assert_eq!(choose_push(keys(true, false, false, false, true), IsGround(false)), Some(Push::Forward));
    assert_eq!(choose_push(keys(true, false, false, false, true), IsGround(true)), Some(Push::Jump));
}

fn leaf(meshes: Vec<u64>) -> MeshNode {
    MeshNode { meshes, children: vec![] }
}

#[test]
fn mesh_tree_is_read_depth_first() {
    let tree = MeshNode {
        meshes: vec![1, 2],
        children: vec![
            MeshNode { meshes: vec![3], children: vec![leaf(vec![4])] },
            leaf(vec![]),
            leaf(vec![5]),
        ],
    };
    assert_eq!(collect_meshes(&tree), vec![1, 2, 3, 4, 5]);
}

#[test]
fn scene_meshes_only_for_level_scene() {
    let nodes = vec![Some(leaf(vec![1])), None, Some(leaf(vec![2, 3]))];
    assert_eq!(scene_meshes(true, &nodes), vec![1, 2, 3]);
    assert!(scene_meshes(false, &nodes).is_empty());
}

#[test]
fn metadata_roles() {
    assert_eq!(
        classify_metadata(r#"{"collider": "true", "type": "finish"}"#),
        Some(NodeRole { collider: true, kind: NodeKind::Finish })
    );
    assert_eq!(
        classify_metadata(r#"{"type": "coin"}"#),
        Some(NodeRole { collider: false, kind: NodeKind::Coin })
    );
    assert_eq!(
        classify_metadata(r#"{"collider": true, "type": "lava"}"#),
        Some(NodeRole { collider: false, kind: NodeKind::Plain })
    );
    assert_eq!(classify_metadata("[1, 2]"), Some(NodeRole { collider: false, kind: NodeKind::Plain }));
    assert_eq!(classify_metadata("{not json"), None);
    assert_eq!(
        node_role(&Some("true".to_string()), &Some("damage".to_string())),
        NodeRole { collider: true, kind: NodeKind::Damage }
    );
    assert_eq!(node_role(&None, &Some("ground".to_string())), NodeRole { collider: false, kind: NodeKind::Ground });
}

#[test]
fn metadata_commands_set_up_level() {
    let loaded = vec![7, 8];
    let meshes = vec![
        NewMesh { parent: 1, entity: 11, mesh: 7, collider_ready: true },
        NewMesh { parent: 2, entity: 12, mesh: 9, collider_ready: true },
        NewMesh { parent: 3, entity: 13, mesh: 8, collider_ready: false },
    ];
    let tagged = vec![
        TaggedNode { entity: 1, metadata: r#"{"collider": "true", "type": "damage"}"#.to_string() },
        TaggedNode { entity: 4, metadata: r#"{"type": "coin"}"#.to_string() },
        TaggedNode { entity: 2, metadata: r#"{"type": "ground"}"#.to_string() },
    ];
    let cmds = metadata_commands(Some(&loaded), &meshes, &tagged).unwrap();
    assert_eq!(
        cmds,
        vec![
            SceneCommand::MarkInGame(1),
            SceneCommand::Solidify(1, 0),
            SceneCommand::MarkDamage(1),
            SceneCommand::HideMesh(11),
            SceneCommand::MarkInGame(2),
            SceneCommand::MarkInGame(3),
            SceneCommand::SpawnCoin(1),
        ]
    );
    let only_coins = metadata_commands(None, &meshes, &tagged).unwrap();
    assert_eq!(only_coins, vec![SceneCommand::SpawnCoin(1)]);
    let bad = vec![TaggedNode { entity: 1, metadata: "nope".to_string() }];
    assert!(metadata_commands(Some(&loaded), &meshes, &bad).is_none());
}

#[test]
fn solid_nodes_take_colliders_of_their_own_meshes() {
    let loaded = vec![5, 6];
    let meshes = vec![
        NewMesh { parent: 1, entity: 11, mesh: 6, collider_ready: true },
        NewMesh { parent: 2, entity: 12, mesh: 5, collider_ready: true },
    ];
    let tagged = vec![
        TaggedNode { entity: 2, metadata: r#"{"collider": "true", "type": "finish"}"#.to_string() },
        TaggedNode { entity: 1, metadata: r#"{"collider": "true"}"#.to_string() },
    ];
    let cmds = metadata_commands(Some(&loaded), &meshes, &tagged).unwrap();
    for c in &cmds {
        if let SceneCommand::Solidify(parent, index) = c {
            assert_eq!(meshes[*index].parent, *parent);
            assert!(meshes[*index].collider_ready);
        }
    }
    assert_eq!(
        cmds,
        vec![
            SceneCommand::MarkInGame(1),
            SceneCommand::Solidify(1, 0),
            SceneCommand::MarkInGame(2),
            SceneCommand::Solidify(2, 1),
            SceneCommand::MarkFinish(2),
            SceneCommand::HideMesh(12),
        ]
    );
}

#[test]
fn hazard_touches_of_a_frame_in_closed_form() {
    // h = 5, k = 2: lives 3, no game over, player put back.
    let r = run(fresh(5), vec![Contact::Started(HAZARD, CHILD), Contact::Started(GROUND, CHILD), Contact::Started(CHILD, HAZARD)]);
    assert_eq!(r.health, Health(3));
    assert!(!r.game_over && !r.camera_reset && r.respawn);
    // h = 2, k = 4: lives 1, game over, camera put back.
    let r = run(fresh(2), vec![Contact::Started(HAZARD, CHILD); 4]);
    assert_eq!(r.health, Health(1));
    assert!(r.game_over && r.camera_reset && r.respawn);
    // k = 0: nothing happens to lives.
    let r = run(fresh(2), vec![Contact::Started(GOAL, CHILD)]);
    assert_eq!(r.health, Health(2));
    assert!(!r.game_over && !r.respawn);
}

#[test]
fn player_starts_with_three_lives_and_no_points() {
    assert_eq!(player_start(), (XP(0), Health(3), IsGround(false)));
}
