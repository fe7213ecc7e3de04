use dungeoncrawl::camera::Camera;
use dungeoncrawl::components::Health;
use dungeoncrawl::geometry::Point;
use dungeoncrawl::map::{map_idx, TileMap, TileType, NUM_TILES};
use dungeoncrawl::systems::chasing::{chasing, lowest_exit, Chaser, Target};
use dungeoncrawl::systems::collisions::{collisions, Placed};
use dungeoncrawl::systems::combat::{combat, AttackMessage, Combatant, Weapon};
use dungeoncrawl::systems::debug::increment_and_get;
use dungeoncrawl::systems::end_turn::{end_turn, PlayerStatus};
use dungeoncrawl::systems::entity_render::entity_render;
use dungeoncrawl::systems::field_of_view::field_of_view;
use dungeoncrawl::components::FieldOfView;
use dungeoncrawl::systems::map_render::{map_render, DrawnTile};
use dungeoncrawl::systems::player_input::{player_input, Key, PlayerCommand};
use dungeoncrawl::systems::random_move::{random_move, wander};
use dungeoncrawl::systems::tooltips::{tooltip_cell, tooltips, tooltip_text};
use dungeoncrawl::systems::use_items::{use_items, ActivationMessage, Patient, Usable};
use dungeoncrawl::systems::{Intent, WantsActivateItem, WantsToAttack, WantsToMove};
use dungeoncrawl::turn_state::TurnState;

fn walled() -> TileMap {
    let mut m = TileMap::new();
    for t in m.tiles.iter_mut() {
        *t = TileType::Wall;
    }
    m
}

/// Distances along row 5 from column `from`, over a corridor of floor.
fn corridor_distances(map: &TileMap, from: i32) -> Vec<Option<u32>> {
    let mut d = vec![None; NUM_TILES];
    for x in 0..80 {
        if map.tiles[map_idx(x, 5)] == TileType::Floor {
            d[map_idx(x, 5)] = Some((x - from).unsigned_abs());
        }
    }
    d
}

#[test]
fn lowest_exit_prefers_the_nearer_then_the_first() {
    let map = TileMap::new();
    let mut d = vec![Some(9u32); NUM_TILES];
    let c = map_idx(10, 10);
    assert_eq!(lowest_exit(&d, c, &map), Some(map_idx(9, 10)));
    d[map_idx(10, 11)] = Some(2);
    assert_eq!(lowest_exit(&d, c, &map), Some(map_idx(10, 11)));
    d[map_idx(9, 10)] = None;
    d[map_idx(10, 11)] = Some(9);
    assert_eq!(lowest_exit(&d, c, &map), Some(map_idx(11, 10)));
    let closed = walled();
    assert_eq!(lowest_exit(&d, c, &closed), None);
}

#[test]
fn chasers_step_toward_the_player_or_strike() {
    let mut map = walled();
    for x in 0..20 {
        map.tiles[map_idx(x, 5)] = TileType::Floor;
    }
    let player = Point::new(2, 5);
    let d = corridor_distances(&map, 2);
    let chasers = vec![
        Chaser { id: 7, pos: Point::new(10, 5) },
        Chaser { id: 8, pos: Point::new(3, 5) },
        Chaser { id: 9, pos: Point::new(30, 30) },
    ];
    let targets = vec![
        Target { id: 1, pos: player, is_player: true },
        Target { id: 7, pos: Point::new(10, 5), is_player: false },
    ];
    let intents = chasing(&chasers, &targets, player, &map, &d);
    assert_eq!(
        intents,
        vec![
            Intent::Move(WantsToMove { entity: 7, destination: Point::new(9, 5) }),
            Intent::Attack(WantsToAttack { attacker: 8, victim: 1 }),
        ]
    );
}

#[test]
fn chasers_do_not_attack_each_other() {
    let mut map = walled();
    for x in 0..20 {
        map.tiles[map_idx(x, 5)] = TileType::Floor;
    }
    let player = Point::new(2, 5);
    let d = corridor_distances(&map, 2);
    let chasers = vec![Chaser { id: 7, pos: Point::new(10, 5) }];
    let targets = vec![Target { id: 4, pos: Point::new(9, 5), is_player: false }];
    let intents = chasing(&chasers, &targets, player, &map, &d);
    assert_eq!(intents, vec![Intent::Move(WantsToMove { entity: 7, destination: Point::new(9, 5) })]);
}

#[test]
fn combat_adds_weapons_and_removes_the_slain() {
    let mut entities = vec![
        Combatant { id: 1, damage: Some(1), health: Some(Health { current: 10, max: 10 }), is_player: true },
        Combatant { id: 2, damage: Some(1), health: Some(Health { current: 3, max: 3 }), is_player: false },
        Combatant { id: 3, damage: None, health: Some(Health { current: 2, max: 2 }), is_player: false },
    ];
    let weapons = vec![Weapon { carrier: 1, damage: 2 }, Weapon { carrier: 4, damage: 5 }];
    let attacks = vec![
        AttackMessage { message: 100, attacker: 1, victim: 2 },
        AttackMessage { message: 101, attacker: 2, victim: 1 },
        AttackMessage { message: 102, attacker: 3, victim: 1 },
    ];
    let removed = combat(&attacks, &mut entities, &weapons);
    assert_eq!(removed, vec![2, 100, 101, 102]);
    assert_eq!(entities[0].health, Some(Health { current: 9, max: 10 }));
    assert_eq!(entities[1].health, Some(Health { current: 0, max: 3 }));
    assert_eq!(entities[2].health, Some(Health { current: 2, max: 2 }));
}

#[test]
fn combat_never_removes_the_player() {
    let mut entities = vec![
        Combatant { id: 1, damage: Some(1), health: Some(Health { current: 1, max: 10 }), is_player: true },
        Combatant { id: 2, damage: Some(4), health: None, is_player: false },
    ];
    let attacks = vec![
        AttackMessage { message: 50, attacker: 2, victim: 1 },
        AttackMessage { message: 51, attacker: 1, victim: 2 },
    ];
    let removed = combat(&attacks, &mut entities, &vec![]);
    assert_eq!(removed, vec![50, 51]);
    assert_eq!(entities[0].health, Some(Health { current: -3, max: 10 }));
    assert_eq!(entities[1].health, None);
}

#[test]
fn healing_is_capped_at_the_maximum() {
    let acts = vec![
        ActivationMessage { message: 20, used_by: 1, item: 30 },
        ActivationMessage { message: 21, used_by: 2, item: 31 },
        ActivationMessage { message: 22, used_by: 1, item: 99 },
    ];
    let items = vec![
        Usable { id: 30, healing: Some(6), reveals_map: false },
        Usable { id: 31, healing: Some(6), reveals_map: false },
    ];
    let mut patients = vec![
        Patient { id: 1, health: Some(Health { current: 2, max: 10 }) },
        Patient { id: 2, health: Some(Health { current: 7, max: 10 }) },
        Patient { id: 3, health: Some(Health { current: 1, max: 10 }) },
    ];
    let mut map = TileMap::new();
    let removed = use_items(&acts, &items, &mut patients, &mut map);
    assert_eq!(removed, vec![20, 30, 21, 31]);
    assert_eq!(patients[0].health, Some(Health { current: 8, max: 10 }));
    assert_eq!(patients[1].health, Some(Health { current: 10, max: 10 }));
    assert_eq!(patients[2].health, Some(Health { current: 1, max: 10 }));
    assert!(map.revealed_tiles.iter().all(|r| !*r));
}

#[test]
fn the_dungeon_map_reveals_everything() {
    let acts = vec![ActivationMessage { message: 20, used_by: 1, item: 40 }];
    let items = vec![Usable { id: 40, healing: None, reveals_map: true }];
    let mut patients = vec![Patient { id: 1, health: Some(Health { current: 2, max: 10 }) }];
    let mut map = TileMap::new();
    map.tiles[5] = TileType::Wall;
    let removed = use_items(&acts, &items, &mut patients, &mut map);
    assert_eq!(removed, vec![20, 40]);
    assert!(map.revealed_tiles.iter().all(|r| *r));
    assert_eq!(map.tiles[5], TileType::Wall);
    assert_eq!(patients[0].health, Some(Health { current: 2, max: 10 }));
}

fn status(hp: i32, x: i32, y: i32) -> PlayerStatus {
    PlayerStatus { health: Health { current: hp, max: 10 }, pos: Point::new(x, y) }
}

#[test]
fn turns_cycle_and_end() {
    let mut map = TileMap::new();
    map.tiles[map_idx(8, 8)] = TileType::Exit;
    let quiet = vec![status(5, 1, 1)];
    let mut ts = TurnState::PlayerTurn;
    end_turn(&mut ts, &quiet, None, &map);
    assert_eq!(ts, TurnState::MonsterTurn);
    end_turn(&mut ts, &quiet, None, &map);
    assert_eq!(ts, TurnState::AwaitingInput);
    end_turn(&mut ts, &vec![status(0, 1, 1)], None, &map);
    assert_eq!(ts, TurnState::AwaitingInput);

    let mut ts = TurnState::MonsterTurn;
    end_turn(&mut ts, &vec![status(0, 1, 1)], None, &map);
    assert_eq!(ts, TurnState::GameOver);

    let mut ts = TurnState::PlayerTurn;
    end_turn(&mut ts, &vec![status(5, 3, 3)], Some(Point::new(3, 3)), &map);
    assert_eq!(ts, TurnState::Victory);

    let mut ts = TurnState::PlayerTurn;
    end_turn(&mut ts, &vec![status(0, 8, 8)], Some(Point::new(8, 8)), &map);
    assert_eq!(ts, TurnState::NextLevel);

    let mut ts = TurnState::GameOver;
    end_turn(&mut ts, &quiet, None, &map);
    assert_eq!(ts, TurnState::GameOver);
}

#[test]
fn enemies_on_the_player_are_removed() {
    let players = vec![Point::new(1, 1)];
    let enemies = vec![
        Placed { id: 4, pos: Point::new(1, 1) },
        Placed { id: 5, pos: Point::new(2, 1) },
        Placed { id: 6, pos: Point::new(1, 1) },
    ];
    assert_eq!(collisions(&players, &enemies), vec![4, 6]);
    assert_eq!(collisions(&vec![], &enemies), Vec::<u64>::new());
}

#[test]
fn wanderers_step_one_cell_or_stay() {
    let mut map = walled();
    map.tiles[map_idx(5, 5)] = TileType::Floor;
    map.tiles[map_idx(20, 20)] = TileType::Floor;
    map.tiles[map_idx(21, 20)] = TileType::Floor;
    let mut positions = vec![Point::new(5, 5), Point::new(20, 20)];
    for _ in 0..20 {
        random_move(&mut positions, &map);
        assert_eq!(positions[0], Point::new(5, 5));
        assert!(positions[1] == Point::new(20, 20) || positions[1] == Point::new(21, 20));
    }
}

#[test]
fn only_dirty_sights_are_recomputed() {
    let map = TileMap::new();
    let positions = vec![Point::new(1, 2), Point::new(4, 4)];
    let mut clean = FieldOfView::new(1);
    clean.is_dirty = false;
    clean.visible_tiles = vec![Point::new(9, 9)];
    let mut sights = vec![FieldOfView::new(3), clean];
    let fov = |p: Point, r: i32, _m: &TileMap| vec![p, Point::new(p.x + r, p.y)];
    field_of_view(&positions, &mut sights, &map, &fov);
    assert_eq!(sights[0].visible_tiles, vec![Point::new(1, 2), Point::new(4, 2)]);
    assert!(!sights[0].is_dirty);
    assert_eq!(sights[0].radius, 3);
    assert_eq!(sights[1].visible_tiles, vec![Point::new(9, 9)]);
    assert!(!sights[1].is_dirty);
    assert_eq!(sights[1].radius, 1);
}

#[test]
fn entities_are_drawn_relative_to_the_view() {
    let camera = Camera::new(Point::new(30, 20));
    let screen = entity_render(&camera, &vec![Point::new(10, 8), Point::new(35, 21)]);
    assert_eq!(screen, vec![Point::new(0, 0), Point::new(25, 13)]);
}

#[test]
fn only_seen_cells_of_the_view_are_drawn() {
    let mut map = TileMap::new();
    map.tiles[map_idx(21, 9)] = TileType::Wall;
    map.tiles[map_idx(22, 9)] = TileType::Exit;
    let camera = Camera::new(Point::new(30, 20));
    let visible = vec![Point::new(20, 8), Point::new(21, 9), Point::new(22, 9), Point::new(0, 0), Point::new(-1, 9)];
    let mut tiles = map_render(&map, &camera, &visible);
    tiles.sort_by_key(|t| (t.cell.x, t.cell.y));
    assert_eq!(
        tiles,
        vec![
            DrawnTile { cell: Point::new(20, 8), screen: Point::new(10, 0), glyph: 46 },
            DrawnTile { cell: Point::new(21, 9), screen: Point::new(11, 1), glyph: 35 },
            DrawnTile { cell: Point::new(22, 9), screen: Point::new(12, 1), glyph: 62 },
        ]
    );
}

#[test]
fn tooltip_cell_rounds_toward_zero() {
    let camera = Camera::new(Point::new(30, 20));
    assert_eq!(tooltip_cell(Point::new(9, 7), &camera), Point::new(12, 9));
    assert_eq!(tooltip_cell(Point::new(-5, -3), &camera), Point::new(9, 8));
}

#[test]
fn tooltips_name_seen_entities_under_the_mouse() {
    let camera = Camera::new(Point::new(30, 20));
    let under = Point::new(12, 9);
    let positions = vec![under, Point::new(13, 9), under, under];
    let visible = vec![under, Point::new(13, 9)];
    assert_eq!(tooltips(Point::new(9, 7), &camera, &positions, &visible), vec![0, 2, 3]);
    assert_eq!(tooltips(Point::new(9, 7), &camera, &positions, &vec![]), Vec::<usize>::new());
}

#[test]
fn debug_lines_count_down_the_screen() {
    let mut y = 5;
    assert_eq!(increment_and_get(&mut y), 6);
    assert_eq!(increment_and_get(&mut y), 7);
    assert_eq!(y, 7);
}

#[test]
fn arrow_keys_move_or_attack() {
    let enemies = vec![Placed { id: 9, pos: Point::new(6, 5) }, Placed { id: 10, pos: Point::new(6, 5) }];
    let mut ts = TurnState::AwaitingInput;
    let cmds = player_input(Some(Key::Right), 1, Point::new(5, 5), &vec![], &vec![], &enemies, &mut ts);
    assert_eq!(
        cmds,
        vec![
            PlayerCommand::Act(Intent::Attack(WantsToAttack { attacker: 1, victim: 9 })),
            PlayerCommand::Act(Intent::Attack(WantsToAttack { attacker: 1, victim: 10 })),
        ]
    );
    assert_eq!(ts, TurnState::PlayerTurn);
    let mut ts = TurnState::AwaitingInput;
    let cmds = player_input(Some(Key::Up), 1, Point::new(5, 5), &vec![], &vec![], &enemies, &mut ts);
    assert_eq!(cmds, vec![PlayerCommand::Act(Intent::Move(WantsToMove { entity: 1, destination: Point::new(5, 4) }))]);
    assert_eq!(ts, TurnState::PlayerTurn);
}

#[test]
fn g_picks_up_and_digits_use_items() {
    let floor = vec![Placed { id: 30, pos: Point::new(5, 5) }, Placed { id: 31, pos: Point::new(1, 1) }];
    let carried = vec![40, 41];
    let mut ts = TurnState::AwaitingInput;
    let cmds = player_input(Some(Key::G), 1, Point::new(5, 5), &floor, &carried, &vec![], &mut ts);
    assert_eq!(cmds, vec![PlayerCommand::PickUp { item: 30, carrier: 1 }]);
    let cmds = player_input(Some(Key::Digit(2)), 1, Point::new(5, 5), &floor, &carried, &vec![], &mut ts);
    assert_eq!(cmds, vec![PlayerCommand::Activate(WantsActivateItem { used_by: 1, item: 41 })]);
    let cmds = player_input(Some(Key::Digit(3)), 1, Point::new(5, 5), &floor, &carried, &vec![], &mut ts);
    assert!(cmds.is_empty());
    let cmds = player_input(Some(Key::Digit(0)), 1, Point::new(5, 5), &floor, &carried, &vec![], &mut ts);
    assert!(cmds.is_empty());
}

#[test]
fn other_keys_pass_the_turn_and_no_key_waits() {
    let mut ts = TurnState::AwaitingInput;
    let cmds = player_input(None, 1, Point::new(5, 5), &vec![], &vec![], &vec![], &mut ts);
    assert!(cmds.is_empty());
    assert_eq!(ts, TurnState::AwaitingInput);
    let cmds = player_input(Some(Key::Other), 1, Point::new(5, 5), &vec![], &vec![], &vec![], &mut ts);
    assert!(cmds.is_empty());
    assert_eq!(ts, TurnState::PlayerTurn);
}

#[test]
fn wanderers_follow_their_drawn_directions() {
    let mut map = walled();
    for p in [(5, 5), (4, 5), (6, 5), (5, 4), (5, 6), (20, 20)] {
        map.tiles[map_idx(p.0, p.1)] = TileType::Floor;
    }
    let start = vec![Point::new(5, 5), Point::new(5, 5), Point::new(5, 5), Point::new(5, 5), Point::new(20, 20)];
    let mut positions = start.clone();
    wander(&mut positions, &map, &vec![0, 1, 2, 3, 1]);
    assert_eq!(
        positions,
        vec![Point::new(4, 5), Point::new(6, 5), Point::new(5, 4), Point::new(5, 6), Point::new(20, 20)]
    );
    let mut open = start.clone();
    random_move(&mut open, &map);
    for (before, after) in start.iter().zip(open.iter()).take(4) {
        assert_ne!(before, after);
    }
}

#[test]
fn combat_works_with_large_values() {
    let mut entities = vec![
        Combatant { id: 1, damage: Some(1_500_000), health: Some(Health { current: 10, max: 10 }), is_player: true },
        Combatant { id: 2, damage: None, health: Some(Health { current: 2_000_000_000, max: 2_000_000_000 }), is_player: false },
    ];
    let weapons = vec![Weapon { carrier: 1, damage: 500_000 }];
    let attacks = vec![AttackMessage { message: 9, attacker: 1, victim: 2 }];
    let removed = combat(&attacks, &mut entities, &weapons);
    assert_eq!(removed, vec![9]);
    assert_eq!(entities[1].health, Some(Health { current: 1_998_000_000, max: 2_000_000_000 }));
}

#[test]
fn healing_works_with_large_values() {
    let acts = vec![ActivationMessage { message: 20, used_by: 1, item: 30 }];
    let items = vec![Usable { id: 30, healing: Some(5_000), reveals_map: false }];
    let mut patients = vec![Patient { id: 1, health: Some(Health { current: 1_999_000_000, max: 2_000_000_000 }) }];
    let mut map = TileMap::new();
    use_items(&acts, &items, &mut patients, &mut map);
    assert_eq!(patients[0].health, Some(Health { current: 1_999_005_000, max: 2_000_000_000 }));
}

#[test]
fn each_chaser_moves_once_or_only_attacks() {
    let mut map = walled();
    for x in 0..20 {
        map.tiles[map_idx(x, 5)] = TileType::Floor;
    }
    let player = Point::new(2, 5);
    let d = corridor_distances(&map, 2);
    let targets = vec![
        Target { id: 1, pos: player, is_player: true },
        Target { id: 3, pos: player, is_player: true },
    ];
    let intents = chasing(&vec![Chaser { id: 8, pos: Point::new(3, 5) }], &targets, player, &map, &d);
    assert_eq!(
        intents,
        vec![
            Intent::Attack(WantsToAttack { attacker: 8, victim: 1 }),
            Intent::Attack(WantsToAttack { attacker: 8, victim: 3 }),
        ]
    );
}

#[test]
fn tooltip_text_names_the_health() {
    assert_eq!(tooltip_text(&"Orc".to_string(), Some(2)), "Orc: 2 hp");
    assert_eq!(tooltip_text(&"Goblin".to_string(), Some(-12)), "Goblin: -12 hp");
    assert_eq!(tooltip_text(&"Player".to_string(), Some(2147483647)), "Player: 2147483647 hp");
    assert_eq!(tooltip_text(&"Healing Potion".to_string(), None), "Healing Potion");
}
