use bracket_lib::random::RandomNumberGenerator;
use dungeoncrawl::components::{
    AmuletOfYala, ChasingPlayer, Enemy, FieldOfView, Health, Item, Name, Player, ProvidesDungeonMap,
    ProvidesHealing, Render,
};
use dungeoncrawl::geometry::Point;
use dungeoncrawl::level::{entities_to_remove, level_up, place_level_goal, refresh_sight, AMULET_LEVEL};
use dungeoncrawl::map::{map_idx, TileMap, TileType};
use dungeoncrawl::spawner::{
    entity_for_roll, monster_for_roll, SpawnKind, goblin, orc, spawn_amulet_of_yala, spawn_entity, spawn_healing_potion, spawn_magic_mapper, spawn_monster,
    spawn_player,
};
use dungeoncrawl::systems::hud::carried_by;
use dungeoncrawl::systems::Carried;
use dungeoncrawl::systems::end_turn::{end_turn, PlayerStatus};
use dungeoncrawl::turn_state::TurnState;
use legion::{IntoQuery, World};

fn white_on_black(r: &Render) -> bool {
    let c = r.color;
    c.fg.r == 1.0 && c.fg.g == 1.0 && c.fg.b == 1.0 && c.bg.r == 0.0 && c.bg.g == 0.0 && c.bg.b == 0.0
}

#[test]
fn field_of_view_starts_dirty_and_empty() {
    let f = FieldOfView::new(8);
    assert!(f.visible_tiles.is_empty());
    assert_eq!(f.radius, 8);
    assert!(f.is_dirty);
}

#[test]
fn goblins_and_orcs() {
    assert_eq!(goblin(), (1, "Goblin".to_string(), 103));
    assert_eq!(orc(), (2, "Orc".to_string(), 111));
}

#[test]
fn the_player_is_spawned_with_full_health() {
    let mut world = World::default();
    spawn_player(&mut world, Point::new(3, 4));
    assert_eq!(world.len(), 1);
    let mut q = <(&Player, &Point, &Render, &Health, &FieldOfView)>::query();
    let found: Vec<_> = q.iter(&world).collect();
    assert_eq!(found.len(), 1);
    let (player, pos, render, health, fov) = found[0];
    assert_eq!(player.map_level, 0);
    assert_eq!(*pos, Point::new(3, 4));
    assert_eq!(render.glyph, 64);
    assert!(white_on_black(render));
    assert_eq!(*health, Health { current: 10, max: 10 });
    assert_eq!(fov.radius, 8);
    assert!(fov.is_dirty);
}

#[test]
fn monsters_are_goblins_or_orcs() {
    let mut world = World::default();
    let mut rng = RandomNumberGenerator::seeded(9);
    for i in 0..40 {
        spawn_monster(&mut world, Point::new(i, 1), &mut rng);
    }
    assert_eq!(world.len(), 40);
    let mut q = <(&Enemy, &Point, &Render, &ChasingPlayer, &Health, &Name, &FieldOfView)>::query();
    let mut goblins = 0;
    for (_e, pos, render, _c, health, name, fov) in q.iter(&world) {
        assert_eq!(pos.y, 1);
        assert!(white_on_black(render));
        assert_eq!(fov.radius, 6);
        if name.0 == "Goblin" {
            goblins += 1;
            assert_eq!(*health, Health { current: 1, max: 1 });
            assert_eq!(render.glyph, 103);
        } else {
            assert_eq!(name.0, "Orc");
            assert_eq!(*health, Health { current: 2, max: 2 });
            assert_eq!(render.glyph, 111);
        }
    }
    assert!(goblins > 0 && goblins < 40);
}

#[test]
fn items_are_spawned_where_asked() {
    let mut world = World::default();
    spawn_amulet_of_yala(&mut world, Point::new(1, 2));
    spawn_healing_potion(&mut world, Point::new(3, 4));
    spawn_magic_mapper(&mut world, Point::new(5, 6));
    assert_eq!(world.len(), 3);
    let mut amulets = <(&Item, &AmuletOfYala, &Point, &Render, &Name)>::query();
    let a: Vec<_> = amulets.iter(&world).collect();
    assert_eq!(a.len(), 1);
    assert_eq!(*a[0].2, Point::new(1, 2));
    assert_eq!(a[0].3.glyph, 124);
    assert_eq!(a[0].4 .0, "Amulet of Yala");
    let mut potions = <(&Item, &Point, &Render, &Name, &ProvidesHealing)>::query();
    let p: Vec<_> = potions.iter(&world).collect();
    assert_eq!(p.len(), 1);
    assert_eq!(*p[0].1, Point::new(3, 4));
    assert_eq!(p[0].2.glyph, 33);
    assert_eq!(p[0].3 .0, "Healing Potion");
    assert_eq!(p[0].4.amount, 6);
    let mut maps = <(&Item, &Point, &Render, &Name, &ProvidesDungeonMap)>::query();
    let m: Vec<_> = maps.iter(&world).collect();
    assert_eq!(m.len(), 1);
    assert_eq!(*m[0].1, Point::new(5, 6));
    assert_eq!(m[0].2.glyph, 123);
    assert_eq!(m[0].3 .0, "Dungeon map");
}

#[test]
fn random_entities_are_one_of_the_three_kinds() {
    let mut world = World::default();
    let mut rng = RandomNumberGenerator::seeded(4);
    for i in 0..60 {
        spawn_entity(&mut world, Point::new(i, 7), &mut rng);
    }
    assert_eq!(world.len(), 60);
    let monsters = <&Enemy>::query().iter(&world).count();
    let potions = <&ProvidesHealing>::query().iter(&world).count();
    let maps = <&ProvidesDungeonMap>::query().iter(&world).count();
    assert_eq!(monsters + potions + maps, 60);
    assert!(monsters > potions && monsters > maps);
}

#[test]
fn pack_lists_only_the_players_items() {
    let carried = vec![
        Carried { item: 10, carrier: 1 },
        Carried { item: 11, carrier: 2 },
        Carried { item: 12, carrier: 1 },
    ];
    assert_eq!(carried_by(1, &carried), vec![10, 12]);
    assert_eq!(carried_by(3, &carried), Vec::<u64>::new());
}

#[test]
fn going_down_keeps_the_player_and_its_pack() {
    let all = vec![1, 5, 10, 11, 12, 7];
    let carried = vec![
        Carried { item: 10, carrier: 1 },
        Carried { item: 11, carrier: 2 },
        Carried { item: 12, carrier: 1 },
    ];
    assert_eq!(entities_to_remove(&all, 1, &carried), vec![5, 11, 7]);
    assert_eq!(entities_to_remove(&vec![1], 1, &carried), Vec::<u64>::new());
}

#[test]
fn level_goal_is_an_exit_or_the_amulet() {
    let mut world = World::default();
    let mut map = TileMap::new();
    place_level_goal(&mut world, &mut map, Point::new(6, 2), 0);
    assert_eq!(map.tiles[map_idx(6, 2)], TileType::Exit);
    assert_eq!(map.tiles.iter().filter(|t| **t == TileType::Exit).count(), 1);
    assert_eq!(world.len(), 0);

    let mut map2 = TileMap::new();
    place_level_goal(&mut world, &mut map2, Point::new(6, 2), AMULET_LEVEL);
    assert!(map2.tiles.iter().all(|t| *t == TileType::Floor));
    assert_eq!(world.len(), 1);
    let found: Vec<Point> = <(&AmuletOfYala, &Point)>::query().iter(&world).map(|(_, p)| *p).collect();
    assert_eq!(found, vec![Point::new(6, 2)]);
}

#[test]
fn reaching_the_goal_ends_the_level() {
    let mut world = World::default();
    let mut map = TileMap::new();
    let at = Point::new(6, 2);
    place_level_goal(&mut world, &mut map, at, 1);
    let on_goal = vec![PlayerStatus { health: Health { current: 0, max: 10 }, pos: at }];
    let mut ts = TurnState::PlayerTurn;
    end_turn(&mut ts, &on_goal, Some(at), &map);
    assert_eq!(ts, TurnState::NextLevel);

    let mut map2 = TileMap::new();
    place_level_goal(&mut world, &mut map2, at, AMULET_LEVEL);
    let amulet = <(&AmuletOfYala, &Point)>::query().iter(&world).map(|(_, p)| *p).next();
    let mut ts = TurnState::MonsterTurn;
    end_turn(&mut ts, &on_goal, amulet, &map2);
    assert_eq!(ts, TurnState::Victory);
}

#[test]
fn rolls_decide_what_spawns() {
    assert_eq!(entity_for_roll(1), SpawnKind::HealingPotion);
    assert_eq!(entity_for_roll(2), SpawnKind::MagicMapper);
    for roll in 3..=6 {
        assert_eq!(entity_for_roll(roll), SpawnKind::Monster);
    }
    for roll in 1..=8 {
        assert_eq!(monster_for_roll(roll), (1, "Goblin".to_string(), 103));
    }
    assert_eq!(monster_for_roll(9), (2, "Orc".to_string(), 111));
    assert_eq!(monster_for_roll(10), (2, "Orc".to_string(), 111));
}

#[test]
fn going_down_raises_the_level_and_moves_the_player() {
    let mut player = Player { map_level: 1 };
    let mut pos = Point::new(3, 3);
    assert_eq!(level_up(&mut player, &mut pos, Point::new(40, 25)), 2);
    assert_eq!(player.map_level, 2);
    assert_eq!(pos, Point::new(40, 25));
    let mut fov = FieldOfView::new(8);
    fov.is_dirty = false;
    fov.visible_tiles.push(Point::new(1, 1));
    refresh_sight(&mut fov);
    assert!(fov.is_dirty);
    assert_eq!(fov.visible_tiles, vec![Point::new(1, 1)]);
    assert_eq!(fov.radius, 8);
}
