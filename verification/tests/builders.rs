use std::collections::VecDeque;

use bracket_lib::random::RandomNumberGenerator;
use dungeoncrawl::classic_builder;
use dungeoncrawl::geometry::{Point, Rect};
use dungeoncrawl::map::{map_idx, TileMap, TileType, NUM_TILES, SCREEN_HEIGHT, SCREEN_WIDTH};
use dungeoncrawl::map_builder::automata::CellularAutomataArchitect;
use dungeoncrawl::map_builder::drunkard::{DrunkardsWalkArchitect, DESIRED_FLOOR};
use dungeoncrawl::map_builder::empty::EmptyArchitect;
use dungeoncrawl::map_builder::prefab::{apply_prefab, fits, fortress_char_at, FORTRESS_HEIGHT, FORTRESS_WIDTH};
use dungeoncrawl::map_builder::rooms::RoomsArchitect;
use dungeoncrawl::map_builder::themes::{DungeonTheme, ForestTheme, MapTheme};
use dungeoncrawl::pathing::MAX_DEPTH;
use dungeoncrawl::map_builder::{architect_for, take_pick, ArchitectKind, MapBuilder, NUM_MONSTERS, NUM_ROOMS};

/// Breadth-first distances over the map's exits, as the application's
/// Dijkstra search gives them on a graph of unit costs: the start is
/// queued at depth zero but not marked, so it is reached (at depth two)
/// only by a step back onto it, and nothing is marked at `MAX_DEPTH` or
/// beyond.
fn bfs(map: &TileMap, start: usize) -> Vec<Option<u32>> {
    let mut d: Vec<Option<u32>> = vec![None; NUM_TILES];
    let mut queue = VecDeque::new();
    queue.push_back((start, 0u32));
    while let Some((i, depth)) = queue.pop_front() {
        for e in map.available_exits(i) {
            let nd = depth + 1;
            if let Some(prev) = d[e] {
                if nd >= prev {
                    continue;
                }
            }
            if nd >= MAX_DEPTH {
                continue;
            }
            d[e] = Some(nd);
            queue.push_back((e, nd));
        }
    }
    d
}

fn sq(a: Point, b: Point) -> i32 {
    (a.x - b.x) * (a.x - b.x) + (a.y - b.y) * (a.y - b.y)
}

fn walled() -> MapBuilder {
    let mut mb = MapBuilder::empty();
    mb.fill(TileType::Wall);
    mb
}

fn floor_at(map: &TileMap, p: Point) -> bool {
    map.tiles[map_idx(p.x, p.y)] == TileType::Floor
}

/// The amulet lies on the farthest reached tile from the player's start.
fn amulet_is_farthest(mb: &MapBuilder) {
    let d = bfs(&mb.map, map_idx(mb.player_start.x, mb.player_start.y));
    let max = d.iter().filter_map(|v| *v).max().unwrap();
    assert_eq!(d[map_idx(mb.amulet_start.x, mb.amulet_start.y)], Some(max));
}

#[test]
fn empty_builder_is_all_floor() {
    let mb = MapBuilder::empty();
    assert!(mb.map.tiles.iter().all(|t| *t == TileType::Floor));
    assert!(mb.rooms.is_empty());
    assert!(mb.monster_spawns.is_empty());
    assert_eq!(mb.player_start, Point::zero());
}

#[test]
fn fill_sets_every_tile() {
    let mb = walled();
    assert!(mb.map.tiles.iter().all(|t| *t == TileType::Wall));
}

#[test]
fn horizontal_tunnel_digs_half_open_run() {
    let mut mb = walled();
    mb.create_horizontal_tunnel(5, 10, 3);
    for x in 3..10 {
        assert!(floor_at(&mb.map, Point::new(x, 5)));
    }
    assert!(!floor_at(&mb.map, Point::new(10, 5)));
    assert!(!floor_at(&mb.map, Point::new(2, 5)));
    assert_eq!(mb.map.count_floor(), 7);
    mb.create_horizontal_tunnel(0, -5, 2);
    assert!(floor_at(&mb.map, Point::new(0, 0)));
    assert!(floor_at(&mb.map, Point::new(1, 0)));
    assert_eq!(mb.map.count_floor(), 9);
}

#[test]
fn vertical_tunnel_skips_cells_off_the_map() {
    let mut mb = walled();
    mb.create_vertical_tunnel(2, 55, 47);
    assert!(floor_at(&mb.map, Point::new(2, 47)));
    assert!(floor_at(&mb.map, Point::new(2, 48)));
    assert!(floor_at(&mb.map, Point::new(2, 49)));
    assert!(!floor_at(&mb.map, Point::new(2, 46)));
    assert_eq!(mb.map.count_floor(), 3);
}

#[test]
fn random_rooms_are_disjoint_and_dug() {
    let mut rng = RandomNumberGenerator::seeded(7);
    let mut mb = walled();
    assert!(mb.build_random_rooms(&mut rng));
    assert_eq!(mb.rooms.len(), NUM_ROOMS);
    for (i, a) in mb.rooms.iter().enumerate() {
        for b in mb.rooms.iter().skip(i + 1) {
            assert!(!a.intersect(b));
        }
        assert!(a.x1 >= 1 && a.y1 >= 1 && a.x2 <= SCREEN_WIDTH && a.y2 <= SCREEN_HEIGHT);
        for y in a.y1..a.y2 {
            for x in a.x1..a.x2 {
                assert!(floor_at(&mb.map, Point::new(x, y)));
            }
        }
    }
}

#[test]
fn rooms_sort_by_center_column_keeping_ties_in_order() {
    let rooms = vec![
        Rect::with_size(29, 1, 2, 2),
        Rect::with_size(9, 5, 2, 2),
        Rect::with_size(29, 9, 2, 2),
        Rect::with_size(4, 20, 2, 2),
    ];
    let sorted = MapBuilder::rooms_by_center_x(&rooms);
    assert_eq!(sorted, vec![rooms[3], rooms[1], rooms[0], rooms[2]]);
}

#[test]
fn corridors_join_every_room() {
    let mut rng = RandomNumberGenerator::seeded(11);
    let mut mb = walled();
    mb.build_random_rooms(&mut rng);
    let before = mb.map.tiles.clone();
    mb.build_corridors(&mut rng);
    for (b, a) in before.iter().zip(mb.map.tiles.iter()) {
        assert!(*b == TileType::Floor || *a == *b || *a == TileType::Floor);
    }
    let first = mb.rooms[0].center();
    let d = bfs(&mb.map, map_idx(first.x, first.y));
    for r in mb.rooms.iter() {
        let c = r.center();
        assert!(d[map_idx(c.x, c.y)].is_some());
    }
}

#[test]
fn monsters_spawn_on_distinct_far_floor() {
    let mut rng = RandomNumberGenerator::seeded(3);
    let mut mb = walled();
    mb.build_random_rooms(&mut rng);
    mb.build_corridors(&mut rng);
    let start = mb.rooms[0].center();
    let spawns = mb.spawn_monsters(&start, &mut rng);
    assert_eq!(spawns.len(), NUM_MONSTERS + 1);
    for (i, p) in spawns.iter().enumerate() {
        assert!(floor_at(&mb.map, *p));
        assert!(sq(*p, start) > 100);
        assert!(!spawns[i + 1..].contains(p));
    }
}

#[test]
fn monsters_take_every_spot_when_few_exist() {
    let mut rng = RandomNumberGenerator::seeded(5);
    let mut mb = walled();
    let start = Point::new(1, 1);
    for p in [Point::new(1, 1), Point::new(5, 5), Point::new(70, 40), Point::new(40, 2)] {
        mb.map.tiles[map_idx(p.x, p.y)] = TileType::Floor;
    }
    let mut spawns = mb.spawn_monsters(&start, &mut rng);
    spawns.sort_by_key(|p| (p.x, p.y));
    assert_eq!(spawns, vec![Point::new(40, 2), Point::new(70, 40)]);
}

#[test]
fn amulet_goes_to_the_last_of_the_farthest_tiles() {
    let mut mb = walled();
    mb.create_horizontal_tunnel(5, 0, 21);
    mb.player_start = Point::new(10, 5);
    assert_eq!(mb.find_most_distant(&bfs), Some(Point::new(20, 5)));
    mb.amulet_start = Point::new(3, 3);
    mb.place_amulet(&bfs);
    assert_eq!(mb.amulet_start, Point::new(20, 5));
}

#[test]
fn rooms_architect_starts_in_the_first_room() {
    let mut rng = RandomNumberGenerator::seeded(21);
    let mut architect = RoomsArchitect {};
    let (mb, done) = architect.new(&mut rng, &bfs);
    assert!(done);
    assert_eq!(architect.who_am_i(), "RoomsArchitect");
    assert_eq!(mb.rooms.len(), NUM_ROOMS);
    assert_eq!(mb.player_start, mb.rooms[0].center());
    let centers: Vec<Point> = mb.rooms.iter().skip(1).map(|r| r.center()).collect();
    assert_eq!(mb.monster_spawns, centers);
    amulet_is_farthest(&mb);
}

#[test]
fn cave_architect_starts_on_floor() {
    let mut rng = RandomNumberGenerator::seeded(22);
    let mut architect = CellularAutomataArchitect {};
    let mb = architect.new(&mut rng, &bfs);
    assert_eq!(architect.who_am_i(), "CellularAutomataArchitect");
    assert!(floor_at(&mb.map, mb.player_start));
    assert!(mb.map.tiles.iter().all(|t| *t == TileType::Floor || *t == TileType::Wall));
    assert!(mb.monster_spawns.len() <= NUM_MONSTERS + 1);
    for p in mb.monster_spawns.iter() {
        assert!(floor_at(&mb.map, *p));
        assert!(sq(*p, mb.player_start) > 100);
    }
    amulet_is_farthest(&mb);
}

#[test]
fn cave_neighbors_and_smoothing() {
    let mut architect = CellularAutomataArchitect {};
    let mut map = TileMap::new();
    for p in [(4, 4), (5, 4), (6, 4), (4, 5)] {
        map.tiles[map_idx(p.0, p.1)] = TileType::Wall;
    }
    assert_eq!(architect.count_neighbors(5, 5, &map), 4);
    assert_eq!(architect.count_neighbors(20, 20, &map), 0);
    architect.iteration(&mut map);
    // A cell with no wall around becomes a wall; one with one to four
    // walls around becomes floor.
    assert_eq!(map.tiles[map_idx(20, 20)], TileType::Wall);
    assert_eq!(map.tiles[map_idx(5, 5)], TileType::Floor);
    assert_eq!(map.tiles[map_idx(4, 4)], TileType::Floor);
    // The border is never smoothed.
    assert_eq!(map.tiles[map_idx(0, 0)], TileType::Floor);
}

#[test]
fn cave_start_is_the_floor_nearest_the_center() {
    let mut architect = CellularAutomataArchitect {};
    let mut map = TileMap::new();
    for t in map.tiles.iter_mut() {
        *t = TileType::Wall;
    }
    assert_eq!(architect.find_start(&map), None);
    map.tiles[map_idx(10, 10)] = TileType::Floor;
    map.tiles[map_idx(43, 27)] = TileType::Floor;
    map.tiles[map_idx(37, 25)] = TileType::Floor;
    assert_eq!(architect.find_start(&map), Some(Point::new(37, 25)));
}

#[test]
fn drunkard_architect_digs_enough_floor() {
    let mut rng = RandomNumberGenerator::seeded(23);
    let mut architect = DrunkardsWalkArchitect {};
    let (mb, dug_enough) = architect.new(&mut rng, &bfs);
    assert!(dug_enough);
    assert_eq!(mb.map.tiles[map_idx(40, 25)], TileType::Floor);
    assert_eq!(mb.monster_spawns.len(), NUM_MONSTERS + 1);
    assert_eq!(architect.who_am_i(), "DrunkardsWalkArchitect");
    assert_eq!(mb.player_start, Point::new(SCREEN_WIDTH / 2, SCREEN_HEIGHT / 2));
    assert!(mb.map.count_floor() >= DESIRED_FLOOR);
    let d = bfs(&mb.map, map_idx(mb.player_start.x, mb.player_start.y));
    for (i, t) in mb.map.tiles.iter().enumerate() {
        if *t == TileType::Floor {
            assert!(d[i].is_some());
        }
    }
    amulet_is_farthest(&mb);
}

#[test]
fn drunkard_walks_in_unit_steps() {
    let mut rng = RandomNumberGenerator::seeded(24);
    let mut architect = DrunkardsWalkArchitect {};
    let mut map = TileMap::new();
    for t in map.tiles.iter_mut() {
        *t = TileType::Wall;
    }
    let start = Point::new(40, 25);
    architect.drunkard(&start, &mut rng, &mut map);
    assert!(floor_at(&map, start));
    let d = bfs(&map, map_idx(start.x, start.y));
    for (i, t) in map.tiles.iter().enumerate() {
        if *t == TileType::Floor {
            assert!(d[i].is_some());
        }
    }
}

#[test]
fn empty_architect_opens_the_whole_map() {
    let mut rng = RandomNumberGenerator::seeded(25);
    let mut architect = EmptyArchitect {};
    let mb = architect.new(&mut rng, &bfs);
    assert_eq!(architect.who_am_i(), "EmptyArchitect");
    assert!(mb.map.tiles.iter().all(|t| *t == TileType::Floor));
    assert_eq!(mb.player_start, Point::new(40, 25));
    assert_eq!(mb.amulet_start, Point::new(0, 0));
    assert_eq!(mb.monster_spawns.len(), 50);
    for p in mb.monster_spawns.iter() {
        assert!(p.x >= 1 && p.x < SCREEN_WIDTH && p.y >= 1 && p.y < SCREEN_HEIGHT);
    }
}

#[test]
fn fortress_rows_read_as_drawn() {
    let rows = [
        "------------",
        "---######---",
        "---#----#---",
        "---#-M--#---",
        "-###----###-",
        "--M------M--",
        "-###----###-",
        "---#----#---",
        "---#----#---",
        "---######---",
        "------------",
    ];
    assert_eq!(rows.len() as i32, FORTRESS_HEIGHT);
    for (r, row) in rows.iter().enumerate() {
        assert_eq!(row.len() as i32, FORTRESS_WIDTH);
        for (c, ch) in row.chars().enumerate() {
            assert_eq!(fortress_char_at(r as i32, c as i32), ch);
        }
    }
}

#[test]
fn prefab_stamps_the_fortress_away_from_the_player() {
    let mut placed = 0;
    for seed in 0..20u64 {
        let mut rng = RandomNumberGenerator::seeded(seed);
        let mut mb = MapBuilder::empty();
        mb.player_start = Point::new(0, 0);
        mb.amulet_start = Point::new(79, 49);
        mb.monster_spawns = vec![Point::new(0, 1)];
        let placement = apply_prefab(&mut mb, &mut rng, &bfs);
        assert_eq!(mb.player_start, Point::new(0, 0));
        assert_eq!(mb.amulet_start, Point::new(79, 49));
        let first_wall = mb.map.tiles.iter().position(|t| *t == TileType::Wall);
        match first_wall {
            None => {
                assert_eq!(placement, None);
                assert_eq!(mb.monster_spawns, vec![Point::new(0, 1)]);
            }
            Some(w) => {
                placed += 1;
                // The first wall of the vault is its row 1, column 3.
                let x0 = (w % 80) as i32 - 3;
                let y0 = (w / 80) as i32 - 1;
                assert_eq!(placement, Some(Point::new(x0, y0)));
                let inside = |p: Point| p.x >= x0 && p.x < x0 + FORTRESS_WIDTH && p.y >= y0 && p.y < y0 + FORTRESS_HEIGHT;
                let mut expected: Vec<Point> = vec![Point::new(0, 1)].into_iter().filter(|p| !inside(*p)).collect();
                for r in 0..FORTRESS_HEIGHT {
                    for c in 0..FORTRESS_WIDTH {
                        let ch = fortress_char_at(r, c);
                        let want = if ch == '#' { TileType::Wall } else { TileType::Floor };
                        assert_eq!(mb.map.tiles[map_idx(x0 + c, y0 + r)], want);
                        if ch == 'M' {
                            expected.push(Point::new(x0 + c, y0 + r));
                        }
                    }
                }
                assert_eq!(mb.monster_spawns, expected);
                assert_eq!(mb.map.tiles.iter().filter(|t| **t == TileType::Wall).count(), 32);
            }
        }
    }
    assert!(placed > 0);
}

#[test]
fn map_builder_new_lays_out_a_level() {
    for seed in 0..6u64 {
        let mut rng = RandomNumberGenerator::seeded(seed);
        let (mb, name, _placement) = MapBuilder::new(&mut rng, &bfs);
        assert!(
            name == "DrunkardsWalkArchitect" || name == "RoomsArchitect" || name == "CellularAutomataArchitect"
        );
        assert_eq!(mb.map.tiles.len(), NUM_TILES);
        assert!(mb.map.revealed_tiles.iter().all(|r| !*r));
        assert!(mb.player_start.x >= 0 && mb.player_start.x < SCREEN_WIDTH);
        assert!(mb.amulet_start.y >= 0 && mb.amulet_start.y < SCREEN_HEIGHT);
        let theme = mb.theme.who_am_i();
        assert!(theme == "DungeonTheme" || theme == "ForestTheme");
    }
}

#[test]
fn classic_builder_places_the_amulet_farthest_away() {
    let mut rng = RandomNumberGenerator::seeded(31);
    let (mb, done) = classic_builder::MapBuilder::new(&mut rng, &bfs);
    assert!(done);
    assert_eq!(mb.rooms.len(), NUM_ROOMS);
    assert_eq!(mb.player_start, mb.rooms[0].center());
    let d = bfs(&mb.map, map_idx(mb.player_start.x, mb.player_start.y));
    let max = d.iter().filter_map(|v| *v).max().unwrap();
    assert_eq!(d[map_idx(mb.amulet_start.x, mb.amulet_start.y)], Some(max));
    let last = d.iter().rposition(|v| *v == Some(max)).unwrap();
    assert_eq!(map_idx(mb.amulet_start.x, mb.amulet_start.y), last);
}

#[test]
fn themes_draw_their_tiles() {
    let dungeon = DungeonTheme::new();
    let forest = ForestTheme::new();
    assert_eq!(dungeon.tile_to_render(TileType::Floor), 46);
    assert_eq!(dungeon.tile_to_render(TileType::Wall), 35);
    assert_eq!(dungeon.tile_to_render(TileType::Exit), 62);
    assert_eq!(forest.tile_to_render(TileType::Floor), 59);
    assert_eq!(forest.tile_to_render(TileType::Wall), 34);
    assert_eq!(forest.tile_to_render(TileType::Exit), 62);
    assert_eq!(dungeon.who_am_i(), "DungeonTheme");
    assert_eq!(forest.who_am_i(), "ForestTheme");
    assert_eq!(DungeonTheme {}.glyph(TileType::Wall), 35);
    assert_eq!(ForestTheme {}.glyph(TileType::Floor), 59);
}


#[test]
fn a_room_is_kept_only_apart_from_the_others() {
    let mut mb = walled();
    assert!(mb.try_room(Rect::with_size(2, 2, 3, 3)));
    assert_eq!(mb.rooms, vec![Rect::with_size(2, 2, 3, 3)]);
    assert_eq!(mb.map.count_floor(), 9);
    // Touching the first room's far edge counts as overlapping.
    assert!(!mb.try_room(Rect::with_size(5, 2, 3, 3)));
    assert_eq!(mb.rooms.len(), 1);
    assert_eq!(mb.map.count_floor(), 9);
    assert!(mb.try_room(Rect::with_size(6, 2, 3, 3)));
    assert_eq!(mb.rooms.len(), 2);
    assert_eq!(mb.map.count_floor(), 18);
}

#[test]
fn drawn_rooms_stay_inside_the_draw_ranges() {
    let mut rng = RandomNumberGenerator::seeded(41);
    let mut mb = walled();
    assert!(mb.build_random_rooms(&mut rng));
    for r in mb.rooms.iter() {
        assert!(r.x1 >= 1 && r.x1 < 70 && r.y1 >= 1 && r.y1 < 40);
        assert!(r.x2 - r.x1 >= 2 && r.x2 - r.x1 < 10 && r.y2 - r.y1 >= 2 && r.y2 - r.y1 < 10);
    }
}

#[test]
fn rooms_layout_leaves_the_edge_walled() {
    for seed in 0..5u64 {
        let mut rng = RandomNumberGenerator::seeded(seed);
        let (mb, _) = RoomsArchitect {}.new(&mut rng, &bfs);
        for x in 0..SCREEN_WIDTH {
            assert_eq!(mb.map.tiles[map_idx(x, 0)], TileType::Wall);
            assert_eq!(mb.map.tiles[map_idx(x, SCREEN_HEIGHT - 1)], TileType::Wall);
        }
        for y in 0..SCREEN_HEIGHT {
            assert_eq!(mb.map.tiles[map_idx(0, y)], TileType::Wall);
            assert_eq!(mb.map.tiles[map_idx(SCREEN_WIDTH - 1, y)], TileType::Wall);
        }
    }
}

#[test]
fn the_vault_fits_where_a_cell_is_at_middle_distance() {
    let mut d: Vec<Option<u32>> = vec![None; NUM_TILES];
    assert!(!fits(&d, 0, 0, Point::new(79, 49)));
    d[map_idx(11, 10)] = Some(21);
    assert!(fits(&d, 0, 0, Point::new(79, 49)));
    assert!(!fits(&d, 0, 0, Point::new(11, 10)));
    assert!(!fits(&d, 12, 0, Point::new(79, 49)));
    d[map_idx(11, 10)] = Some(20);
    assert!(!fits(&d, 0, 0, Point::new(79, 49)));
    d[map_idx(11, 10)] = Some(1999);
    assert!(fits(&d, 0, 0, Point::new(79, 49)));
}

#[test]
fn the_vault_is_placed_on_the_first_draw_where_it_fits_everywhere() {
    // Distances of 100 everywhere: every corner fits.
    let everywhere = |_m: &TileMap, _s: usize| -> Vec<Option<u32>> { vec![Some(100); NUM_TILES] };
    for seed in 0..5u64 {
        let mut rng = RandomNumberGenerator::seeded(seed);
        let mut mb = MapBuilder::empty();
        let placed = apply_prefab(&mut mb, &mut rng, &everywhere);
        assert!(placed.is_some());
    }
}

#[test]
fn architects_by_draw() {
    assert_eq!(architect_for(0), ArchitectKind::DrunkardsWalk);
    assert_eq!(architect_for(1), ArchitectKind::Rooms);
    assert_eq!(architect_for(2), ArchitectKind::CellularAutomata);
}

#[test]
fn picks_come_out_of_the_pool() {
    let mut pool = vec![Point::new(1, 1), Point::new(2, 2), Point::new(3, 3)];
    assert_eq!(take_pick(&mut pool, 1), Point::new(2, 2));
    assert_eq!(pool, vec![Point::new(1, 1), Point::new(3, 3)]);
    assert_eq!(take_pick(&mut pool, 1), Point::new(3, 3));
    assert_eq!(pool, vec![Point::new(1, 1)]);
}

#[test]
fn noise_is_walls_and_floors() {
    let mut rng = RandomNumberGenerator::seeded(51);
    let mut map = TileMap::new();
    CellularAutomataArchitect {}.random_noise_map(&mut rng, &mut map);
    let walls = map.tiles.iter().filter(|t| **t == TileType::Wall).count();
    assert!(walls > 1800 && walls < 2600);
    assert_eq!(walls + map.count_floor(), NUM_TILES);
}

#[test]
fn corridors_follow_the_stable_order() {
    let mut rng = RandomNumberGenerator::seeded(61);
    let mut mb = walled();
    // Two rooms with the same center column: the first one comes first.
    mb.try_room(Rect::with_size(10, 2, 3, 3));
    mb.try_room(Rect::with_size(10, 30, 3, 3));
    mb.try_room(Rect::with_size(2, 15, 3, 3));
    mb.build_corridors(&mut rng);
    let d = bfs(&mb.map, map_idx(3, 16));
    assert!(d[map_idx(11, 3)].is_some());
    assert!(d[map_idx(11, 31)].is_some());
}

#[test]
fn a_full_room_list_is_left_alone() {
    let mut rng = RandomNumberGenerator::seeded(31);
    let mut mb = walled();
    mb.rooms = (0..NUM_ROOMS as i32).map(|k| Rect::with_size(k * 3, 0, 2, 2)).collect();
    mb.rooms.push(Rect::with_size(70, 40, 3, 3));
    let rooms_before = mb.rooms.clone();
    let tiles_before = mb.map.tiles.clone();
    assert!(mb.build_random_rooms(&mut rng));
    assert_eq!(mb.rooms, rooms_before);
    assert_eq!(mb.map.tiles, tiles_before);
}

#[test]
fn the_vault_keeps_the_theme() {
    for seed in 0..10u64 {
        let mut rng = RandomNumberGenerator::seeded(seed);
        let mut mb = MapBuilder::empty();
        mb.theme = ForestTheme::new();
        mb.player_start = Point::new(0, 0);
        apply_prefab(&mut mb, &mut rng, &bfs);
        assert_eq!(mb.theme.who_am_i(), "ForestTheme");
    }
}

#[test]
fn consecutive_room_centers_are_joined_by_floor() {
    let mut rng = RandomNumberGenerator::seeded(12);
    let mut mb = walled();
    mb.build_random_rooms(&mut rng);
    mb.build_corridors(&mut rng);
    let order = MapBuilder::rooms_by_center_x(&mb.rooms);
    for pair in order.windows(2) {
        let a = pair[0].center();
        let b = pair[1].center();
        assert!(a.x <= b.x);
        // The corridor is an L of floor cells: along a row then a column,
        // or along a column then a row.
        let row_then_col = (a.x..=b.x).all(|x| floor_at(&mb.map, Point::new(x, a.y)))
            && (a.y.min(b.y)..=a.y.max(b.y)).all(|y| floor_at(&mb.map, Point::new(b.x, y)));
        let col_then_row = (a.y.min(b.y)..=a.y.max(b.y)).all(|y| floor_at(&mb.map, Point::new(a.x, y)))
            && (a.x..=b.x).all(|x| floor_at(&mb.map, Point::new(x, b.y)));
        assert!(row_then_col || col_then_row);
    }
}
