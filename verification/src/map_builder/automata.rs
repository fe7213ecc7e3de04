use vstd::prelude::*;
use crate::geometry::{Point, dist_sq, distance_sq};
use crate::map::{on_map, TileMap, TileType, map_idx, spec_idx, spec_point_of, lemma_point_idx, lemma_idx_point, NUM_TILES, SCREEN_WIDTH, SCREEN_HEIGHT};
use crate::random::rng_range;
use crate::map_builder::{MapBuilder, amulet_rule, spawnable, spawnable_count, NUM_MONSTERS};
use crate::pathing::{DistanceField, pathing_ok};
use bracket_lib::random::RandomNumberGenerator;

verus! {

/// Builds caves by cellular automata: random noise smoothed a number of times.
pub struct CellularAutomataArchitect {}

/// Percent chance that a tile of the initial noise is a wall.
pub const WALL_PERCENT: i32 = 55;

/// Number of smoothing passes over the noise.
pub const SMOOTHING_PASSES: usize = 10;

/// One if the tile at `(x, y)` is a wall, else zero.
pub open spec fn wall_at(tiles: Seq<TileType>, x: int, y: int) -> int {
    if tiles[spec_idx(x, y)] == TileType::Wall { 1 } else { 0 }
}

/// Number of walls among the eight cells around `(x, y)`.
pub open spec fn wall_neighbors(tiles: Seq<TileType>, x: int, y: int) -> int {
    wall_at(tiles, x - 1, y - 1) + wall_at(tiles, x - 1, y) + wall_at(tiles, x - 1, y + 1)
        + wall_at(tiles, x, y - 1) + wall_at(tiles, x, y + 1)
        + wall_at(tiles, x + 1, y - 1) + wall_at(tiles, x + 1, y) + wall_at(tiles, x + 1, y + 1)
}

/// Each of the eight cells around an interior cell counts once: a wall
/// there adds exactly one to the count, against any other tile there.
pub proof fn lemma_each_neighbor_counts_once(tiles: Seq<TileType>, x: int, y: int, dx: int, dy: int, t: TileType)
    requires
        tiles.len() == NUM_TILES,
        1 <= x < SCREEN_WIDTH - 1,
        1 <= y < SCREEN_HEIGHT - 1,
        -1 <= dx <= 1,
        -1 <= dy <= 1,
        dx != 0 || dy != 0,
        t != TileType::Wall,
    ensures
        wall_neighbors(tiles.update(spec_idx(x + dx, y + dy), TileType::Wall), x, y)
            == wall_neighbors(tiles.update(spec_idx(x + dx, y + dy), t), x, y) + 1,
{
}

/// The count looks at nothing but the eight cells around: changing any
/// other tile, the cell itself included, leaves it as it was.
pub proof fn lemma_other_cells_do_not_count(tiles: Seq<TileType>, x: int, y: int, j: int, t: TileType)
    requires
        tiles.len() == NUM_TILES,
        1 <= x < SCREEN_WIDTH - 1,
        1 <= y < SCREEN_HEIGHT - 1,
        0 <= j < NUM_TILES,
        forall|dx: int, dy: int| -1 <= dx <= 1 && -1 <= dy <= 1 && (dx != 0 || dy != 0)
            ==> j != #[trigger] spec_idx(x + dx, y + dy),
    ensures
        wall_neighbors(tiles.update(j, t), x, y) == wall_neighbors(tiles, x, y),
{
    let m: int = -1;
    let z: int = 0;
    let o: int = 1;
    assert(j != spec_idx(x + m, y + m) && j != spec_idx(x + m, y + z) && j != spec_idx(x + m, y + o));
    assert(j != spec_idx(x + z, y + m) && j != spec_idx(x + z, y + o));
    assert(j != spec_idx(x + o, y + m) && j != spec_idx(x + o, y + z) && j != spec_idx(x + o, y + o));
}

/// With no wall anywhere the count is zero; with walls everywhere, eight.
pub proof fn lemma_neighbor_count_extremes(tiles: Seq<TileType>, x: int, y: int)
    requires
        tiles.len() == NUM_TILES,
        1 <= x < SCREEN_WIDTH - 1,
        1 <= y < SCREEN_HEIGHT - 1,
    ensures
        (forall|i: int| 0 <= i < NUM_TILES ==> #[trigger] tiles[i] != TileType::Wall) ==> wall_neighbors(tiles, x, y) == 0,
        (forall|i: int| 0 <= i < NUM_TILES ==> #[trigger] tiles[i] == TileType::Wall) ==> wall_neighbors(tiles, x, y) == 8,
{
}

/// A cell off the map's one-cell border.
pub open spec fn interior(p: Point) -> bool {
    1 <= p.x < SCREEN_WIDTH - 1 && 1 <= p.y < SCREEN_HEIGHT - 1
}

/// The tile after one smoothing pass: an interior cell becomes wall when it
/// has no wall around it or more than four, floor otherwise; the border
/// stays as it was.
pub open spec fn smoothed(tiles: Seq<TileType>, i: int) -> TileType {
    let p = spec_point_of(i);
    if interior(p) {
        let n = wall_neighbors(tiles, p.x as int, p.y as int);
        if n == 0 || n > 4 { TileType::Wall } else { TileType::Floor }
    } else {
        tiles[i]
    }
}

/// Every tile is wall or floor.
pub open spec fn walls_and_floors(tiles: Seq<TileType>) -> bool {
    forall|i: int| 0 <= i < tiles.len() ==> #[trigger] tiles[i] == TileType::Wall || tiles[i] == TileType::Floor
}

/// The tile of a noise draw from `0..100`: a wall below `WALL_PERCENT`,
/// floor otherwise.
pub open spec fn noise_tile(draw: i32) -> TileType {
    if draw < WALL_PERCENT { TileType::Wall } else { TileType::Floor }
}

/// The tiles are the noise of one draw from `0..100` each.
pub open spec fn noise_of(draws: Seq<i32>, tiles: Seq<TileType>) -> bool {
    &&& draws.len() == tiles.len()
    &&& forall|i: int| 0 <= i < draws.len() ==> 0 <= #[trigger] draws[i] < 100
    &&& forall|i: int| 0 <= i < tiles.len() ==> #[trigger] tiles[i] == noise_tile(draws[i])
}

/// The map's center cell, where the caves' search for a start is aimed.
pub open spec fn map_center() -> Point {
    Point { x: 40i32, y: 25i32 }
}

/// Tile `i` is floor, no floor tile is nearer the center, and no earlier
/// floor tile is as near.
pub open spec fn is_closest_floor(tiles: Seq<TileType>, i: int) -> bool {
    &&& 0 <= i < tiles.len()
    &&& tiles[i] == TileType::Floor
    &&& forall|j: int| 0 <= j < tiles.len() && #[trigger] tiles[j] == TileType::Floor ==>
            dist_sq(spec_point_of(j), map_center()) >= dist_sq(spec_point_of(i), map_center())
    &&& forall|j: int| 0 <= j < i && #[trigger] tiles[j] == TileType::Floor ==>
            dist_sq(spec_point_of(j), map_center()) > dist_sq(spec_point_of(i), map_center())
}

/// Some tile is floor.
pub open spec fn has_floor(tiles: Seq<TileType>) -> bool {
    exists|j: int| 0 <= j < tiles.len() && #[trigger] tiles[j] == TileType::Floor
}

/// `n` smoothing passes over the tiles.
pub open spec fn smoothed_times(tiles: Seq<TileType>, n: nat) -> Seq<TileType>
    decreases n,
{
    if n == 0 {
        tiles
    } else {
        let prev = smoothed_times(tiles, (n - 1) as nat);
        Seq::new(NUM_TILES as nat, |i: int| smoothed(prev, i))
    }
}

/// Where the player starts in the caves: the floor tile nearest the center,
/// or the map's corner if there is no floor.
pub open spec fn cave_start(tiles: Seq<TileType>, start: Point) -> bool {
    if has_floor(tiles) {
        exists|i: int| is_closest_floor(tiles, i) && start == spec_point_of(i)
    } else {
        start == Point::zero_spec()
    }
}

/// Smoothing never touches the map's border: a tile off the interior keeps
/// its type through any number of passes.
pub proof fn lemma_border_kept(tiles: Seq<TileType>, n: nat, i: int)
    requires
        tiles.len() == NUM_TILES,
        0 <= i < NUM_TILES,
        !interior(spec_point_of(i)),
    ensures
        smoothed_times(tiles, n)[i] == tiles[i],
    decreases n,
{
    if n > 0 {
        lemma_border_kept(tiles, (n - 1) as nat, i);
    }
}

fn wall_count_at(map: &TileMap, x: i32, y: i32) -> (n: usize)
    requires
        map.wf(),
        0 <= x < SCREEN_WIDTH,
        0 <= y < SCREEN_HEIGHT,
    ensures
        n == wall_at(map.tiles@, x as int, y as int),
{
    if map.tiles[map_idx(x, y)] == TileType::Wall { 1 } else { 0 }
}

/// The caves that `CellularAutomataArchitect::new` lays out.
pub open spec fn caves_layout<F: Fn(&TileMap, usize) -> DistanceField>(pathing: &F, mb: &MapBuilder) -> bool {
    &&& mb.wf()
    &&& crate::map_builder::themed_by(mb, 0)
    &&& exists|draws: Seq<i32>, noise: Seq<TileType>| #[trigger] noise_of(draws, noise) && walls_and_floors(noise)
        && noise.len() == NUM_TILES && mb.map.tiles@ == smoothed_times(noise, SMOOTHING_PASSES as nat)
    &&& walls_and_floors(mb.map.tiles@)
    &&& forall|i: int| 0 <= i < NUM_TILES ==> !(#[trigger] mb.map.revealed_tiles@[i])
    &&& cave_start(mb.map.tiles@, mb.player_start)
    &&& mb.rooms@.len() == 0
    &&& mb.monster_spawns@.len() == if spawnable_count(&mb.map, mb.player_start) < NUM_MONSTERS + 1 {
        spawnable_count(&mb.map, mb.player_start)
    } else {
        (NUM_MONSTERS + 1) as nat
    }
    &&& mb.monster_spawns@.no_duplicates()
    &&& forall|k: int| 0 <= k < mb.monster_spawns@.len() ==> spawnable(&mb.map, mb.player_start, #[trigger] mb.monster_spawns@[k])
    &&& amulet_rule(pathing, &mb.map, mb.player_start, Point::zero_spec(), mb.amulet_start)
    &&& on_map(mb.player_start)
    &&& on_map(mb.amulet_start)
}

impl CellularAutomataArchitect {
    /// Makes each tile a wall with chance `WALL_PERCENT` in a hundred, and
    /// floor otherwise: a draw from `0..100` per tile, a wall below
    /// `WALL_PERCENT`.
    pub fn random_noise_map(&mut self, random: &mut RandomNumberGenerator, map: &mut TileMap)
        requires
            old(map).wf(),
        ensures
            final(map).wf(),
            walls_and_floors(final(map).tiles@),
            final(map).revealed_tiles == old(map).revealed_tiles,
            exists|draws: Seq<i32>| #[trigger] noise_of(draws, final(map).tiles@),
    {
        let ghost mut draws: Seq<i32> = Seq::empty();
        let mut i: usize = 0;
        while i < map.tiles.len()
            invariant
                map.wf(),
                i <= NUM_TILES,
                draws.len() == i,
                map.revealed_tiles == old(map).revealed_tiles,
                forall|j: int| 0 <= j < i ==> #[trigger] map.tiles@[j] == TileType::Wall || map.tiles@[j] == TileType::Floor,
                forall|j: int| 0 <= j < i ==> 0 <= #[trigger] draws[j] < 100,
                forall|j: int| 0 <= j < i ==> #[trigger] map.tiles@[j] == noise_tile(draws[j]),
            decreases NUM_TILES - i,
        {
            let roll = rng_range(random, 0, 100);
            if 0 <= roll && roll < WALL_PERCENT {
                map.tiles.set(i, TileType::Wall);
            } else {
                map.tiles.set(i, TileType::Floor);
            }
            proof { draws = draws.push(roll); }
            i = i + 1;
        }
        assert(noise_of(draws, map.tiles@));
    }

    /// Number of walls among the eight cells around an interior cell.
    pub fn count_neighbors(&mut self, x: i32, y: i32, map: &TileMap) -> (n: usize)
        requires
            map.wf(),
            interior(Point { x, y }),
        ensures
            n == wall_neighbors(map.tiles@, x as int, y as int),
            n <= 8,
    {
        wall_count_at(map, x - 1, y - 1) + wall_count_at(map, x - 1, y) + wall_count_at(map, x - 1, y + 1)
            + wall_count_at(map, x, y - 1) + wall_count_at(map, x, y + 1)
            + wall_count_at(map, x + 1, y - 1) + wall_count_at(map, x + 1, y) + wall_count_at(map, x + 1, y + 1)
    }

    /// One smoothing pass, every interior cell judged on the map as it was
    /// before the pass.
    pub fn iteration(&mut self, map: &mut TileMap)
        requires
            old(map).wf(),
        ensures
            final(map).wf(),
            forall|i: int| 0 <= i < NUM_TILES ==> #[trigger] final(map).tiles@[i] == smoothed(old(map).tiles@, i),
            final(map).revealed_tiles == old(map).revealed_tiles,
    {
        let mut tiles: Vec<TileType> = Vec::new();
        let mut k: usize = 0;
        while k < map.tiles.len()
            invariant
                map.wf(),
                map == old(map),
                k <= NUM_TILES,
                tiles@ == map.tiles@.subrange(0, k as int),
            decreases NUM_TILES - k,
        {
            tiles.push(map.tiles[k]);
            k = k + 1;
        }
        assert(tiles@ =~= map.tiles@);
        let mut x: i32 = 1;
        while x < SCREEN_WIDTH - 1
            invariant
                map.wf(),
                map == old(map),
                1 <= x <= SCREEN_WIDTH - 1,
                tiles@.len() == NUM_TILES,
                forall|i: int| 0 <= i < NUM_TILES ==> #[trigger] tiles@[i] == (
                    if interior(spec_point_of(i)) && spec_point_of(i).x < x { smoothed(map.tiles@, i) } else { map.tiles@[i] }),
            decreases SCREEN_WIDTH - x,
        {
            let mut y: i32 = 1;
            while y < SCREEN_HEIGHT - 1
                invariant
                    map.wf(),
                    map == old(map),
                    1 <= x < SCREEN_WIDTH - 1,
                    1 <= y <= SCREEN_HEIGHT - 1,
                    tiles@.len() == NUM_TILES,
                    forall|i: int| 0 <= i < NUM_TILES ==> #[trigger] tiles@[i] == (
                        if interior(spec_point_of(i)) && (spec_point_of(i).x < x || (spec_point_of(i).x == x && spec_point_of(i).y < y)) {
                            smoothed(map.tiles@, i)
                        } else {
                            map.tiles@[i]
                        }),
                decreases SCREEN_HEIGHT - y,
            {
                let neighbors = self.count_neighbors(x, y, map);
                let idx = map_idx(x, y);
                proof { lemma_idx_point(Point { x, y }); }
                if neighbors == 0 || neighbors > 4 {
                    tiles.set(idx, TileType::Wall);
                } else {
                    tiles.set(idx, TileType::Floor);
                }
                proof {
                    assert forall|i: int| 0 <= i < NUM_TILES implies #[trigger] tiles@[i] == (
                        if interior(spec_point_of(i)) && (spec_point_of(i).x < x || (spec_point_of(i).x == x && spec_point_of(i).y < y + 1)) {
                            smoothed(map.tiles@, i)
                        } else {
                            map.tiles@[i]
                        }) by {
                        lemma_point_idx(i);
                    }
                }
                y = y + 1;
            }
            x = x + 1;
        }
        map.tiles = tiles;
    }

    /// The floor tile nearest the map's center, the first in row-major order
    /// among equally near ones; `None` when there is no floor.
    pub fn find_start(&mut self, map: &TileMap) -> (r: Option<Point>)
        requires
            map.wf(),
        ensures
            r is None <==> !has_floor(map.tiles@),
            r matches Some(p) ==> exists|i: int| is_closest_floor(map.tiles@, i) && p == spec_point_of(i),
    {
        let center = Point::new(SCREEN_WIDTH / 2, SCREEN_HEIGHT / 2);
        let mut best: Option<usize> = None;
        let mut best_d: i64 = 0;
        let mut i: usize = 0;
        while i < map.tiles.len()
            invariant
                map.wf(),
                center == map_center(),
                i <= NUM_TILES,
                best is None <==> !has_floor(map.tiles@.subrange(0, i as int)),
                best matches Some(b) ==> b < i && is_closest_floor(map.tiles@.subrange(0, i as int), b as int)
                    && best_d == dist_sq(spec_point_of(b as int), map_center()),
            decreases NUM_TILES - i,
        {
            let ghost prev = map.tiles@.subrange(0, i as int);
            let ghost next = map.tiles@.subrange(0, i + 1);
            proof { lemma_point_idx(i as int); }
            if map.tiles[i] == TileType::Floor {
                let p = map.index_to_point2d(i);
                let d = distance_sq(p, center);
                if best.is_none() || d < best_d {
                    best = Some(i);
                    best_d = d;
                }
            }
            proof {
                assert forall|j: int| 0 <= j < i implies next[j] == prev[j] by {}
                if has_floor(prev) {
                    let j = choose|j: int| 0 <= j < prev.len() && #[trigger] prev[j] == TileType::Floor;
                    assert(next[j] == TileType::Floor);
                }
                if map.tiles@[i as int] == TileType::Floor {
                    assert(next[i as int] == TileType::Floor);
                }
                if has_floor(next) && map.tiles@[i as int] != TileType::Floor {
                    let j = choose|j: int| 0 <= j < next.len() && #[trigger] next[j] == TileType::Floor;
                    assert(prev[j] == TileType::Floor);
                }
            }
            i = i + 1;
        }
        assert(map.tiles@.subrange(0, NUM_TILES as int) =~= map.tiles@);
        match best {
            Some(b) => Some(map.index_to_point2d(b)),
            None => None,
        }
    }

    /// Lays out caves: random noise smoothed `SMOOTHING_PASSES` times; the
    /// player starts on the floor tile nearest the center, monsters on
    /// random floor tiles away from the player, the amulet on the tile
    /// farthest from the player. Where no tile is floor, the player starts
    /// at the map's corner.
    pub fn new<F: Fn(&TileMap, usize) -> DistanceField>(&mut self, random: &mut RandomNumberGenerator, pathing: &F) -> (mb: MapBuilder)
        requires
            pathing_ok(pathing),
        ensures
            caves_layout(pathing, &mb),
    {
        let mut mb = MapBuilder::empty();
        self.random_noise_map(random, &mut mb.map);
        let ghost noise = mb.map.tiles@;
        let mut pass: usize = 0;
        while pass < SMOOTHING_PASSES
            invariant
                mb.wf(),
                crate::map_builder::themed_by(&mb, 0),
                pass <= SMOOTHING_PASSES,
                walls_and_floors(noise),
                noise.len() == NUM_TILES,
                mb.map.tiles@ == smoothed_times(noise, pass as nat),
                walls_and_floors(mb.map.tiles@),
                forall|i: int| 0 <= i < NUM_TILES ==> !(#[trigger] mb.map.revealed_tiles@[i]),
                mb.rooms@.len() == 0,
                mb.monster_spawns@.len() == 0,
                mb.player_start == Point::zero_spec(),
                mb.amulet_start == Point::zero_spec(),
            decreases SMOOTHING_PASSES - pass,
        {
            let ghost before = mb.map.tiles@;
            self.iteration(&mut mb.map);
            proof {
                assert(mb.map.tiles@ =~= Seq::new(NUM_TILES as nat, |i: int| smoothed(before, i)));
                assert forall|i: int| 0 <= i < mb.map.tiles@.len() implies
                    #[trigger] mb.map.tiles@[i] == TileType::Wall || mb.map.tiles@[i] == TileType::Floor by {
                    assert(mb.map.tiles@[i] == smoothed(before, i));
                    assert(before[i] == TileType::Wall || before[i] == TileType::Floor);
                }
            }
            pass = pass + 1;
        }
        let start = match self.find_start(&mb.map) {
            Some(p) => p,
            None => Point::zero(),
        };
        proof {
            if has_floor(mb.map.tiles@) {
                let i = choose|i: int| is_closest_floor(mb.map.tiles@, i) && start == spec_point_of(i);
                lemma_point_idx(i);
            }
        }
        mb.player_start = start;
        mb.monster_spawns = mb.spawn_monsters(&start, random);
        mb.place_amulet(pathing);
        proof {
            crate::map_builder::lemma_amulet_on_map(pathing, &mb.map, mb.player_start, Point::zero_spec(), mb.amulet_start);
        }
        mb
    }

    pub fn who_am_i(&self) -> (name: String)
        ensures
            name@ == "CellularAutomataArchitect"@,
    {
        broadcast use vstd::string::group_string_axioms;
        "CellularAutomataArchitect".to_string()
    }
}

} // verus!
