use vstd::prelude::*;
use crate::geometry::Point;
use crate::map::{TileMap, TileType, on_map, spec_idx, spec_point_of, lemma_idx_point, lemma_point_idx, NUM_TILES, SCREEN_WIDTH, SCREEN_HEIGHT};
use crate::map_builder::{MapBuilder, amulet_rule, spawnable, spawnable_count, count_upto, NUM_MONSTERS};
use crate::map_builder::automata::walls_and_floors;
use crate::pathing::{DistanceField, pathing_ok, is_search_from, MAX_DEPTH};
use crate::random::rng_range;
use bracket_lib::random::RandomNumberGenerator;

verus! {

/// Builds caves by random walks from the center.
pub struct DrunkardsWalkArchitect {}

/// Steps after which a walker stops.
pub const STAGGER_DISTANCE: usize = 400;

/// Floor tiles wanted: a third of the map.
pub const DESIRED_FLOOR: usize = 1333;

/// `b` is one step from `a`, west, east, north or south.
pub open spec fn adjacent(a: Point, b: Point) -> bool {
    ||| a.x == b.x && (a.y - b.y == 1 || b.y - a.y == 1)
    ||| a.y == b.y && (a.x - b.x == 1 || b.x - a.x == 1)
}

/// A walk from `start`: on the map, each cell next to the one before, at
/// most `STAGGER_DISTANCE + 1` cells.
pub open spec fn is_walk(walk: Seq<Point>, start: Point) -> bool {
    &&& 1 <= walk.len() <= STAGGER_DISTANCE + 1
    &&& walk[0] == start
    &&& forall|k: int| 0 <= k < walk.len() ==> on_map(#[trigger] walk[k])
    &&& forall|k: int| 1 <= k < walk.len() ==> adjacent(walk[k - 1], #[trigger] walk[k])
}

/// Tile `i` is a cell of the walk.
pub open spec fn on_walk(walk: Seq<Point>, i: int) -> bool {
    exists|k: int| 0 <= k < walk.len() && i == spec_idx((#[trigger] walk[k]).x as int, walk[k].y as int)
}

/// The tiles that the walk dug are floor, the others as they were.
pub open spec fn walked(old_tiles: Seq<TileType>, new_tiles: Seq<TileType>, walk: Seq<Point>) -> bool {
    &&& new_tiles.len() == old_tiles.len()
    &&& forall|i: int| 0 <= i < new_tiles.len() ==>
            #[trigger] new_tiles[i] == (if on_walk(walk, i) { TileType::Floor } else { old_tiles[i] })
}

/// A cell whose four neighbors all lie on the map.
pub open spec fn inner(p: Point) -> bool {
    1 <= p.x < SCREEN_WIDTH - 1 && 1 <= p.y < SCREEN_HEIGHT - 1
}

/// A neighbor that can be entered is among a tile's exits.
proof fn lemma_neighbor_exit(map: TileMap, p: Point, q: Point)
    requires
        on_map(p),
        on_map(q),
        adjacent(p, q),
        map.spec_can_enter(q),
    ensures
        exists|k: int| 0 <= k < map.spec_exits(spec_idx(p.x as int, p.y as int)).len()
            && #[trigger] map.spec_exits(spec_idx(p.x as int, p.y as int))[k] == spec_idx(q.x as int, q.y as int) as usize,
{
    let pi = spec_idx(p.x as int, p.y as int);
    lemma_idx_point(p);
    lemma_idx_point(q);
    let pp = spec_point_of(pi);
    assert(pp == p);
    let w = TileMap::opt_seq(map.spec_valid_exit(pp, Point { x: -1i32, y: 0i32 }));
    let e = TileMap::opt_seq(map.spec_valid_exit(pp, Point { x: 1i32, y: 0i32 }));
    let n = TileMap::opt_seq(map.spec_valid_exit(pp, Point { x: 0i32, y: -1i32 }));
    let so = TileMap::opt_seq(map.spec_valid_exit(pp, Point { x: 0i32, y: 1i32 }));
    let ex = map.spec_exits(pi);
    assert(ex == w + e + n + so);
    let qi = spec_idx(q.x as int, q.y as int) as usize;
    if q.x == p.x - 1 {
        assert(w == seq![qi]);
        assert(ex[0] == qi);
    } else if q.x == p.x + 1 {
        assert(e == seq![qi]);
        assert(ex[w.len() as int] == qi);
    } else if q.y == p.y - 1 {
        assert(n == seq![qi]);
        assert(ex[(w.len() + e.len()) as int] == qi);
    } else {
        assert(so == seq![qi]);
        assert(ex[(w.len() + e.len() + n.len()) as int] == qi);
    }
}

/// A search from a floor tile with a floor neighbor reaches both.
proof fn lemma_center_reached(map: TileMap, c: Point, nb: Point, d: Seq<Option<u32>>)
    requires
        map.wf(),
        on_map(c),
        on_map(nb),
        adjacent(c, nb),
        map.tile_at(c) == TileType::Floor,
        map.tile_at(nb) == TileType::Floor,
        is_search_from(map, spec_idx(c.x as int, c.y as int) as usize, d),
    ensures
        d[spec_idx(c.x as int, c.y as int)] is Some,
        d[spec_idx(nb.x as int, nb.y as int)] is Some,
{
    lemma_idx_point(c);
    lemma_idx_point(nb);
    let ci = spec_idx(c.x as int, c.y as int);
    let ni = spec_idx(nb.x as int, nb.y as int);
    lemma_neighbor_exit(map, c, nb);
    let k = choose|k: int| 0 <= k < map.spec_exits(ci).len() && #[trigger] map.spec_exits(ci)[k] == ni as usize;
    assert(d[map.spec_exits(ci as usize as int)[k] as int] == Some(1u32));
    assert(d[ni] == Some(1u32));
    lemma_neighbor_exit(map, nb, c);
    let k2 = choose|k: int| 0 <= k < map.spec_exits(ni).len() && #[trigger] map.spec_exits(ni)[k] == ci as usize;
    assert(d[map.spec_exits(ni)[k2] as int] is Some);
}

/// A tile within ten columns and ten rows of the map's center (40, 25).
pub open spec fn near_center(i: int) -> bool {
    let p = spec_point_of(i);
    30 <= p.x <= 50 && 15 <= p.y <= 35
}

spec fn clamp21(v: int) -> int {
    if v < 0 { 0 } else if v > 21 { 21 } else { v }
}

/// Tiles before row `y`, column `x` that lie near the center.
proof fn lemma_near_count(y: int, x: int)
    requires
        0 <= y <= 50,
        0 <= x <= 80,
        y == 50 ==> x == 0,
    ensures
        count_upto(80 * y + x, |i: int| near_center(i))
            == 21 * clamp21(y - 15) + (if 15 <= y <= 35 { clamp21(x - 30) } else { 0 }),
    decreases 81 * y + x,
{
    let pred = |i: int| near_center(i);
    if x == 0 {
        if y > 0 {
            lemma_near_count(y - 1, 80);
            assert(80 * (y - 1) + 80 == 80 * y + 0);
        }
    } else {
        lemma_near_count(y, x - 1);
        let i = 80 * y + x - 1;
        assert(i % 80 == x - 1 && i / 80 == y) by (nonlinear_arith)
            requires i == 80 * y + x - 1, 0 <= x - 1 < 80, 0 <= y;
        assert(count_upto(i + 1, pred) == count_upto(i, pred) + (if pred(i) { 1nat } else { 0nat }));
    }
}

proof fn lemma_count_split_or(n: int, p: spec_fn(int) -> bool, q: spec_fn(int) -> bool, r: spec_fn(int) -> bool)
    requires
        forall|i: int| 0 <= i < n && #[trigger] p(i) ==> q(i) || r(i),
    ensures
        count_upto(n, p) <= count_upto(n, q) + count_upto(n, r),
    decreases n,
{
    if n > 0 {
        lemma_count_split_or(n - 1, p, q, r);
    }
}

proof fn lemma_floor_count_as_count(tiles: Seq<TileType>, n: int)
    requires
        0 <= n <= tiles.len(),
    ensures
        TileMap::floor_count_upto(tiles, n) == count_upto(n, |i: int| tiles[i] == TileType::Floor),
    decreases n,
{
    if n > 0 {
        lemma_floor_count_as_count(tiles, n - 1);
    }
}

/// A third of the map being floor leaves far more than `NUM_MONSTERS + 1`
/// cells where monsters may start around the center.
proof fn lemma_enough_spawnable(map: &TileMap)
    requires
        map.wf(),
        map.floor_count() >= DESIRED_FLOOR,
    ensures
        spawnable_count(map, Point { x: 40, y: 25 }) >= NUM_MONSTERS + 1,
{
    let center = Point { x: 40i32, y: 25i32 };
    let floor = |i: int| map.tiles@[i] == TileType::Floor;
    let sp = |i: int| spawnable(map, center, spec_point_of(i));
    let near = |i: int| near_center(i);
    assert forall|i: int| 0 <= i < NUM_TILES && #[trigger] floor(i) implies sp(i) || near(i) by {
        lemma_point_idx(i);
        let p = spec_point_of(i);
        if !near(i) {
            let dx = p.x - 40;
            let dy = p.y - 25;
            assert(dx * dx + dy * dy > 100) by (nonlinear_arith)
                requires dx > 10 || dx < -10 || dy > 10 || dy < -10;
        }
    }
    lemma_count_split_or(NUM_TILES as int, floor, sp, near);
    lemma_floor_count_as_count(map.tiles@, NUM_TILES as int);
    lemma_near_count(50, 0);
    assert(count_upto(4000, near) == 441);
}

/// Tiles `i` and `j` are next to each other: west, east, north or south.
pub open spec fn next_to(i: int, j: int) -> bool {
    adjacent(spec_point_of(i), spec_point_of(j))
}

/// Tile `i` is floor and is joined to tile `c` by a path of at most `n`
/// steps, each onto a floor tile next to the one before.
pub open spec fn floor_linked(tiles: Seq<TileType>, c: int, i: int, n: nat) -> bool
    decreases n,
{
    &&& 0 <= i < NUM_TILES
    &&& tiles[i] == TileType::Floor
    &&& (i == c || (n > 0 && exists|j: int| #[trigger] next_to(i, j) && floor_linked(tiles, c, j, (n - 1) as nat)))
}

/// Every floor tile is joined to `center` by a path of floor tiles of at
/// most `MAX_DEPTH` steps.
pub open spec fn connected_to(tiles: Seq<TileType>, center: Point) -> bool {
    forall|i: int| 0 <= i < NUM_TILES && #[trigger] tiles[i] == TileType::Floor
        ==> floor_linked(tiles, spec_idx(center.x as int, center.y as int), i, MAX_DEPTH as nat)
}

/// A longer allowance keeps a path.
proof fn lemma_linked_mono(tiles: Seq<TileType>, c: int, i: int, n: nat, m: nat)
    requires
        floor_linked(tiles, c, i, n),
        n <= m,
    ensures
        floor_linked(tiles, c, i, m),
    decreases n,
{
    if i != c {
        let j = choose|j: int| #[trigger] next_to(i, j) && floor_linked(tiles, c, j, (n - 1) as nat);
        lemma_linked_mono(tiles, c, j, (n - 1) as nat, (m - 1) as nat);
        assert(next_to(i, j) && floor_linked(tiles, c, j, (m - 1) as nat));
    }
}

/// Each exit of a tile is a tile next to it that can be entered.
pub proof fn lemma_exit_is_neighbor(map: TileMap, i: int, k: int)
    requires
        0 <= i < NUM_TILES,
        0 <= k < map.spec_exits(i).len(),
    ensures
        0 <= map.spec_exits(i)[k] < NUM_TILES,
        next_to(i, map.spec_exits(i)[k] as int),
        map.spec_can_enter(spec_point_of(map.spec_exits(i)[k] as int)),
{
    lemma_point_idx(i);
    let p = spec_point_of(i);
    let dw = Point { x: -1i32, y: 0i32 };
    let de = Point { x: 1i32, y: 0i32 };
    let dn = Point { x: 0i32, y: -1i32 };
    let ds = Point { x: 0i32, y: 1i32 };
    let w = TileMap::opt_seq(map.spec_valid_exit(p, dw));
    let e = TileMap::opt_seq(map.spec_valid_exit(p, de));
    let n = TileMap::opt_seq(map.spec_valid_exit(p, dn));
    let so = TileMap::opt_seq(map.spec_valid_exit(p, ds));
    let ex = map.spec_exits(i);
    assert(ex == w + e + n + so);
    let d = if k < w.len() {
        dw
    } else if k < w.len() + e.len() {
        de
    } else if k < w.len() + e.len() + n.len() {
        dn
    } else {
        ds
    };
    let dest = Point { x: (p.x + d.x) as i32, y: (p.y + d.y) as i32 };
    assert(map.spec_valid_exit(p, d) == Some(spec_idx(dest.x as int, dest.y as int) as usize));
    assert(ex[k] == spec_idx(dest.x as int, dest.y as int) as usize);
    lemma_idx_point(dest);
}

/// The cells of a walk from `c` through solid rock are joined to `c`.
proof fn lemma_walk_linked(tiles: Seq<TileType>, walk: Seq<Point>, c: Point, k: int)
    requires
        is_walk(walk, c),
        walked(Seq::new(NUM_TILES as nat, |i: int| TileType::Wall), tiles, walk),
        0 <= k < walk.len(),
    ensures
        floor_linked(tiles, spec_idx(c.x as int, c.y as int), spec_idx(walk[k].x as int, walk[k].y as int), k as nat),
    decreases k,
{
    let wk = walk[k];
    lemma_idx_point(wk);
    let ik = spec_idx(wk.x as int, wk.y as int);
    assert(on_walk(walk, ik));
    assert(tiles[ik] == TileType::Floor);
    if k > 0 {
        lemma_walk_linked(tiles, walk, c, k - 1);
        let prev = walk[k - 1];
        lemma_idx_point(prev);
        let ip = spec_idx(prev.x as int, prev.y as int);
        assert(adjacent(walk[k - 1], walk[k]));
        assert(next_to(ik, ip));
    }
}

/// After a walk from `c` through solid rock, the floor is joined to `c`.
proof fn lemma_walk_connected(tiles: Seq<TileType>, walk: Seq<Point>, c: Point)
    requires
        is_walk(walk, c),
        walked(Seq::new(NUM_TILES as nat, |i: int| TileType::Wall), tiles, walk),
    ensures
        connected_to(tiles, c),
{
    assert forall|i: int| 0 <= i < NUM_TILES && #[trigger] tiles[i] == TileType::Floor
        implies floor_linked(tiles, spec_idx(c.x as int, c.y as int), i, MAX_DEPTH as nat) by {
        assert(on_walk(walk, i));
        let k = choose|k: int| 0 <= k < walk.len() && i == spec_idx((#[trigger] walk[k]).x as int, walk[k].y as int);
        lemma_walk_linked(tiles, walk, c, k);
        lemma_linked_mono(tiles, spec_idx(c.x as int, c.y as int), i, k as nat, MAX_DEPTH as nat);
    }
}

/// Distances in which every reached tile is floor, those at one are next to
/// `c`, and each at a greater distance is next to one a step nearer.
pub open spec fn steps_back(tiles: Seq<TileType>, c: int, d: Seq<Option<u32>>) -> bool {
    &&& forall|j: int| 0 <= j < NUM_TILES && (#[trigger] d[j]) is Some ==> 1 <= d[j]->0 && tiles[j] == TileType::Floor
    &&& forall|j: int| 0 <= j < NUM_TILES && (#[trigger] d[j]) == Some(1u32) ==> next_to(j, c)
    &&& forall|j: int| 0 <= j < NUM_TILES && (#[trigger] d[j]) is Some && d[j]->0 > 1
            ==> exists|i: int| 0 <= i < NUM_TILES && #[trigger] next_to(j, i) && d[i] == Some((d[j]->0 - 1) as u32)
}

/// A tile reached at distance `v` is joined to `c` by `v` steps.
proof fn lemma_steps_linked(tiles: Seq<TileType>, c: int, d: Seq<Option<u32>>, j: int, v: nat)
    requires
        steps_back(tiles, c, d),
        0 <= c < NUM_TILES,
        tiles[c] == TileType::Floor,
        0 <= j < NUM_TILES,
        d[j] == Some(v as u32),
        v <= u32::MAX,
    ensures
        floor_linked(tiles, c, j, v),
    decreases v,
{
    if v == 1 {
        assert(next_to(j, c));
        assert(floor_linked(tiles, c, c, 0));
    } else {
        let i = choose|i: int| 0 <= i < NUM_TILES && #[trigger] next_to(j, i) && d[i] == Some((d[j]->0 - 1) as u32);
        lemma_steps_linked(tiles, c, d, i, (v - 1) as nat);
    }
}

/// A search from `c` on `dug`, with the unreached tiles of `dug` walled
/// in, steps back to `c` over the resulting map.
proof fn lemma_search_steps_back(dug: TileMap, tiles: Seq<TileType>, c: int, d: Seq<Option<u32>>)
    requires
        dug.wf(),
        walls_and_floors(dug.tiles@),
        0 <= c < NUM_TILES,
        is_search_from(dug, c as usize, d),
        tiles.len() == NUM_TILES,
        forall|i: int| 0 <= i < NUM_TILES ==> #[trigger] tiles[i] == (if d[i] is None { TileType::Wall } else { dug.tiles@[i] }),
    ensures
        steps_back(tiles, c, d),
{
    assert forall|j: int| 0 <= j < NUM_TILES && (#[trigger] d[j]) is Some implies 1 <= d[j]->0 && tiles[j] == TileType::Floor by {
        lemma_point_idx(j);
        if d[j]->0 == 1 {
            let k = choose|k: int| 0 <= k < dug.spec_exits(c as usize as int).len() && #[trigger] dug.spec_exits(c as usize as int)[k] as int == j;
            lemma_exit_is_neighbor(dug, c, k);
        } else {
            let (i, k) = choose|i: int, k: int| 0 <= i < NUM_TILES && 0 <= k < dug.spec_exits(i).len()
                && #[trigger] dug.spec_exits(i)[k] as int == j && d[i] == Some((d[j]->0 - 1) as u32);
            lemma_exit_is_neighbor(dug, i, k);
        }
        assert(dug.tiles@[j] == TileType::Floor);
    }
    assert forall|j: int| 0 <= j < NUM_TILES && (#[trigger] d[j]) == Some(1u32) implies next_to(j, c) by {
        let k = choose|k: int| 0 <= k < dug.spec_exits(c as usize as int).len() && #[trigger] dug.spec_exits(c as usize as int)[k] as int == j;
        lemma_exit_is_neighbor(dug, c, k);
    }
    assert forall|j: int| 0 <= j < NUM_TILES && (#[trigger] d[j]) is Some && d[j]->0 > 1
        implies exists|i: int| 0 <= i < NUM_TILES && #[trigger] next_to(j, i) && d[i] == Some((d[j]->0 - 1) as u32) by {
        let (i, k) = choose|i: int, k: int| 0 <= i < NUM_TILES && 0 <= k < dug.spec_exits(i).len()
            && #[trigger] dug.spec_exits(i)[k] as int == j && d[i] == Some((d[j]->0 - 1) as u32);
        lemma_exit_is_neighbor(dug, i, k);
        assert(next_to(j, i));
    }
}

/// The caves that `DrunkardsWalkArchitect::new` lays out.
pub open spec fn walked_layout<F: Fn(&TileMap, usize) -> DistanceField>(pathing: &F, mb: &MapBuilder) -> bool {
    &&& mb.wf()
    &&& crate::map_builder::themed_by(mb, 0)
    &&& walls_and_floors(mb.map.tiles@)
    &&& connected_to(mb.map.tiles@, mb.player_start)
    &&& mb.map.tile_at(mb.player_start) == TileType::Floor
    &&& forall|i: int| 0 <= i < NUM_TILES ==> !(#[trigger] mb.map.revealed_tiles@[i])
    &&& mb.rooms@.len() == 0
    &&& mb.player_start == (Point { x: 40, y: 25 })
    &&& mb.monster_spawns@.len() == if spawnable_count(&mb.map, mb.player_start) < NUM_MONSTERS + 1 {
        spawnable_count(&mb.map, mb.player_start)
    } else {
        (NUM_MONSTERS + 1) as nat
    }
    &&& mb.monster_spawns@.no_duplicates()
    &&& forall|k: int| 0 <= k < mb.monster_spawns@.len() ==> spawnable(&mb.map, mb.player_start, #[trigger] mb.monster_spawns@[k])
    &&& amulet_rule(pathing, &mb.map, mb.player_start, Point::zero_spec(), mb.amulet_start)
    &&& on_map(mb.player_start)
    &&& on_map(mb.amulet_start)
}

impl DrunkardsWalkArchitect {
    /// Walks at random from `start`, digging each cell it stands on, until
    /// it steps off the map or has taken more than `STAGGER_DISTANCE` steps.
    pub fn drunkard(&mut self, start: &Point, random: &mut RandomNumberGenerator, map: &mut TileMap)
        requires
            old(map).wf(),
            on_map(*start),
        ensures
            final(map).wf(),
            final(map).revealed_tiles == old(map).revealed_tiles,
            exists|walk: Seq<Point>| #[trigger] is_walk(walk, *start) && walked(old(map).tiles@, final(map).tiles@, walk)
                && (inner(*start) ==> walk.len() >= 2),
    {
        let mut pos = *start;
        let mut staggered: usize = 0;
        let ghost mut walk: Seq<Point> = Seq::empty();
        loop
            invariant_except_break
                on_map(pos),
                staggered <= STAGGER_DISTANCE,
                walk.len() == staggered,
                walk.len() == 0 ==> pos == *start,
                walk.len() > 0 ==> adjacent(walk.last(), pos),
            invariant
                map.wf(),
                map.revealed_tiles == old(map).revealed_tiles,
                walk.len() <= STAGGER_DISTANCE + 1,
                walk.len() > 0 ==> walk[0] == *start,
                forall|k: int| 0 <= k < walk.len() ==> on_map(#[trigger] walk[k]),
                forall|k: int| 1 <= k < walk.len() ==> adjacent(walk[k - 1], #[trigger] walk[k]),
                walked(old(map).tiles@, map.tiles@, walk),
            ensures
                is_walk(walk, *start),
                inner(*start) ==> walk.len() >= 2,
            decreases STAGGER_DISTANCE - staggered,
        {
            let idx = map.point2d_to_index(pos);
            map.tiles.set(idx, TileType::Floor);
            proof {
                let prev = walk;
                walk = walk.push(pos);
                lemma_idx_point(pos);
                assert forall|i: int| 0 <= i < map.tiles@.len() implies
                    #[trigger] map.tiles@[i] == (if on_walk(walk, i) { TileType::Floor } else { old(map).tiles@[i] }) by {
                    if on_walk(prev, i) {
                        let k = choose|k: int| 0 <= k < prev.len() && i == spec_idx((#[trigger] prev[k]).x as int, prev[k].y as int);
                        assert(walk[k] == prev[k]);
                    }
                    if i == idx {
                        assert(walk[walk.len() - 1] == pos);
                    }
                    if on_walk(walk, i) && i != idx {
                        let k = choose|k: int| 0 <= k < walk.len() && i == spec_idx((#[trigger] walk[k]).x as int, walk[k].y as int);
                        assert(k != walk.len() - 1);
                        assert(prev[k] == walk[k]);
                    }
                }
            }
            let roll = rng_range(random, 0, 4);
            let next = if roll == 0 {
                Point::new(pos.x - 1, pos.y)
            } else if roll == 1 {
                Point::new(pos.x + 1, pos.y)
            } else if roll == 2 {
                Point::new(pos.x, pos.y + 1)
            } else {
                Point::new(pos.x, pos.y - 1)
            };
            if !map.in_bounds(next) {
                assert(staggered == 0 ==> pos == *start);
                break;
            }
            staggered = staggered + 1;
            if staggered > STAGGER_DISTANCE {
                break;
            }
            pos = next;
        }
    }

    /// Digs a walk from a random cell, then walls in every tile that
    /// `pathing` reports unreachable from `center`.
    fn dig_round<F: Fn(&TileMap, usize) -> DistanceField>(&mut self, center: Point, random: &mut RandomNumberGenerator, map: &mut TileMap, pathing: &F)
        requires
            old(map).wf(),
            on_map(center),
            pathing_ok(pathing),
            walls_and_floors(old(map).tiles@),
        ensures
            final(map).wf(),
            walls_and_floors(final(map).tiles@),
            final(map).revealed_tiles == old(map).revealed_tiles,
            exists|walk: Seq<Point>, dug: TileMap, d: DistanceField| {
                &&& #[trigger] is_walk(walk, walk[0])
                &&& #[trigger] walked(old(map).tiles@, dug.tiles@, walk)
                &&& #[trigger] pathing.ensures((&dug, spec_idx(center.x as int, center.y as int) as usize), d)
                &&& dug.wf()
                &&& forall|i: int| 0 <= i < NUM_TILES ==> #[trigger] final(map).tiles@[i]
                        == (if d@[i] is None { TileType::Wall } else { dug.tiles@[i] })
            },
    {
        let x = rng_range(random, 0, SCREEN_WIDTH);
        let y = rng_range(random, 0, SCREEN_HEIGHT);
        let start = Point::new(x, y);
        self.drunkard(&start, random, map);
        proof {
            let w = choose|walk: Seq<Point>| is_walk(walk, start) && walked(old(map).tiles@, map.tiles@, walk);
            assert forall|i: int| 0 <= i < map.tiles@.len() implies
                #[trigger] map.tiles@[i] == TileType::Wall || map.tiles@[i] == TileType::Floor by {
                assert(old(map).tiles@[i] == TileType::Wall || old(map).tiles@[i] == TileType::Floor);
            }
        }
        let ghost dug = *map;
        assert(dug == *map);
        let ghost w = choose|walk: Seq<Point>| is_walk(walk, start) && walked(old(map).tiles@, map.tiles@, walk);
        let center_idx = map.point2d_to_index(center);
        let d = pathing(&*map, center_idx);
        let mut i: usize = 0;
        while i < d.len()
            invariant
                dug.wf(),
                forall|j: int| 0 <= j < NUM_TILES ==> #[trigger] map.tiles@[j]
                    == (if j < i && d@[j] is None { TileType::Wall } else { dug.tiles@[j] }),
                map.wf(),
                d@.len() == NUM_TILES,
                i <= NUM_TILES,
                walls_and_floors(map.tiles@),
                map.revealed_tiles == old(map).revealed_tiles,
            decreases NUM_TILES - i,
        {
            if d[i].is_none() {
                map.tiles.set(i, TileType::Wall);
            }
            i = i + 1;
        }
        assert(is_walk(w, w[0]) && walked(old(map).tiles@, dug.tiles@, w));
        assert(pathing.ensures((&dug, spec_idx(center.x as int, center.y as int) as usize), d));
        assert(forall|j: int| 0 <= j < NUM_TILES ==> #[trigger] map.tiles@[j]
            == (if d@[j] is None { TileType::Wall } else { dug.tiles@[j] }));
    }

    /// Lays out caves dug by random walks: one walk from the center, then
    /// further walks from random cells, each followed by walling in what
    /// cannot be reached from the center, until a third of the map is floor.
    /// The player starts at the center, monsters on random floor tiles away
    /// from it, the amulet on the tile farthest from it. Rounds are counted
    /// in a `u64`; digging gives up after `u64::MAX` of them. Returns the
    /// builder and whether `DESIRED_FLOOR` tiles are floor.
    pub fn new<F: Fn(&TileMap, usize) -> DistanceField>(&mut self, random: &mut RandomNumberGenerator, pathing: &F) -> (r: (MapBuilder, bool))
        requires
            pathing_ok(pathing),
        ensures
            walked_layout(pathing, &r.0),
            r.1 == (r.0.map.floor_count() >= DESIRED_FLOOR),
            r.1 ==> r.0.monster_spawns@.len() == NUM_MONSTERS + 1,
    {
        let mut mb = MapBuilder::empty();
        mb.fill(TileType::Wall);
        let center = Point::new(SCREEN_WIDTH / 2, SCREEN_HEIGHT / 2);
        let ghost before = mb.map.tiles@;
        assert(before =~= Seq::new(NUM_TILES as nat, |i: int| TileType::Wall));
        self.drunkard(&center, random, &mut mb.map);
        let ghost nb: Point;
        proof {
            let w = choose|walk: Seq<Point>| #[trigger] is_walk(walk, center) && walked(before, mb.map.tiles@, walk)
                && (inner(center) ==> walk.len() >= 2);
            assert(is_walk(w, center));
            assert forall|i: int| 0 <= i < mb.map.tiles@.len() implies
                #[trigger] mb.map.tiles@[i] == TileType::Wall || mb.map.tiles@[i] == TileType::Floor by {
                assert(before[i] == TileType::Wall);
            }
            nb = w[1];
            assert(on_map(nb) && adjacent(center, nb));
            lemma_idx_point(center);
            lemma_idx_point(nb);
            assert(on_walk(w, spec_idx(center.x as int, center.y as int)));
            assert(on_walk(w, spec_idx(nb.x as int, nb.y as int)));
            lemma_walk_connected(mb.map.tiles@, w, center);
        }
        let mut rounds: u64 = 0;
        while mb.map.count_floor() < DESIRED_FLOOR && rounds < u64::MAX
            invariant
                mb.wf(),
                crate::map_builder::themed_by(&mb, 0),
                walls_and_floors(mb.map.tiles@),
                forall|i: int| 0 <= i < NUM_TILES ==> !(#[trigger] mb.map.revealed_tiles@[i]),
                mb.rooms@.len() == 0,
                mb.monster_spawns@.len() == 0,
                mb.player_start == Point::zero_spec(),
                mb.amulet_start == Point::zero_spec(),
                center == (Point { x: 40, y: 25 }),
                pathing_ok(pathing),
                connected_to(mb.map.tiles@, center),
                on_map(nb),
                adjacent(center, nb),
                mb.map.tile_at(center) == TileType::Floor,
                mb.map.tile_at(nb) == TileType::Floor,
            decreases u64::MAX - rounds,
        {
            let ghost pre = mb.map.tiles@;
            self.dig_round(center, random, &mut mb.map, pathing);
            proof {
                let (w, dug, d) = choose|walk: Seq<Point>, dug: TileMap, d: DistanceField| {
                    &&& #[trigger] is_walk(walk, walk[0])
                    &&& #[trigger] walked(pre, dug.tiles@, walk)
                    &&& #[trigger] pathing.ensures((&dug, spec_idx(center.x as int, center.y as int) as usize), d)
                    &&& dug.wf()
                    &&& forall|i: int| 0 <= i < NUM_TILES ==> #[trigger] mb.map.tiles@[i]
                            == (if d@[i] is None { TileType::Wall } else { dug.tiles@[i] })
                };
                assert forall|i: int| 0 <= i < NUM_TILES && #[trigger] mb.map.tiles@[i] == TileType::Floor
                    implies d@[i] is Some by {}
                assert(pathing.ensures((&dug, spec_idx(center.x as int, center.y as int) as usize), d));
                lemma_idx_point(center);
                lemma_idx_point(nb);
                let ci = spec_idx(center.x as int, center.y as int);
                let ni = spec_idx(nb.x as int, nb.y as int);
                assert(dug.tiles@[ci] == TileType::Floor);
                assert(dug.tiles@[ni] == TileType::Floor);
                assert(is_search_from(dug, ci as usize, d@));
                lemma_center_reached(dug, center, nb, d@);
                assert(mb.map.tiles@[ci] == dug.tiles@[ci]);
                assert(mb.map.tiles@[ni] == dug.tiles@[ni]);
                assert forall|i: int| 0 <= i < NUM_TILES implies
                    #[trigger] dug.tiles@[i] == TileType::Wall || dug.tiles@[i] == TileType::Floor by {
                    assert(pre[i] == TileType::Wall || pre[i] == TileType::Floor);
                }
                lemma_search_steps_back(dug, mb.map.tiles@, ci, d@);
                assert forall|i: int| 0 <= i < NUM_TILES && #[trigger] mb.map.tiles@[i] == TileType::Floor
                    implies floor_linked(mb.map.tiles@, ci, i, MAX_DEPTH as nat) by {
                    let v = d@[i]->0;
                    lemma_steps_linked(mb.map.tiles@, ci, d@, i, v as nat);
                    lemma_linked_mono(mb.map.tiles@, ci, i, v as nat, MAX_DEPTH as nat);
                }
            }
            rounds = rounds + 1;
        }
        proof {
            if mb.map.floor_count() >= DESIRED_FLOOR {
                lemma_enough_spawnable(&mb.map);
            }
        }
        mb.monster_spawns = mb.spawn_monsters(&center, random);
        mb.player_start = center;
        mb.place_amulet(pathing);
        proof {
            crate::map_builder::lemma_amulet_on_map(pathing, &mb.map, mb.player_start, Point::zero_spec(), mb.amulet_start);
        }
        let dug_enough = mb.map.count_floor() >= DESIRED_FLOOR;
        (mb, dug_enough)
    }

    pub fn who_am_i(&self) -> (name: String)
        ensures
            name@ == "DrunkardsWalkArchitect"@,
    {
        broadcast use vstd::string::group_string_axioms;
        "DrunkardsWalkArchitect".to_string()
    }
}

} // verus!
