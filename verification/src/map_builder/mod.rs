use vstd::prelude::*;
use crate::geometry::{Point, Rect, dist_sq};
use crate::pathing::{DistanceField, pathing_ok, most_distant, is_most_distant, any_reached};
use crate::map::{TileMap, TileType, on_map, spec_idx, spec_point_of, lemma_idx_point, map_idx, NUM_TILES, SCREEN_WIDTH, SCREEN_HEIGHT};
use crate::map_builder::themes::{MapTheme, DungeonTheme, ForestTheme, dungeon_glyph, forest_glyph};
use crate::map_builder::automata::{CellularAutomataArchitect, caves_layout};
use crate::map_builder::drunkard::{DrunkardsWalkArchitect, walked_layout, floor_linked, next_to};
use crate::map_builder::rooms::{RoomsArchitect, rooms_layout};
use crate::map_builder::prefab::{apply_prefab, prefab_outcome};
use crate::random::{rng_range, rng_slice_index};
use bracket_lib::random::RandomNumberGenerator;

pub mod themes;
pub mod automata;
pub mod rooms;
pub mod empty;
pub mod drunkard;
pub mod prefab;

verus! {

/// Number of rooms that the rooms-and-corridors layout places.
pub const NUM_ROOMS: usize = 20;

/// A level being laid out: the map, its theme, and where the player, the
/// amulet and the monsters start.
pub struct MapBuilder {
    pub map: TileMap,
    pub theme: Box<dyn MapTheme>,
    pub rooms: Vec<Rect>,
    pub monster_spawns: Vec<Point>,
    pub player_start: Point,
    pub amulet_start: Point,
}

/// Whether tile `i` lies on the horizontal run `min(x1,x2)..max(x1,x2)` of row `y`.
pub open spec fn on_h_run(i: int, y: int, x1: int, x2: int) -> bool {
    let lo = if x1 <= x2 { x1 } else { x2 };
    let hi = if x1 <= x2 { x2 } else { x1 };
    exists|x: int| lo <= x < hi && 0 <= x < SCREEN_WIDTH && 0 <= y < SCREEN_HEIGHT && i == spec_idx(x, y)
}

/// Whether tile `i` lies on the vertical run `min(y1,y2)..max(y1,y2)` of column `x`.
pub open spec fn on_v_run(i: int, x: int, y1: int, y2: int) -> bool {
    let lo = if y1 <= y2 { y1 } else { y2 };
    let hi = if y1 <= y2 { y2 } else { y1 };
    exists|y: int| lo <= y < hi && 0 <= x < SCREEN_WIDTH && 0 <= y < SCREEN_HEIGHT && i == spec_idx(x, y)
}

/// Tiles on the run are floor, the others as they were.
pub open spec fn dug(old_tiles: Seq<TileType>, new_tiles: Seq<TileType>, run: spec_fn(int) -> bool) -> bool {
    &&& new_tiles.len() == old_tiles.len()
    &&& forall|i: int| 0 <= i < new_tiles.len() ==>
            #[trigger] new_tiles[i] == (if run(i) { TileType::Floor } else { old_tiles[i] })
}


/// Whether tile `i` is one of the cells of rectangle `r`.
pub open spec fn room_cell(r: Rect, i: int) -> bool {
    0 <= i < NUM_TILES && r.contains(spec_point_of(i))
}

/// Cells of `r` in rows before `y`, or in row `y` before column `x`.
pub open spec fn carved_upto(r: Rect, i: int, y: int, x: int) -> bool {
    let p = spec_point_of(i);
    &&& 0 <= i < NUM_TILES
    &&& r.x1 <= p.x < r.x2
    &&& r.y1 <= p.y
    &&& (p.y < y || (p.y == y && p.x < x))
}

/// A room as the layout draws them: at least two cells each way, with a
/// margin of one cell to the map's left and top edges and two to its right
/// and bottom edges.
pub open spec fn room_in_bounds(r: Rect) -> bool {
    &&& 1 <= r.x1
    &&& r.x1 + 2 <= r.x2 <= SCREEN_WIDTH - 2
    &&& 1 <= r.y1
    &&& r.y1 + 2 <= r.y2 <= SCREEN_HEIGHT - 2
}

/// A room as the draws give it: its corner at `1..70` by `1..40`, two to
/// nine cells wide and high.
pub open spec fn room_drawn(r: Rect) -> bool {
    &&& 1 <= r.x1 < SCREEN_WIDTH - 10
    &&& 1 <= r.y1 < SCREEN_HEIGHT - 10
    &&& 2 <= r.x2 - r.x1 < 10
    &&& 2 <= r.y2 - r.y1 < 10
}

/// Every room from index `from` on neither overlaps nor touches any room
/// before it.
pub open spec fn apart_from(rooms: Seq<Rect>, from: int) -> bool {
    forall|a: int, b: int| 0 <= a < b < rooms.len() && from <= b ==> !(#[trigger] rooms[a]).spec_intersects(#[trigger] rooms[b])
}

/// A room whose center can be worked out in `i32` and lies on the map.
pub open spec fn center_on_map(r: Rect) -> bool {
    &&& i32::MIN <= r.x1 + r.x2 <= i32::MAX
    &&& i32::MIN <= r.y1 + r.y2 <= i32::MAX
    &&& on_map(r.spec_center())
}

/// No two rooms of the list overlap or touch.
pub open spec fn rooms_disjoint(rooms: Seq<Rect>) -> bool {
    forall|a: int, b: int| 0 <= a < b < rooms.len() ==> !(#[trigger] rooms[a]).spec_intersects(#[trigger] rooms[b])
}

/// Whether tile `i` is a cell of one of `rooms[from..]`.
pub open spec fn in_rooms_from(rooms: Seq<Rect>, from: int, i: int) -> bool {
    exists|k: int| from <= k < rooms.len() && room_cell(#[trigger] rooms[k], i)
}

/// The column of a room's center.
pub open spec fn center_x(r: Rect) -> int {
    r.spec_center().x as int
}

/// Rooms ordered by the column of their centers.
pub open spec fn sorted_by_center_x(rooms: Seq<Rect>) -> bool {
    forall|a: int, b: int| 0 <= a < b < rooms.len() ==> center_x(#[trigger] rooms[a]) <= center_x(#[trigger] rooms[b])
}

/// How many rooms of `s` have their center's column at or before `key`.
pub open spec fn count_at_or_before(s: Seq<Rect>, key: int) -> nat
    decreases s.len(),
{
    if s.len() == 0 {
        0
    } else {
        count_at_or_before(s.drop_last(), key) + (if center_x(s.last()) <= key { 1nat } else { 0nat })
    }
}

/// `s` with `r` inserted after every room whose center's column is at or
/// before that of `r`.
pub open spec fn insert_by_center_x(s: Seq<Rect>, r: Rect) -> Seq<Rect> {
    s.insert(count_at_or_before(s, center_x(r)) as int, r)
}

/// The rooms ordered by their centers' columns, rooms with equal columns
/// in their given order: the stable insertion sort.
pub open spec fn by_center_x(s: Seq<Rect>) -> Seq<Rect>
    decreases s.len(),
{
    if s.len() == 0 {
        s
    } else {
        insert_by_center_x(by_center_x(s.drop_last()), s.last())
    }
}

/// In a list where the first `p` rooms are at or before `key` and the rest
/// after it, `p` rooms are counted.
proof fn lemma_count_split(s: Seq<Rect>, key: int, p: int)
    requires
        0 <= p <= s.len(),
        forall|k: int| 0 <= k < p ==> center_x(#[trigger] s[k]) <= key,
        forall|k: int| p <= k < s.len() ==> center_x(#[trigger] s[k]) > key,
    ensures
        count_at_or_before(s, key) == p,
    decreases s.len(),
{
    if s.len() > 0 {
        let t = s.drop_last();
        if p == s.len() {
            assert forall|k: int| 0 <= k < p - 1 implies center_x(#[trigger] t[k]) <= key by {
                assert(t[k] == s[k]);
            }
            lemma_count_split(t, key, p - 1);
            assert(center_x(s[p - 1]) <= key);
        } else {
            assert forall|k: int| 0 <= k < p implies center_x(#[trigger] t[k]) <= key by {
                assert(t[k] == s[k]);
            }
            assert forall|k: int| p <= k < t.len() implies center_x(#[trigger] t[k]) > key by {
                assert(t[k] == s[k]);
            }
            lemma_count_split(t, key, p);
            assert(center_x(s[s.len() - 1]) > key);
        }
    }
}

/// Every tile on the run is floor.
pub open spec fn all_floor(tiles: Seq<TileType>, run: spec_fn(int) -> bool) -> bool {
    forall|i: int| 0 <= i < tiles.len() && #[trigger] run(i) ==> tiles[i] == TileType::Floor
}

/// The two room centers are joined by one of the two L-shaped tunnels that
/// the corridor builder digs: along the row of `a` then the column of `b`,
/// or along the column of `a` then the row of `b`.
pub open spec fn joined(tiles: Seq<TileType>, a: Point, b: Point) -> bool {
    ||| all_floor(tiles, |i: int| on_h_run(i, a.y as int, a.x as int, b.x + 1))
        && all_floor(tiles, |i: int| on_v_run(i, b.x as int, a.y as int, b.y as int))
    ||| all_floor(tiles, |i: int| on_v_run(i, a.x as int, a.y as int, b.y as int))
        && all_floor(tiles, |i: int| on_h_run(i, b.y as int, a.x as int, b.x as int))
}

/// Tile `i` lies on one of the two L-shaped tunnels that may join the
/// centers `a` and `b`.
pub open spec fn on_tunnels(i: int, a: Point, b: Point) -> bool {
    ||| on_h_run(i, a.y as int, a.x as int, b.x + 1)
    ||| on_v_run(i, b.x as int, a.y as int, b.y as int)
    ||| on_v_run(i, a.x as int, a.y as int, b.y as int)
    ||| on_h_run(i, b.y as int, a.x as int, b.x as int)
}

/// Tile `i` lies on a tunnel between two rooms next to each other in
/// `order`.
pub open spec fn on_corridor(order: Seq<Rect>, i: int) -> bool {
    exists|k: int| 1 <= k < order.len() && on_tunnels(i, (#[trigger] order[k - 1]).spec_center(), order[k].spec_center())
}

/// A cell on the map's outer edge.
pub open spec fn on_edge(p: Point) -> bool {
    p.x == 0 || p.x == SCREEN_WIDTH - 1 || p.y == 0 || p.y == SCREEN_HEIGHT - 1
}

proof fn lemma_count_le_len(s: Seq<Rect>, key: int)
    ensures
        count_at_or_before(s, key) <= s.len(),
    decreases s.len(),
{
    if s.len() > 0 {
        lemma_count_le_len(s.drop_last(), key);
    }
}

/// Sorting keeps the rooms' length and that each was drawn.
pub proof fn lemma_by_center_x_drawn(s: Seq<Rect>)
    requires
        forall|k: int| 0 <= k < s.len() ==> room_drawn(#[trigger] s[k]),
    ensures
        by_center_x(s).len() == s.len(),
        forall|k: int| 0 <= k < s.len() ==> room_drawn(#[trigger] by_center_x(s)[k]),
    decreases s.len(),
{
    if s.len() > 0 {
        let t = s.drop_last();
        assert forall|k: int| 0 <= k < t.len() implies room_drawn(#[trigger] t[k]) by {
            assert(t[k] == s[k]);
        }
        lemma_by_center_x_drawn(t);
        lemma_count_le_len(by_center_x(t), center_x(s.last()));
        assert(room_drawn(s.last()));
    }
}

/// No cell of a drawn room, nor of a tunnel between the centers of drawn
/// rooms, lies on the map's edge.
pub proof fn lemma_dug_off_edge(rooms: Seq<Rect>, i: int)
    requires
        0 <= i < NUM_TILES,
        forall|k: int| 0 <= k < rooms.len() ==> room_drawn(#[trigger] rooms[k]),
        in_rooms_from(rooms, 0, i) || on_corridor(by_center_x(rooms), i),
    ensures
        !on_edge(spec_point_of(i)),
{
    if in_rooms_from(rooms, 0, i) {
        let k = choose|k: int| 0 <= k < rooms.len() && room_cell(#[trigger] rooms[k], i);
        assert(room_drawn(rooms[k]));
    } else {
        lemma_by_center_x_drawn(rooms);
        let order = by_center_x(rooms);
        let k = choose|k: int| 1 <= k < order.len() && on_tunnels(i, (#[trigger] order[k - 1]).spec_center(), order[k].spec_center());
        let ra = order[k - 1];
        let rb = order[k];
        assert(room_drawn(ra));
        assert(room_drawn(rb));
        let a = ra.spec_center();
        let b = rb.spec_center();
        assert(2 <= a.x <= 73 && 2 <= a.y <= 43);
        assert(2 <= b.x <= 73 && 2 <= b.y <= 43);
        if on_h_run(i, a.y as int, a.x as int, b.x + 1) {
            let x = choose|x: int| (if a.x <= b.x + 1 { a.x as int } else { b.x + 1 }) <= x
                && x < (if a.x <= b.x + 1 { b.x + 1 } else { a.x as int })
                && 0 <= x < SCREEN_WIDTH && 0 <= a.y < SCREEN_HEIGHT && i == spec_idx(x, a.y as int);
            lemma_idx_point(Point { x: x as i32, y: a.y });
        } else if on_v_run(i, b.x as int, a.y as int, b.y as int) {
            let y = choose|y: int| (if a.y <= b.y { a.y as int } else { b.y as int }) <= y
                && y < (if a.y <= b.y { b.y as int } else { a.y as int })
                && 0 <= b.x < SCREEN_WIDTH && 0 <= y < SCREEN_HEIGHT && i == spec_idx(b.x as int, y);
            lemma_idx_point(Point { x: b.x, y: y as i32 });
        } else if on_v_run(i, a.x as int, a.y as int, b.y as int) {
            let y = choose|y: int| (if a.y <= b.y { a.y as int } else { b.y as int }) <= y
                && y < (if a.y <= b.y { b.y as int } else { a.y as int })
                && 0 <= a.x < SCREEN_WIDTH && 0 <= y < SCREEN_HEIGHT && i == spec_idx(a.x as int, y);
            lemma_idx_point(Point { x: a.x, y: y as i32 });
        } else {
            let x = choose|x: int| (if a.x <= b.x { a.x as int } else { b.x as int }) <= x
                && x < (if a.x <= b.x { b.x as int } else { a.x as int })
                && 0 <= x < SCREEN_WIDTH && 0 <= b.y < SCREEN_HEIGHT && i == spec_idx(x, b.y as int);
            lemma_idx_point(Point { x: x as i32, y: b.y });
        }
    }
}

/// The index of the tile under `p`.
pub open spec fn cell_of(p: Point) -> int {
    spec_idx(p.x as int, p.y as int)
}

/// The number of orthogonal steps from `a` to `b`.
pub open spec fn steps_between(a: Point, b: Point) -> nat {
    let dx = if a.x <= b.x { b.x - a.x } else { a.x - b.x };
    let dy = if a.y <= b.y { b.y - a.y } else { a.y - b.y };
    (dx + dy) as nat
}

/// A path to tile `i` extends by a step onto a floor tile next to it.
proof fn lemma_linked_step(tiles: Seq<TileType>, c: int, i: int, j: int, n: nat)
    requires
        floor_linked(tiles, c, i, n),
        0 <= j < NUM_TILES,
        tiles[j] == TileType::Floor,
        next_to(j, i),
    ensures
        floor_linked(tiles, c, j, n + 1),
{
    assert(next_to(j, i) && floor_linked(tiles, c, i, ((n + 1) - 1) as nat));
}

/// A path extends along a row of floor cells from column `x0` to `x1`.
proof fn lemma_linked_row(tiles: Seq<TileType>, c: int, y: int, x0: int, x1: int, n: nat)
    requires
        0 <= y < SCREEN_HEIGHT,
        0 <= x0 < SCREEN_WIDTH,
        0 <= x1 < SCREEN_WIDTH,
        floor_linked(tiles, c, spec_idx(x0, y), n),
        forall|x: int| (x0 <= x <= x1 || x1 <= x <= x0) ==> tiles[#[trigger] spec_idx(x, y)] == TileType::Floor,
    ensures
        floor_linked(tiles, c, spec_idx(x1, y), n + (if x0 <= x1 { x1 - x0 } else { x0 - x1 }) as nat),
    decreases (if x0 <= x1 { x1 - x0 } else { x0 - x1 }),
{
    if x0 != x1 {
        let nx = if x0 < x1 { x0 + 1 } else { x0 - 1 };
        let p = Point { x: x0 as i32, y: y as i32 };
        let q = Point { x: nx as i32, y: y as i32 };
        lemma_idx_point(p);
        lemma_idx_point(q);
        assert(tiles[spec_idx(nx, y)] == TileType::Floor);
        lemma_linked_step(tiles, c, spec_idx(x0, y), spec_idx(nx, y), n);
        lemma_linked_row(tiles, c, y, nx, x1, n + 1);
    }
}

/// A path extends along a column of floor cells from row `y0` to `y1`.
proof fn lemma_linked_col(tiles: Seq<TileType>, c: int, x: int, y0: int, y1: int, n: nat)
    requires
        0 <= x < SCREEN_WIDTH,
        0 <= y0 < SCREEN_HEIGHT,
        0 <= y1 < SCREEN_HEIGHT,
        floor_linked(tiles, c, spec_idx(x, y0), n),
        forall|y: int| (y0 <= y <= y1 || y1 <= y <= y0) ==> tiles[#[trigger] spec_idx(x, y)] == TileType::Floor,
    ensures
        floor_linked(tiles, c, spec_idx(x, y1), n + (if y0 <= y1 { y1 - y0 } else { y0 - y1 }) as nat),
    decreases (if y0 <= y1 { y1 - y0 } else { y0 - y1 }),
{
    if y0 != y1 {
        let ny = if y0 < y1 { y0 + 1 } else { y0 - 1 };
        let p = Point { x: x as i32, y: y0 as i32 };
        let q = Point { x: x as i32, y: ny as i32 };
        lemma_idx_point(p);
        lemma_idx_point(q);
        assert(tiles[spec_idx(x, ny)] == TileType::Floor);
        lemma_linked_step(tiles, c, spec_idx(x, y0), spec_idx(x, ny), n);
        lemma_linked_col(tiles, c, x, ny, y1, n + 1);
    }
}

/// Two floor room centers, the first not right of the second, that a
/// corridor joins are linked by a path of floor tiles going along the
/// corridor.
pub proof fn lemma_corridor_path(tiles: Seq<TileType>, a: Point, b: Point)
    requires
        tiles.len() == NUM_TILES,
        on_map(a),
        on_map(b),
        a.x <= b.x,
        tiles[spec_idx(a.x as int, a.y as int)] == TileType::Floor,
        tiles[spec_idx(b.x as int, b.y as int)] == TileType::Floor,
        joined(tiles, a, b),
    ensures
        floor_linked(tiles, cell_of(a), cell_of(b), steps_between(a, b)),
{
    let ai = spec_idx(a.x as int, a.y as int);
    lemma_idx_point(a);
    lemma_idx_point(b);
    assert(floor_linked(tiles, ai, ai, 0));
    let h1 = |i: int| on_h_run(i, a.y as int, a.x as int, b.x + 1);
    let v1 = |i: int| on_v_run(i, b.x as int, a.y as int, b.y as int);
    let v2 = |i: int| on_v_run(i, a.x as int, a.y as int, b.y as int);
    let h2 = |i: int| on_h_run(i, b.y as int, a.x as int, b.x as int);
    if all_floor(tiles, h1) && all_floor(tiles, v1) {
        assert forall|x: int| (a.x <= x <= b.x || b.x <= x <= a.x) implies tiles[#[trigger] spec_idx(x, a.y as int)] == TileType::Floor by {
            lemma_idx_point(Point { x: x as i32, y: a.y });
            assert(h1(spec_idx(x, a.y as int)));
        }
        lemma_linked_row(tiles, ai, a.y as int, a.x as int, b.x as int, 0);
        assert forall|y: int| (a.y <= y <= b.y || b.y <= y <= a.y) implies tiles[#[trigger] spec_idx(b.x as int, y)] == TileType::Floor by {
            lemma_idx_point(Point { x: b.x, y: y as i32 });
            if y == a.y {
                assert(h1(spec_idx(b.x as int, y)));
            } else if y != b.y {
                assert(v1(spec_idx(b.x as int, y)));
            }
        }
        lemma_linked_col(tiles, ai, b.x as int, a.y as int, b.y as int, (b.x - a.x) as nat);
    } else {
        assert forall|y: int| (a.y <= y <= b.y || b.y <= y <= a.y) implies tiles[#[trigger] spec_idx(a.x as int, y)] == TileType::Floor by {
            lemma_idx_point(Point { x: a.x, y: y as i32 });
            if y == b.y && a.x == b.x {
            } else if y == b.y {
                assert(h2(spec_idx(a.x as int, y)));
            } else if y != a.y {
                assert(v2(spec_idx(a.x as int, y)));
            }
        }
        lemma_linked_col(tiles, ai, a.x as int, a.y as int, b.y as int, 0);
        assert forall|x: int| (a.x <= x <= b.x || b.x <= x <= a.x) implies tiles[#[trigger] spec_idx(x, b.y as int)] == TileType::Floor by {
            lemma_idx_point(Point { x: x as i32, y: b.y });
            if x != b.x {
                assert(h2(spec_idx(x, b.y as int)));
            }
        }
        lemma_linked_row(tiles, ai, b.y as int, a.x as int, b.x as int,
            (if a.y <= b.y { b.y - a.y } else { a.y - b.y }) as nat);
    }
}

/// Each tile is as it was, or has become floor.
pub open spec fn only_dug(old_tiles: Seq<TileType>, new_tiles: Seq<TileType>) -> bool {
    &&& new_tiles.len() == old_tiles.len()
    &&& forall|i: int| 0 <= i < new_tiles.len() ==> #[trigger] new_tiles[i] == old_tiles[i] || new_tiles[i] == TileType::Floor
}

/// Number of monsters placed by `spawn_monsters`, less one.
pub const NUM_MONSTERS: usize = 50;

/// A cell where a monster may start: floor, more than ten cells (in
/// straight-line distance) from `start`.
pub open spec fn spawnable(map: &TileMap, start: Point, p: Point) -> bool {
    &&& on_map(p)
    &&& map.tile_at(p) == TileType::Floor
    &&& dist_sq(p, start) > 100
}

/// Whether `p` lies more than ten cells (in straight-line distance) from
/// `start`, for any `start`.
fn far_from(p: Point, start: Point) -> (b: bool)
    requires
        on_map(p),
    ensures
        b == (dist_sq(p, start) > 100),
{
    let dx = p.x as i64 - start.x as i64;
    let dy = p.y as i64 - start.y as i64;
    if dx > 10 || dx < -10 || dy > 10 || dy < -10 {
        assert(dx * dx > 100 || dy * dy > 100) by (nonlinear_arith)
            requires dx > 10 || dx < -10 || dy > 10 || dy < -10;
        assert(dx * dx >= 0 && dy * dy >= 0) by (nonlinear_arith);
        true
    } else {
        assert(0 <= dx * dx <= 100 && 0 <= dy * dy <= 100) by (nonlinear_arith)
            requires -10 <= dx <= 10, -10 <= dy <= 10;
        dx * dx + dy * dy > 100
    }
}

/// The cells among the first `n` tiles where a monster may start, in
/// row-major order.
pub open spec fn spawnable_upto(map: &TileMap, start: Point, n: int) -> Seq<Point>
    decreases n,
{
    if n <= 0 {
        Seq::empty()
    } else {
        spawnable_upto(map, start, n - 1) + (if spawnable(map, start, spec_point_of(n - 1)) {
            seq![spec_point_of(n - 1)]
        } else {
            Seq::empty()
        })
    }
}

/// Drawing from a pool in turn: for each draw, the cell at that index is
/// taken out of what is left. Gives what was taken, in order, and what is
/// left.
pub open spec fn pick_state(pool: Seq<Point>, draws: Seq<usize>) -> (Seq<Point>, Seq<Point>)
    decreases draws.len(),
{
    if draws.len() == 0 {
        (Seq::empty(), pool)
    } else {
        let prev = pick_state(pool, draws.drop_last());
        let i = draws.last() as int;
        (prev.0.push(prev.1[i]), prev.1.remove(i))
    }
}

/// Each draw is an index into what is left of the pool at its turn.
pub open spec fn draws_fit(pool: Seq<Point>, draws: Seq<usize>) -> bool {
    forall|k: int| 0 <= k < draws.len() ==> (#[trigger] draws[k]) < pool.len() - k
}

/// Takes the cell at index `draw` out of the pool.
pub fn take_pick(pool: &mut Vec<Point>, draw: usize) -> (p: Point)
    requires
        draw < old(pool)@.len(),
    ensures
        p == old(pool)@[draw as int],
        final(pool)@ == old(pool)@.remove(draw as int),
{
    let p = pool[draw];
    pool.remove(draw);
    p
}

/// Number of tiles among the first `n` that satisfy `pred`.
pub open spec fn count_upto(n: int, pred: spec_fn(int) -> bool) -> nat
    decreases n,
{
    if n <= 0 {
        0
    } else {
        count_upto(n - 1, pred) + (if pred(n - 1) { 1nat } else { 0nat })
    }
}

/// A count over `n` tiles is at most `n`.
pub proof fn lemma_count_upto_bound(n: int, pred: spec_fn(int) -> bool)
    requires
        0 <= n,
    ensures
        count_upto(n, pred) <= n,
    decreases n,
{
    if n > 0 {
        lemma_count_upto_bound(n - 1, pred);
    }
}

/// Number of cells where a monster may start.
pub open spec fn spawnable_count(map: &TileMap, start: Point) -> nat {
    count_upto(NUM_TILES as int, |i: int| spawnable(map, start, spec_point_of(i)))
}

/// The amulet's place: the reached tile farthest from the player's start by
/// the distances that `pathing` reports for `map`, the last of equally far
/// ones; where nothing is reached, the place stays `before`.
pub open spec fn amulet_rule<F: Fn(&TileMap, usize) -> DistanceField>(
    pathing: &F,
    map: &TileMap,
    start: Point,
    before: Point,
    after: Point,
) -> bool {
    exists|d: DistanceField| {
        &&& pathing.ensures((map, spec_idx(start.x as int, start.y as int) as usize), d)
        &&& if any_reached(d@) {
            exists|i: int| is_most_distant(d@, i) && after == spec_point_of(i)
        } else {
            after == before
        }
    }
}

/// The amulet's place lies on the map.
pub proof fn lemma_amulet_on_map<F: Fn(&TileMap, usize) -> DistanceField>(
    pathing: &F,
    map: &TileMap,
    start: Point,
    before: Point,
    after: Point,
)
    requires
        pathing_ok(pathing),
        amulet_rule(pathing, map, start, before, after),
        on_map(before),
    ensures
        on_map(after),
{
    let d = choose|d: DistanceField| {
        &&& pathing.ensures((map, spec_idx(start.x as int, start.y as int) as usize), d)
        &&& if any_reached(d@) {
            exists|i: int| is_most_distant(d@, i) && after == spec_point_of(i)
        } else {
            after == before
        }
    };
    if any_reached(d@) {
        let i = choose|i: int| is_most_distant(d@, i) && after == spec_point_of(i);
        crate::map::lemma_point_idx(i);
    }
}

impl MapBuilder {
    pub open spec fn wf(&self) -> bool {
        self.map.wf()
    }

    /// A builder over a map of all floor with nothing placed yet.
    pub fn empty() -> (mb: MapBuilder)
        ensures
            mb.wf(),
            forall|i: int| 0 <= i < NUM_TILES ==> mb.map.tiles@[i] == TileType::Floor,
            forall|i: int| 0 <= i < NUM_TILES ==> !mb.map.revealed_tiles@[i],
            mb.rooms@.len() == 0,
            mb.monster_spawns@.len() == 0,
            mb.player_start == Point::zero_spec(),
            mb.amulet_start == Point::zero_spec(),
            themed_by(&mb, 0),
    {
        MapBuilder {
            map: TileMap::new(),
            theme: Box::new(DungeonTheme {}),
            rooms: Vec::new(),
            monster_spawns: Vec::new(),
            player_start: Point::zero(),
            amulet_start: Point::zero(),
        }
    }

    /// Sets every tile to `tile_type`.
    pub fn fill(&mut self, tile_type: TileType)
        requires
            old(self).wf(),
        ensures
            final(self).wf(),
            forall|i: int| 0 <= i < NUM_TILES ==> final(self).map.tiles@[i] == tile_type,
            final(self).map.revealed_tiles == old(self).map.revealed_tiles,
            final(self).rooms == old(self).rooms,
            final(self).monster_spawns == old(self).monster_spawns,
            final(self).player_start == old(self).player_start,
            final(self).amulet_start == old(self).amulet_start,
            final(self).theme == old(self).theme,
    {
        let n = self.map.tiles.len();
        let mut i: usize = 0;
        while i < n
            invariant
                n == self.map.tiles@.len(),
                n == NUM_TILES,
                i <= n,
                self.map.revealed_tiles == old(self).map.revealed_tiles,
                self.rooms == old(self).rooms,
                self.monster_spawns == old(self).monster_spawns,
                self.player_start == old(self).player_start,
                self.amulet_start == old(self).amulet_start,
                self.theme == old(self).theme,
                self.map.wf(),
                forall|j: int| 0 <= j < i ==> self.map.tiles@[j] == tile_type,
            decreases n - i,
        {
            self.map.tiles.set(i, tile_type);
            i = i + 1;
        }
    }

    /// Digs the cells `(x, y)` for `x` from `min(x1, x2)` up to but not
    /// including `max(x1, x2)`, skipping those off the map.
    pub fn create_horizontal_tunnel(&mut self, y: i32, x1: i32, x2: i32)
        requires
            old(self).wf(),
        ensures
            final(self).wf(),
            dug(old(self).map.tiles@, final(self).map.tiles@, |i: int| on_h_run(i, y as int, x1 as int, x2 as int)),
            final(self).map.revealed_tiles == old(self).map.revealed_tiles,
            final(self).rooms == old(self).rooms,
            final(self).monster_spawns == old(self).monster_spawns,
            final(self).player_start == old(self).player_start,
            final(self).amulet_start == old(self).amulet_start,
            final(self).theme == old(self).theme,
    {
        let lo = if x1 <= x2 { x1 } else { x2 };
        let hi = if x1 <= x2 { x2 } else { x1 };
        let mut x = lo;
        while x < hi
            invariant
                lo <= x <= hi,
                lo == (if x1 <= x2 { x1 } else { x2 }),
                hi == (if x1 <= x2 { x2 } else { x1 }),
                self.map.wf(),
                self.map.revealed_tiles == old(self).map.revealed_tiles,
                self.rooms == old(self).rooms,
                self.monster_spawns == old(self).monster_spawns,
                self.player_start == old(self).player_start,
                self.amulet_start == old(self).amulet_start,
                self.theme == old(self).theme,
                forall|i: int| 0 <= i < NUM_TILES ==> #[trigger] self.map.tiles@[i] == (
                    if on_h_run(i, y as int, lo as int, x as int) { TileType::Floor } else { old(self).map.tiles@[i] }),
            decreases hi - x,
        {
            if let Some(idx) = self.map.try_idx(Point::new(x, y)) {
                self.map.tiles.set(idx, TileType::Floor);
            }
            proof {
                assert forall|i: int| 0 <= i < NUM_TILES implies #[trigger] self.map.tiles@[i] == (
                    if on_h_run(i, y as int, lo as int, x + 1) { TileType::Floor } else { old(self).map.tiles@[i] }) by {
                    if on_h_run(i, y as int, lo as int, x + 1) && !on_h_run(i, y as int, lo as int, x as int) {
                        let xx = choose|xx: int| lo <= xx < x + 1 && 0 <= xx < SCREEN_WIDTH && 0 <= y < SCREEN_HEIGHT && i == spec_idx(xx, y as int);
                        assert(xx == x);
                    }
                    if on_h_run(i, y as int, lo as int, x as int) {
                        let xx = choose|xx: int| lo <= xx < x && 0 <= xx < SCREEN_WIDTH && 0 <= y < SCREEN_HEIGHT && i == spec_idx(xx, y as int);
                        assert(on_h_run(i, y as int, lo as int, x + 1));
                    }
                    if on_map(Point { x, y }) && i == spec_idx(x as int, y as int) {
                        assert(on_h_run(i, y as int, lo as int, x + 1));
                    }
                }
            }
            x = x + 1;
        }
        proof {
            assert forall|i: int| 0 <= i < NUM_TILES implies
                on_h_run(i, y as int, lo as int, hi as int) == on_h_run(i, y as int, x1 as int, x2 as int) by {}
        }
    }

    /// Digs the cells `(x, y)` for `y` from `min(y1, y2)` up to but not
    /// including `max(y1, y2)`, skipping those off the map.
    pub fn create_vertical_tunnel(&mut self, x: i32, y1: i32, y2: i32)
        requires
            old(self).wf(),
        ensures
            final(self).wf(),
            dug(old(self).map.tiles@, final(self).map.tiles@, |i: int| on_v_run(i, x as int, y1 as int, y2 as int)),
            final(self).map.revealed_tiles == old(self).map.revealed_tiles,
            final(self).rooms == old(self).rooms,
            final(self).monster_spawns == old(self).monster_spawns,
            final(self).player_start == old(self).player_start,
            final(self).amulet_start == old(self).amulet_start,
            final(self).theme == old(self).theme,
    {
        let lo = if y1 <= y2 { y1 } else { y2 };
        let hi = if y1 <= y2 { y2 } else { y1 };
        let mut y = lo;
        while y < hi
            invariant
                lo <= y <= hi,
                lo == (if y1 <= y2 { y1 } else { y2 }),
                hi == (if y1 <= y2 { y2 } else { y1 }),
                self.map.wf(),
                self.map.revealed_tiles == old(self).map.revealed_tiles,
                self.rooms == old(self).rooms,
                self.monster_spawns == old(self).monster_spawns,
                self.player_start == old(self).player_start,
                self.amulet_start == old(self).amulet_start,
                self.theme == old(self).theme,
                forall|i: int| 0 <= i < NUM_TILES ==> #[trigger] self.map.tiles@[i] == (
                    if on_v_run(i, x as int, lo as int, y as int) { TileType::Floor } else { old(self).map.tiles@[i] }),
            decreases hi - y,
        {
            if let Some(idx) = self.map.try_idx(Point::new(x, y)) {
                self.map.tiles.set(idx, TileType::Floor);
            }
            proof {
                assert forall|i: int| 0 <= i < NUM_TILES implies #[trigger] self.map.tiles@[i] == (
                    if on_v_run(i, x as int, lo as int, y + 1) { TileType::Floor } else { old(self).map.tiles@[i] }) by {
                    if on_v_run(i, x as int, lo as int, y + 1) && !on_v_run(i, x as int, lo as int, y as int) {
                        let yy = choose|yy: int| lo <= yy < y + 1 && 0 <= x < SCREEN_WIDTH && 0 <= yy < SCREEN_HEIGHT && i == spec_idx(x as int, yy);
                        assert(yy == y);
                    }
                    if on_v_run(i, x as int, lo as int, y as int) {
                        let yy = choose|yy: int| lo <= yy < y && 0 <= x < SCREEN_WIDTH && 0 <= yy < SCREEN_HEIGHT && i == spec_idx(x as int, yy);
                        assert(on_v_run(i, x as int, lo as int, y + 1));
                    }
                    if on_map(Point { x, y }) && i == spec_idx(x as int, y as int) {
                        assert(on_v_run(i, x as int, lo as int, y + 1));
                    }
                }
            }
            y = y + 1;
        }
        proof {
            assert forall|i: int| 0 <= i < NUM_TILES implies
                on_v_run(i, x as int, lo as int, hi as int) == on_v_run(i, x as int, y1 as int, y2 as int) by {}
        }
    }

    /// Turns every cell of the room into floor.
    fn carve_room(&mut self, room: &Rect)
        requires
            old(self).wf(),
            room_in_bounds(*room),
        ensures
            final(self).wf(),
            dug(old(self).map.tiles@, final(self).map.tiles@, |i: int| room_cell(*room, i)),
            final(self).map.revealed_tiles == old(self).map.revealed_tiles,
            final(self).rooms == old(self).rooms,
            final(self).monster_spawns == old(self).monster_spawns,
            final(self).player_start == old(self).player_start,
            final(self).amulet_start == old(self).amulet_start,
            final(self).theme == old(self).theme,
    {
        let r = *room;
        let mut y = r.y1;
        while y < r.y2
            invariant
                r == *room,
                room_in_bounds(r),
                r.y1 <= y <= r.y2,
                self.map.wf(),
                self.map.revealed_tiles == old(self).map.revealed_tiles,
                self.rooms == old(self).rooms,
                self.monster_spawns == old(self).monster_spawns,
                self.player_start == old(self).player_start,
                self.amulet_start == old(self).amulet_start,
                self.theme == old(self).theme,
                forall|i: int| 0 <= i < NUM_TILES ==> #[trigger] self.map.tiles@[i] == (
                    if carved_upto(r, i, y as int, r.x1 as int) { TileType::Floor } else { old(self).map.tiles@[i] }),
            decreases r.y2 - y,
        {
            let mut x = r.x1;
            while x < r.x2
                invariant
                    r == *room,
                    room_in_bounds(r),
                    r.y1 <= y < r.y2,
                    r.x1 <= x <= r.x2,
                    self.map.wf(),
                    self.map.revealed_tiles == old(self).map.revealed_tiles,
                    self.rooms == old(self).rooms,
                    self.monster_spawns == old(self).monster_spawns,
                    self.player_start == old(self).player_start,
                    self.amulet_start == old(self).amulet_start,
                    self.theme == old(self).theme,
                    forall|i: int| 0 <= i < NUM_TILES ==> #[trigger] self.map.tiles@[i] == (
                        if carved_upto(r, i, y as int, x as int) { TileType::Floor } else { old(self).map.tiles@[i] }),
                decreases r.x2 - x,
            {
                let idx = map_idx(x, y);
                self.map.tiles.set(idx, TileType::Floor);
                proof {
                    lemma_idx_point(Point { x, y });
                    assert forall|i: int| 0 <= i < NUM_TILES implies #[trigger] self.map.tiles@[i] == (
                        if carved_upto(r, i, y as int, x + 1) { TileType::Floor } else { old(self).map.tiles@[i] }) by {
                        crate::map::lemma_point_idx(i);
                    }
                }
                x = x + 1;
            }
            proof {
                assert forall|i: int| 0 <= i < NUM_TILES implies
                    carved_upto(r, i, y as int, r.x2 as int) == carved_upto(r, i, y + 1, r.x1 as int) by {}
            }
            y = y + 1;
        }
        proof {
            assert forall|i: int| 0 <= i < NUM_TILES implies
                carved_upto(r, i, r.y2 as int, r.x1 as int) == room_cell(r, i) by {}
        }
    }

    /// Whether the candidate overlaps or touches one of the rooms placed so far.
    fn overlaps_any(&self, room: &Rect) -> (b: bool)
        ensures
            b == exists|k: int| 0 <= k < self.rooms@.len() && room.spec_intersects(#[trigger] self.rooms@[k]),
    {
        let mut overlap = false;
        let mut k: usize = 0;
        while k < self.rooms.len()
            invariant
                k <= self.rooms@.len(),
                overlap == exists|j: int| 0 <= j < k && room.spec_intersects(#[trigger] self.rooms@[j]),
            decreases self.rooms@.len() - k,
        {
            if room.intersect(&self.rooms[k]) {
                overlap = true;
            }
            k = k + 1;
        }
        overlap
    }

    /// Keeps a candidate room if it neither overlaps nor touches a room
    /// placed so far: then it is dug out and added to the rooms. Returns
    /// whether it was kept.
    pub fn try_room(&mut self, room: Rect) -> (kept: bool)
        requires
            old(self).wf(),
            room_in_bounds(room),
        ensures
            final(self).wf(),
            kept == !exists|k: int| 0 <= k < old(self).rooms@.len() && room.spec_intersects(#[trigger] old(self).rooms@[k]),
            kept ==> final(self).rooms@ == old(self).rooms@.push(room),
            kept ==> dug(old(self).map.tiles@, final(self).map.tiles@, |i: int| room_cell(room, i)),
            !kept ==> final(self).rooms == old(self).rooms && final(self).map == old(self).map,
            final(self).map.revealed_tiles == old(self).map.revealed_tiles,
            final(self).monster_spawns == old(self).monster_spawns,
            final(self).player_start == old(self).player_start,
            final(self).amulet_start == old(self).amulet_start,
            final(self).theme == old(self).theme,
    {
        let overlap = self.overlaps_any(&room);
        if !overlap {
            self.carve_room(&room);
            self.rooms.push(room);
        }
        !overlap
    }

    /// Places random rooms until there are `NUM_ROOMS` of them: each
    /// candidate is drawn at random (see `room_drawn`), dropped if it
    /// overlaps or touches a placed room, and otherwise dug out and kept.
    /// The number of candidates is counted in a `u64`; the result is whether
    /// `NUM_ROOMS` rooms stand, which fails only if every one of `u64::MAX`
    /// candidates were dropped.
    pub fn build_random_rooms(&mut self, rng: &mut RandomNumberGenerator) -> (done: bool)
        requires
            old(self).wf(),
        ensures
            final(self).wf(),
            done == (final(self).rooms@.len() >= NUM_ROOMS),
            final(self).rooms@.len() >= old(self).rooms@.len(),
            old(self).rooms@.len() <= NUM_ROOMS ==> final(self).rooms@.len() <= NUM_ROOMS,
            old(self).rooms@.len() >= NUM_ROOMS ==> final(self).rooms == old(self).rooms && final(self).map == old(self).map,
            final(self).rooms@.subrange(0, old(self).rooms@.len() as int) == old(self).rooms@,
            apart_from(final(self).rooms@, old(self).rooms@.len() as int),
            rooms_disjoint(old(self).rooms@) ==> rooms_disjoint(final(self).rooms@),
            forall|k: int| old(self).rooms@.len() <= k < final(self).rooms@.len() ==> room_drawn(#[trigger] final(self).rooms@[k]),
            dug(old(self).map.tiles@, final(self).map.tiles@,
                |i: int| in_rooms_from(final(self).rooms@, old(self).rooms@.len() as int, i)),
            final(self).map.revealed_tiles == old(self).map.revealed_tiles,
            final(self).monster_spawns == old(self).monster_spawns,
            final(self).player_start == old(self).player_start,
            final(self).amulet_start == old(self).amulet_start,
            final(self).theme == old(self).theme,
    {
        let ghost n0 = old(self).rooms@.len() as int;
        let mut attempts: u64 = 0;
        while self.rooms.len() < NUM_ROOMS && attempts < u64::MAX
            invariant
                self.wf(),
                n0 == old(self).rooms@.len(),
                self.rooms@.len() >= n0,
                n0 <= NUM_ROOMS ==> self.rooms@.len() <= NUM_ROOMS,
                n0 >= NUM_ROOMS ==> self.rooms == old(self).rooms && self.map == old(self).map,
                self.rooms@.subrange(0, n0) == old(self).rooms@,
                apart_from(self.rooms@, n0),
                forall|k: int| n0 <= k < self.rooms@.len() ==> room_drawn(#[trigger] self.rooms@[k]),
                forall|i: int| 0 <= i < NUM_TILES ==> #[trigger] self.map.tiles@[i] == (
                    if in_rooms_from(self.rooms@, n0, i) { TileType::Floor } else { old(self).map.tiles@[i] }),
                self.map.revealed_tiles == old(self).map.revealed_tiles,
                self.monster_spawns == old(self).monster_spawns,
                self.player_start == old(self).player_start,
                self.amulet_start == old(self).amulet_start,
                self.theme == old(self).theme,
            decreases u64::MAX - attempts,
        {
            let x = rng_range(rng, 1, SCREEN_WIDTH - 10);
            let y = rng_range(rng, 1, SCREEN_HEIGHT - 10);
            let w = rng_range(rng, 2, 10);
            let h = rng_range(rng, 2, 10);
            let room = Rect::with_size(x, y, w, h);
            let ghost before = self.map.tiles@;
            let ghost rooms_before = self.rooms@;
            let kept = self.try_room(room);
            if kept {
                proof {
                    assert(self.rooms@.subrange(0, n0) =~= rooms_before.subrange(0, n0));
                    assert forall|a: int, b: int| 0 <= a < b < self.rooms@.len() && n0 <= b implies
                        !(#[trigger] self.rooms@[a]).spec_intersects(#[trigger] self.rooms@[b]) by {
                        if b == self.rooms@.len() - 1 {
                            assert(self.rooms@[a] == rooms_before[a]);
                            assert(!room.spec_intersects(rooms_before[a]));
                        } else {
                            assert(self.rooms@[a] == rooms_before[a]);
                            assert(self.rooms@[b] == rooms_before[b]);
                        }
                    }
                    assert forall|k: int| n0 <= k < self.rooms@.len() implies room_drawn(#[trigger] self.rooms@[k]) by {
                        if k < rooms_before.len() { assert(self.rooms@[k] == rooms_before[k]); }
                    }
                    assert forall|i: int| 0 <= i < NUM_TILES implies #[trigger] self.map.tiles@[i] == (
                        if in_rooms_from(self.rooms@, n0, i) { TileType::Floor } else { old(self).map.tiles@[i] }) by {
                        let last = self.rooms@.len() - 1;
                        if in_rooms_from(rooms_before, n0, i) {
                            let k = choose|k: int| n0 <= k < rooms_before.len() && room_cell(#[trigger] rooms_before[k], i);
                            assert(self.rooms@[k] == rooms_before[k]);
                        }
                        if room_cell(room, i) {
                            assert(self.rooms@[last] == room);
                        }
                        if in_rooms_from(self.rooms@, n0, i) && !room_cell(room, i) {
                            let k = choose|k: int| n0 <= k < self.rooms@.len() && room_cell(#[trigger] self.rooms@[k], i);
                            assert(k != last);
                            assert(self.rooms@[k] == rooms_before[k]);
                        }
                    }
                }
            }
            attempts = attempts + 1;
        }
        proof {
            if rooms_disjoint(old(self).rooms@) {
                assert forall|a: int, b: int| 0 <= a < b < self.rooms@.len() implies
                    !(#[trigger] self.rooms@[a]).spec_intersects(#[trigger] self.rooms@[b]) by {
                    if b < n0 {
                        assert(self.rooms@[a] == self.rooms@.subrange(0, n0)[a]);
                        assert(self.rooms@[b] == self.rooms@.subrange(0, n0)[b]);
                    }
                }
            }
        }
        self.rooms.len() >= NUM_ROOMS
    }

    /// The rooms ordered by the column of their centers; rooms with equal
    /// columns keep their order.
    pub fn rooms_by_center_x(rooms: &Vec<Rect>) -> (out: Vec<Rect>)
        requires
            forall|k: int| 0 <= k < rooms@.len() ==> center_on_map(#[trigger] rooms@[k]),
        ensures
            out@ == by_center_x(rooms@),
            out@.to_multiset() == rooms@.to_multiset(),
            sorted_by_center_x(out@),
            forall|k: int| 0 <= k < out@.len() ==> center_on_map(#[trigger] out@[k]),
    {
        let mut out: Vec<Rect> = Vec::new();
        let mut i: usize = 0;
        assert(rooms@.subrange(0, 0) =~= out@);
        assert(by_center_x(rooms@.subrange(0, 0)) == rooms@.subrange(0, 0));
        while i < rooms.len()
            invariant
                i <= rooms@.len(),
                forall|k: int| 0 <= k < rooms@.len() ==> center_on_map(#[trigger] rooms@[k]),
                out@.to_multiset() == rooms@.subrange(0, i as int).to_multiset(),
                out@ == by_center_x(rooms@.subrange(0, i as int)),
                sorted_by_center_x(out@),
                forall|k: int| 0 <= k < out@.len() ==> center_on_map(#[trigger] out@[k]),
            decreases rooms@.len() - i,
        {
            let r = rooms[i];
            let key = r.center().x;
            let mut p = out.len();
            while p > 0 && out[p - 1].center().x > key
                invariant
                    p <= out@.len(),
                    forall|k: int| 0 <= k < out@.len() ==> center_on_map(#[trigger] out@[k]),
                    forall|k: int| p <= k < out@.len() ==> center_x(#[trigger] out@[k]) > key,
                    key == center_x(r),
                decreases p,
            {
                p = p - 1;
            }
            let ghost before = out@;
            proof {
                assert forall|k: int| 0 <= k < p implies center_x(#[trigger] before[k]) <= key by {
                    assert(center_x(before[k]) <= center_x(before[p - 1]));
                }
                lemma_count_split(before, key as int, p as int);
                let sub1 = rooms@.subrange(0, i + 1);
                assert(sub1.drop_last() =~= rooms@.subrange(0, i as int));
                assert(sub1.last() == r);
            }
            out.insert(p, r);
            proof {
                assert(rooms@.subrange(0, i + 1) =~= rooms@.subrange(0, i as int).push(r));
                assert(out@ =~= before.insert(p as int, r));
                vstd::seq_lib::to_multiset_insert(before, p as int, r);
                vstd::seq_lib::to_multiset_build(rooms@.subrange(0, i as int), r);
                assert forall|a: int, b: int| 0 <= a < b < out@.len() implies
                    center_x(#[trigger] out@[a]) <= center_x(#[trigger] out@[b]) by {
                    if b < p {
                    } else if b == p {
                        if a < p && p > 0 {
                            assert(center_x(before[a]) <= center_x(before[p - 1]));
                        }
                    } else if a < p {
                        assert(center_x(before[a]) <= center_x(before[b - 1]));
                    } else if a == p {
                    } else {
                        assert(center_x(before[a - 1]) <= center_x(before[b - 1]));
                    }
                }
            }
            i = i + 1;
        }
        assert(rooms@.subrange(0, rooms@.len() as int) =~= rooms@);
        out
    }

    /// Joins the rooms, taken in the order of their centers' columns, each
    /// to the next by an L-shaped tunnel whose bend a coin flip chooses.
    pub fn build_corridors(&mut self, rng: &mut RandomNumberGenerator)
        requires
            old(self).wf(),
            forall|k: int| 0 <= k < old(self).rooms@.len() ==> center_on_map(#[trigger] old(self).rooms@[k]),
        ensures
            final(self).wf(),
            only_dug(old(self).map.tiles@, final(self).map.tiles@),
            forall|k: int| 1 <= k < by_center_x(old(self).rooms@).len() ==> joined(final(self).map.tiles@,
                (#[trigger] by_center_x(old(self).rooms@)[k - 1]).spec_center(), by_center_x(old(self).rooms@)[k].spec_center()),
            forall|i: int| 0 <= i < NUM_TILES && #[trigger] final(self).map.tiles@[i] != old(self).map.tiles@[i]
                ==> on_corridor(by_center_x(old(self).rooms@), i),
            exists|order: Seq<Rect>| {
                &&& order.to_multiset() == old(self).rooms@.to_multiset()
                &&& sorted_by_center_x(order)
                &&& forall|k: int| 1 <= k < order.len() ==> joined(final(self).map.tiles@,
                        (#[trigger] order[k - 1]).spec_center(), order[k].spec_center())
            },
            forall|k: int| 1 <= k < by_center_x(old(self).rooms@).len()
                && old(self).map.tiles@[cell_of(by_center_x(old(self).rooms@)[k - 1].spec_center())] == TileType::Floor
                && old(self).map.tiles@[cell_of(by_center_x(old(self).rooms@)[k].spec_center())] == TileType::Floor
                ==> floor_linked(final(self).map.tiles@,
                    cell_of((#[trigger] by_center_x(old(self).rooms@)[k - 1]).spec_center()),
                    cell_of(by_center_x(old(self).rooms@)[k].spec_center()),
                    steps_between(by_center_x(old(self).rooms@)[k - 1].spec_center(),
                        by_center_x(old(self).rooms@)[k].spec_center())),
            final(self).map.revealed_tiles == old(self).map.revealed_tiles,
            final(self).rooms == old(self).rooms,
            final(self).monster_spawns == old(self).monster_spawns,
            final(self).player_start == old(self).player_start,
            final(self).amulet_start == old(self).amulet_start,
            final(self).theme == old(self).theme,
    {
        let rooms = Self::rooms_by_center_x(&self.rooms);
        let mut i: usize = 1;
        while i < rooms.len()
            invariant
                1 <= i,
                i <= rooms@.len() || rooms@.len() == 0,
                forall|k: int| 0 <= k < rooms@.len() ==> center_on_map(#[trigger] rooms@[k]),
                self.wf(),
                only_dug(old(self).map.tiles@, self.map.tiles@),
                forall|k: int| 1 <= k < i && k < rooms@.len() ==> joined(self.map.tiles@,
                    (#[trigger] rooms@[k - 1]).spec_center(), rooms@[k].spec_center()),
                rooms@ == by_center_x(old(self).rooms@),
                forall|j: int| 0 <= j < NUM_TILES && #[trigger] self.map.tiles@[j] != old(self).map.tiles@[j]
                    ==> exists|k: int| 1 <= k < i && k < rooms@.len()
                        && on_tunnels(j, (#[trigger] rooms@[k - 1]).spec_center(), rooms@[k].spec_center()),
                self.map.revealed_tiles == old(self).map.revealed_tiles,
                self.rooms == old(self).rooms,
                self.monster_spawns == old(self).monster_spawns,
                self.player_start == old(self).player_start,
                self.amulet_start == old(self).amulet_start,
                self.theme == old(self).theme,
            decreases rooms@.len() - i,
        {
            let prev = rooms[i - 1].center();
            let cur = rooms[i].center();
            let ghost t0 = self.map.tiles@;
            if rng_range(rng, 0, 2) == 1 {
                self.create_horizontal_tunnel(prev.y, prev.x, cur.x + 1);
                let ghost t1 = self.map.tiles@;
                self.create_vertical_tunnel(cur.x, prev.y, cur.y);
                proof {
                    assert(all_floor(self.map.tiles@, |j: int| on_h_run(j, prev.y as int, prev.x as int, cur.x + 1)));
                }
            } else {
                self.create_vertical_tunnel(prev.x, prev.y, cur.y);
                let ghost t1 = self.map.tiles@;
                self.create_horizontal_tunnel(cur.y, prev.x, cur.x);
                proof {
                    assert(all_floor(self.map.tiles@, |j: int| on_v_run(j, prev.x as int, prev.y as int, cur.y as int)));
                }
            }
            proof {
                assert forall|j: int| 0 <= j < NUM_TILES && #[trigger] self.map.tiles@[j] != old(self).map.tiles@[j]
                    implies exists|k: int| 1 <= k < i + 1 && k < rooms@.len()
                        && on_tunnels(j, (#[trigger] rooms@[k - 1]).spec_center(), rooms@[k].spec_center()) by {
                    if self.map.tiles@[j] != t0[j] {
                        assert(on_tunnels(j, rooms@[i - 1].spec_center(), rooms@[i as int].spec_center()));
                    } else {
                        assert(t0[j] != old(self).map.tiles@[j]);
                    }
                }
                assert forall|k: int| 1 <= k < i + 1 && k < rooms@.len() implies joined(self.map.tiles@,
                    (#[trigger] rooms@[k - 1]).spec_center(), rooms@[k].spec_center()) by {
                    if k < i {
                        let a = rooms@[k - 1].spec_center();
                        let b = rooms@[k].spec_center();
                        assert(joined(t0, a, b));
                    }
                }
            }
            i = i + 1;
        }
        proof {
            assert forall|j: int| 0 <= j < NUM_TILES && #[trigger] self.map.tiles@[j] != old(self).map.tiles@[j]
                implies on_corridor(by_center_x(old(self).rooms@), j) by {
                let k = choose|k: int| 1 <= k < i && k < rooms@.len()
                    && on_tunnels(j, (#[trigger] rooms@[k - 1]).spec_center(), rooms@[k].spec_center());
            }
            let t = self.map.tiles@;
            assert forall|k: int| 1 <= k < rooms@.len()
                && old(self).map.tiles@[cell_of(rooms@[k - 1].spec_center())] == TileType::Floor
                && old(self).map.tiles@[cell_of(rooms@[k].spec_center())] == TileType::Floor
                implies floor_linked(t, cell_of((#[trigger] rooms@[k - 1]).spec_center()),
                    cell_of(rooms@[k].spec_center()),
                    steps_between(rooms@[k - 1].spec_center(), rooms@[k].spec_center())) by {
                let a = rooms@[k - 1].spec_center();
                let b = rooms@[k].spec_center();
                assert(center_on_map(rooms@[k - 1]) && center_on_map(rooms@[k]));
                assert(center_x(rooms@[k - 1]) <= center_x(rooms@[k]));
                lemma_idx_point(a);
                lemma_idx_point(b);
                assert(t[cell_of(a)] == TileType::Floor);
                assert(t[cell_of(b)] == TileType::Floor);
                lemma_corridor_path(t, a, b);
            }
        }
    }

    /// Picks up to `NUM_MONSTERS + 1` distinct cells at random among those
    /// where a monster may start. Where fewer such cells exist, all of them
    /// are taken.
    pub fn spawn_monsters(&self, start: &Point, rng: &mut RandomNumberGenerator) -> (spawns: Vec<Point>)
        requires
            self.wf(),
        ensures
            spawns@.len() == if spawnable_count(&self.map, *start) < NUM_MONSTERS + 1 {
                spawnable_count(&self.map, *start)
            } else {
                (NUM_MONSTERS + 1) as nat
            },
            spawns@.no_duplicates(),
            forall|k: int| 0 <= k < spawns@.len() ==> spawnable(&self.map, *start, #[trigger] spawns@[k]),
            exists|draws: Seq<usize>| {
                &&& draws_fit(spawnable_upto(&self.map, *start, NUM_TILES as int), draws)
                &&& #[trigger] pick_state(spawnable_upto(&self.map, *start, NUM_TILES as int), draws).0 == spawns@
            },
    {
        let ghost pred = |i: int| spawnable(&self.map, *start, spec_point_of(i));
        let mut spawnable_points: Vec<Point> = Vec::new();
        let mut idx: usize = 0;
        while idx < NUM_TILES
            invariant
                idx <= NUM_TILES,
                self.wf(),
                pred == (|i: int| spawnable(&self.map, *start, spec_point_of(i))),
                spawnable_points@.len() == count_upto(idx as int, pred),
                spawnable_points@.no_duplicates(),
                forall|k: int| 0 <= k < spawnable_points@.len() ==> spawnable(&self.map, *start, #[trigger] spawnable_points@[k]),
                forall|k: int| 0 <= k < spawnable_points@.len() ==>
                    crate::map::spec_idx((#[trigger] spawnable_points@[k]).x as int, spawnable_points@[k].y as int) < idx,
                spawnable_points@ == spawnable_upto(&self.map, *start, idx as int),
            decreases NUM_TILES - idx,
        {
            proof { crate::map::lemma_point_idx(idx as int); }
            let p = self.map.index_to_point2d(idx);
            if self.map.tiles[idx] == TileType::Floor && far_from(p, *start) {
                let ghost before = spawnable_points@;
                spawnable_points.push(p);
                proof {
                    assert forall|a: int, b: int| 0 <= a < b < spawnable_points@.len() implies
                        spawnable_points@[a] != spawnable_points@[b] by {
                        if b == spawnable_points@.len() - 1 {
                            assert(crate::map::spec_idx(before[a].x as int, before[a].y as int) < idx);
                        }
                    }
                }
            }
            idx = idx + 1;
        }
        proof { lemma_count_upto_bound(NUM_TILES as int, pred); }
        let ghost pool = spawnable_points@;
        let ghost mut draws: Seq<usize> = Seq::empty();
        let mut spawns: Vec<Point> = Vec::new();
        let mut n: usize = 0;
        while n < NUM_MONSTERS + 1 && spawnable_points.len() > 0
            invariant
                n <= NUM_MONSTERS + 1,
                spawns@.len() == n,
                spawns@.len() + spawnable_points@.len() == spawnable_count(&self.map, *start),
                spawnable_points@.len() <= NUM_TILES,
                spawns@.no_duplicates(),
                spawnable_points@.no_duplicates(),
                forall|a: int, b: int| 0 <= a < spawns@.len() && 0 <= b < spawnable_points@.len() ==>
                    #[trigger] spawns@[a] != #[trigger] spawnable_points@[b],
                forall|k: int| 0 <= k < spawnable_points@.len() ==> spawnable(&self.map, *start, #[trigger] spawnable_points@[k]),
                forall|k: int| 0 <= k < spawns@.len() ==> spawnable(&self.map, *start, #[trigger] spawns@[k]),
                pool == spawnable_upto(&self.map, *start, NUM_TILES as int),
                draws.len() == spawns@.len(),
                draws_fit(pool, draws),
                pick_state(pool, draws) == (spawns@, spawnable_points@),
                spawnable_points@.len() == pool.len() - draws.len(),
            decreases NUM_MONSTERS + 1 - n,
        {
            match rng_slice_index(rng, &spawnable_points) {
                Some(i) => {
                    let ghost sp = spawnable_points@;
                    let ghost sw = spawns@;
                    let ghost prev_draws = draws;
                    let p = take_pick(&mut spawnable_points, i);
                    spawns.push(p);
                    proof {
                        draws = draws.push(i);
                        assert(draws.drop_last() =~= prev_draws);
                        assert forall|k: int| 0 <= k < draws.len() implies (#[trigger] draws[k]) < pool.len() - k by {
                            if k < prev_draws.len() { assert(draws[k] == prev_draws[k]); }
                        }
                        assert forall|a: int, b: int| 0 <= a < b < spawns@.len() implies spawns@[a] != spawns@[b] by {
                            if b == spawns@.len() - 1 {
                                assert(sw[a] != sp[i as int]);
                            }
                        }
                        assert forall|a: int, b: int| 0 <= a < b < spawnable_points@.len() implies
                            spawnable_points@[a] != spawnable_points@[b] by {
                            let a0 = if a < i { a } else { a + 1 };
                            let b0 = if b < i { b } else { b + 1 };
                            assert(spawnable_points@[a] == sp[a0]);
                            assert(spawnable_points@[b] == sp[b0]);
                        }
                        assert forall|a: int, b: int| 0 <= a < spawns@.len() && 0 <= b < spawnable_points@.len() implies
                            #[trigger] spawns@[a] != #[trigger] spawnable_points@[b] by {
                            let b0 = if b < i { b } else { b + 1 };
                            assert(spawnable_points@[b] == sp[b0]);
                            if a == spawns@.len() - 1 {
                                assert(b0 != i);
                            } else {
                                assert(sw[a] != sp[b0]);
                            }
                        }
                        assert forall|k: int| 0 <= k < spawnable_points@.len() implies
                            spawnable(&self.map, *start, #[trigger] spawnable_points@[k]) by {
                            let k0 = if k < i { k } else { k + 1 };
                            assert(spawnable_points@[k] == sp[k0]);
                        }
                    }
                },
                None => {},
            }
            n = n + 1;
        }
        proof {
            assert(draws_fit(pool, draws));
            assert(pick_state(pool, draws).0 == spawns@);
        }
        spawns
    }

    /// The cell of the map that lies farthest from the player's start, by
    /// the distances that `pathing` reports from there.
    pub fn find_most_distant<F: Fn(&TileMap, usize) -> DistanceField>(&self, pathing: &F) -> (r: Option<Point>)
        requires
            self.wf(),
            on_map(self.player_start),
            pathing_ok(pathing),
        ensures
            exists|d: DistanceField| {
                &&& pathing.ensures((&self.map, crate::map::spec_idx(self.player_start.x as int, self.player_start.y as int) as usize), d)
                &&& (r is None <==> !any_reached(d@))
                &&& (r matches Some(p) ==> exists|i: int| is_most_distant(d@, i) && p == spec_point_of(i))
            },
    {
        let start = self.map.point2d_to_index(self.player_start);
        let d = pathing(&self.map, start);
        most_distant(&d)
    }

    /// Puts the amulet on the cell farthest from the player's start; where
    /// the search reaches no cell at all, the amulet stays where it was.
    pub fn place_amulet<F: Fn(&TileMap, usize) -> DistanceField>(&mut self, pathing: &F)
        requires
            old(self).wf(),
            on_map(old(self).player_start),
            pathing_ok(pathing),
        ensures
            final(self).wf(),
            amulet_rule(pathing, &final(self).map, final(self).player_start, old(self).amulet_start, final(self).amulet_start),
            final(self).map == old(self).map,
            final(self).rooms == old(self).rooms,
            final(self).monster_spawns == old(self).monster_spawns,
            final(self).player_start == old(self).player_start,
            final(self).theme == old(self).theme,
    {
        let start = self.map.point2d_to_index(self.player_start);
        let d = pathing(&self.map, start);
        match most_distant(&d) {
            Some(p) => { self.amulet_start = p; },
            None => {},
        }
    }

    /// Lays out a new level: an architect drawn at random (drunkard's walk,
    /// rooms and corridors, or cellular automata) builds the map, the
    /// fortress vault is placed if a spot is found, and a theme is drawn at
    /// random. Returns the builder, the name of the architect used and the
    /// corner where the vault went.
    pub fn new<F: Fn(&TileMap, usize) -> DistanceField>(rnd: &mut RandomNumberGenerator, pathing: &F) -> (r: (MapBuilder, String, Option<Point>))
        requires
            pathing_ok(pathing),
        ensures
            exists|draw: int, pre: MapBuilder, mid: MapBuilder| {
                &&& 0 <= draw < 3
                &&& r.1@ == architect_name(spec_architect_for(draw))
                &&& #[trigger] architect_layout(pathing, spec_architect_for(draw), &pre)
                &&& #[trigger] prefab_outcome(pathing, &pre, &mid, r.2)
                &&& same_but_theme(&r.0, &mid)
            },
            exists|theme_draw: int| 0 <= theme_draw < 2 && #[trigger] themed_by(&r.0, theme_draw),
            r.0.wf(),
            on_map(r.0.player_start),
            on_map(r.0.amulet_start),
            forall|i: int| 0 <= i < NUM_TILES ==> !(#[trigger] r.0.map.revealed_tiles@[i]),
    {
        let choice = rng_range(rnd, 0, 3);
        let kind = architect_for(choice);
        let (mut map_builder, name) = match kind {
            ArchitectKind::DrunkardsWalk => {
                let mut architect = DrunkardsWalkArchitect {};
                let (mb, _dug) = architect.new(rnd, pathing);
                (mb, architect.who_am_i())
            },
            ArchitectKind::Rooms => {
                let mut architect = RoomsArchitect {};
                let (mb, _done) = architect.new(rnd, pathing);
                (mb, architect.who_am_i())
            },
            ArchitectKind::CellularAutomata => {
                let mut architect = CellularAutomataArchitect {};
                let mb = architect.new(rnd, pathing);
                (mb, architect.who_am_i())
            },
        };
        let ghost pre = map_builder;
        assert(name@ == architect_name(kind) && architect_layout(pathing, kind, &pre));
        let placement = apply_prefab(&mut map_builder, rnd, pathing);
        let ghost placed = map_builder;
        let theme_draw = rng_range(rnd, 0, 2);
        let built = with_theme(map_builder, theme_draw);
        let ghost nameg = name;
        let r = (built, name, placement);
        assert(r.1 == nameg);
        assert(r.0.map == placed.map);
        assert(r.0.rooms == placed.rooms);
        assert(r.0.monster_spawns == placed.monster_spawns);
        assert(r.0.player_start == placed.player_start && r.0.amulet_start == placed.amulet_start);
        assert(prefab_outcome(pathing, &pre, &placed, r.2));
        assert(same_but_theme(&r.0, &placed));
        assert(architect_layout(pathing, spec_architect_for(choice as int), &pre));
        r
    }
}

/// The builder's theme is the one a theme draw picks: the dungeon theme
/// for a draw of zero, the forest theme for any other.
pub open spec fn themed_by(mb: &MapBuilder, draw: int) -> bool {
    if draw == 0 {
        &&& mb.theme.name_of() == "DungeonTheme"@
        &&& forall|t: TileType| #[trigger] mb.theme.glyph_of(t) == dungeon_glyph(t)
    } else {
        &&& mb.theme.name_of() == "ForestTheme"@
        &&& forall|t: TileType| #[trigger] mb.theme.glyph_of(t) == forest_glyph(t)
    }
}

/// The builder with the theme that `draw` picks, all else kept: the
/// dungeon theme for a draw of zero, the forest theme otherwise.
pub fn with_theme(mb: MapBuilder, draw: i32) -> (r: MapBuilder)
    ensures
        same_but_theme(&r, &mb),
        themed_by(&r, draw as int),
{
    let MapBuilder { map, theme: _, rooms, monster_spawns, player_start, amulet_start } = mb;
    if draw == 0 {
        MapBuilder { map, theme: Box::new(DungeonTheme {}), rooms, monster_spawns, player_start, amulet_start }
    } else {
        MapBuilder { map, theme: Box::new(ForestTheme {}), rooms, monster_spawns, player_start, amulet_start }
    }
}

/// Two builders that differ at most in their theme.
pub open spec fn same_but_theme(a: &MapBuilder, b: &MapBuilder) -> bool {
    &&& a.map == b.map
    &&& a.rooms == b.rooms
    &&& a.monster_spawns == b.monster_spawns
    &&& a.player_start == b.player_start
    &&& a.amulet_start == b.amulet_start
}

/// The three architects that a level can be laid out by.
#[derive(Clone, Copy, Debug, PartialEq, Eq, Structural)]
pub enum ArchitectKind {
    DrunkardsWalk,
    Rooms,
    CellularAutomata,
}

/// The architect of a draw from `0..3`: zero the drunkard's walk, one rooms
/// and corridors, any other the cellular automata.
pub open spec fn spec_architect_for(draw: int) -> ArchitectKind {
    if draw == 0 {
        ArchitectKind::DrunkardsWalk
    } else if draw == 1 {
        ArchitectKind::Rooms
    } else {
        ArchitectKind::CellularAutomata
    }
}

/// The architect of a draw.
pub fn architect_for(draw: i32) -> (k: ArchitectKind)
    ensures
        k == spec_architect_for(draw as int),
{
    if draw == 0 {
        ArchitectKind::DrunkardsWalk
    } else if draw == 1 {
        ArchitectKind::Rooms
    } else {
        ArchitectKind::CellularAutomata
    }
}

/// The name an architect gives itself.
pub open spec fn architect_name(k: ArchitectKind) -> Seq<char> {
    match k {
        ArchitectKind::DrunkardsWalk => "DrunkardsWalkArchitect"@,
        ArchitectKind::Rooms => "RoomsArchitect"@,
        ArchitectKind::CellularAutomata => "CellularAutomataArchitect"@,
    }
}

/// The level that an architect lays out.
pub open spec fn architect_layout<F: Fn(&TileMap, usize) -> DistanceField>(pathing: &F, k: ArchitectKind, mb: &MapBuilder) -> bool {
    match k {
        ArchitectKind::DrunkardsWalk => walked_layout(pathing, mb),
        ArchitectKind::Rooms => rooms_layout(pathing, mb),
        ArchitectKind::CellularAutomata => caves_layout(pathing, mb),
    }
}

} // verus!
