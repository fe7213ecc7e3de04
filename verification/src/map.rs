use vstd::prelude::*;
use crate::geometry::Point;

verus! {

/// Width of the map in tiles.
pub const SCREEN_WIDTH: i32 = 80;
/// Height of the map in tiles.
pub const SCREEN_HEIGHT: i32 = 50;
/// Number of tiles of the map.
pub const NUM_TILES: usize = 4000;

#[derive(Clone, Copy, Debug, PartialEq, Eq, Structural)]
pub enum TileType {
    Wall,
    Floor,
    Exit,
}

/// Whether a point lies on the map.
pub open spec fn on_map(p: Point) -> bool {
    0 <= p.x < SCREEN_WIDTH && 0 <= p.y < SCREEN_HEIGHT
}

/// Row-major index of a cell.
pub open spec fn spec_idx(x: int, y: int) -> int {
    y * SCREEN_WIDTH + x
}

/// The cell that a row-major index names.
pub open spec fn spec_point_of(idx: int) -> Point {
    Point { x: (idx % SCREEN_WIDTH as int) as i32, y: (idx / SCREEN_WIDTH as int) as i32 }
}

/// Index and cell are two names of one tile.
pub proof fn lemma_idx_point(p: Point)
    requires
        on_map(p),
    ensures
        0 <= spec_idx(p.x as int, p.y as int) < NUM_TILES,
        spec_point_of(spec_idx(p.x as int, p.y as int)) == p,
{
    let i = spec_idx(p.x as int, p.y as int);
    assert(0 <= i < 4000) by (nonlinear_arith)
        requires i == p.y * 80 + p.x, 0 <= p.x < 80, 0 <= p.y < 50;
    assert(i % 80 == p.x && i / 80 == p.y) by (nonlinear_arith)
        requires i == p.y * 80 + p.x, 0 <= p.x < 80, 0 <= p.y < 50;
}

/// The cell of an index lies on the map, and indexing it gives the index back.
pub proof fn lemma_point_idx(idx: int)
    requires
        0 <= idx < NUM_TILES,
    ensures
        on_map(spec_point_of(idx)),
        spec_idx(spec_point_of(idx).x as int, spec_point_of(idx).y as int) == idx,
{
    assert(0 <= idx % 80 < 80 && 0 <= idx / 80 < 50 && (idx / 80) * 80 + idx % 80 == idx)
        by (nonlinear_arith)
        requires 0 <= idx < 4000;
}

/// Row-major index of an on-map cell.
pub fn map_idx(x: i32, y: i32) -> (idx: usize)
    requires
        0 <= x < SCREEN_WIDTH,
        0 <= y < SCREEN_HEIGHT,
    ensures
        idx == spec_idx(x as int, y as int),
        idx < NUM_TILES,
{
    proof { lemma_idx_point(Point { x, y }); }
    (y * SCREEN_WIDTH + x) as usize
}

/// The dungeon level: one tile type and one "revealed" flag per cell.
pub struct TileMap {
    pub tiles: Vec<TileType>,
    pub revealed_tiles: Vec<bool>,
}

impl TileMap {
    /// Both layers cover the whole grid.
    pub open spec fn wf(&self) -> bool {
        self.tiles@.len() == NUM_TILES && self.revealed_tiles@.len() == NUM_TILES
    }

    /// The tile at an on-map cell.
    pub open spec fn tile_at(&self, p: Point) -> TileType {
        self.tiles@[spec_idx(p.x as int, p.y as int)]
    }

    /// Number of floor tiles among the first `n` tiles.
    pub open spec fn floor_count_upto(tiles: Seq<TileType>, n: int) -> nat
        decreases n,
    {
        if n <= 0 {
            0
        } else {
            Self::floor_count_upto(tiles, n - 1) + (if tiles[n - 1] == TileType::Floor { 1nat } else { 0nat })
        }
    }

    /// Number of floor tiles of the map.
    pub open spec fn floor_count(&self) -> nat {
        Self::floor_count_upto(self.tiles@, self.tiles@.len() as int)
    }

    /// A map whose every tile is floor, nothing yet revealed.
    pub fn new() -> (m: TileMap)
        ensures
            m.wf(),
            forall|i: int| 0 <= i < NUM_TILES ==> m.tiles@[i] == TileType::Floor,
            forall|i: int| 0 <= i < NUM_TILES ==> !m.revealed_tiles@[i],
    {
        let mut tiles: Vec<TileType> = Vec::new();
        let mut revealed_tiles: Vec<bool> = Vec::new();
        let mut i: usize = 0;
        while i < NUM_TILES
            invariant
                i <= NUM_TILES,
                tiles@.len() == i,
                revealed_tiles@.len() == i,
                forall|j: int| 0 <= j < i ==> tiles@[j] == TileType::Floor,
                forall|j: int| 0 <= j < i ==> !revealed_tiles@[j],
            decreases NUM_TILES - i,
        {
            tiles.push(TileType::Floor);
            revealed_tiles.push(false);
            i = i + 1;
        }
        TileMap { tiles, revealed_tiles }
    }

    /// Whether a point lies on the map.
    pub fn in_bounds(&self, p: Point) -> (b: bool)
        ensures
            b == on_map(p),
    {
        p.x >= 0 && p.x < SCREEN_WIDTH && p.y >= 0 && p.y < SCREEN_HEIGHT
    }

    /// The index of a point, or `None` off the map.
    pub fn try_idx(&self, p: Point) -> (r: Option<usize>)
        ensures
            r == (if on_map(p) { Some(spec_idx(p.x as int, p.y as int) as usize) } else { None::<usize> }),
    {
        if !self.in_bounds(p) {
            None
        } else {
            Some(map_idx(p.x, p.y))
        }
    }

    /// The index of an on-map point.
    pub fn point2d_to_index(&self, p: Point) -> (idx: usize)
        requires
            on_map(p),
        ensures
            idx == spec_idx(p.x as int, p.y as int),
            idx < NUM_TILES,
    {
        map_idx(p.x, p.y)
    }

    /// The cell of an index.
    pub fn index_to_point2d(&self, idx: usize) -> (p: Point)
        requires
            idx <= i32::MAX,
        ensures
            p == spec_point_of(idx as int),
    {
        let i = idx as i32;
        Point { x: i % SCREEN_WIDTH, y: i / SCREEN_WIDTH }
    }

    /// A tile that can be walked on: floor or the exit.
    pub open spec fn spec_can_enter(&self, p: Point) -> bool {
        on_map(p) && (self.tile_at(p) == TileType::Floor || self.tile_at(p) == TileType::Exit)
    }

    /// Whether an entity may stand on the point.
    pub fn can_enter_tile(&self, p: Point) -> (b: bool)
        requires
            self.wf(),
        ensures
            b == self.spec_can_enter(p),
    {
        if !self.in_bounds(p) {
            return false;
        }
        let idx = map_idx(p.x, p.y);
        self.tiles[idx] == TileType::Floor || self.tiles[idx] == TileType::Exit
    }

    /// The neighbor of `from` in direction `d`, if one can step onto it.
    pub open spec fn spec_valid_exit(&self, from: Point, d: Point) -> Option<usize> {
        let dest = Point { x: (from.x + d.x) as i32, y: (from.y + d.y) as i32 };
        if self.spec_can_enter(dest) {
            Some(spec_idx(dest.x as int, dest.y as int) as usize)
        } else {
            None
        }
    }

    /// The walkable neighbors of a tile, west, east, north, south in that order.
    pub open spec fn spec_exits(&self, idx: int) -> Seq<usize> {
        let p = spec_point_of(idx);
        let w = self.spec_valid_exit(p, Point { x: -1i32, y: 0i32 });
        let e = self.spec_valid_exit(p, Point { x: 1i32, y: 0i32 });
        let n = self.spec_valid_exit(p, Point { x: 0i32, y: -1i32 });
        let s = self.spec_valid_exit(p, Point { x: 0i32, y: 1i32 });
        Self::opt_seq(w) + Self::opt_seq(e) + Self::opt_seq(n) + Self::opt_seq(s)
    }

    pub open spec fn opt_seq(o: Option<usize>) -> Seq<usize> {
        match o {
            Some(i) => seq![i],
            None => Seq::empty(),
        }
    }

    fn valid_exit(&self, from: Point, d: Point) -> (r: Option<usize>)
        requires
            self.wf(),
            on_map(from),
            -1 <= d.x <= 1,
            -1 <= d.y <= 1,
        ensures
            r == self.spec_valid_exit(from, d),
    {
        let dest = Point { x: from.x + d.x, y: from.y + d.y };
        if self.can_enter_tile(dest) {
            Some(map_idx(dest.x, dest.y))
        } else {
            None
        }
    }

    /// The tiles one step away from `idx` that can be entered, each at cost
    /// one: the graph that path searches run on.
    pub fn available_exits(&self, idx: usize) -> (exits: Vec<usize>)
        requires
            self.wf(),
            idx < NUM_TILES,
        ensures
            exits@ == self.spec_exits(idx as int),
    {
        proof { lemma_point_idx(idx as int); }
        let p = self.index_to_point2d(idx);
        let mut exits: Vec<usize> = Vec::new();
        let w = self.valid_exit(p, Point { x: -1i32, y: 0i32 });
        if let Some(i) = w { exits.push(i); }
        let e = self.valid_exit(p, Point { x: 1, y: 0 });
        if let Some(i) = e { exits.push(i); }
        let n = self.valid_exit(p, Point { x: 0i32, y: -1i32 });
        if let Some(i) = n { exits.push(i); }
        let s = self.valid_exit(p, Point { x: 0, y: 1 });
        if let Some(i) = s { exits.push(i); }
        assert(exits@ =~= self.spec_exits(idx as int));
        exits
    }

    /// Number of floor tiles.
    pub fn count_floor(&self) -> (n: usize)
        requires
            self.wf(),
        ensures
            n == self.floor_count(),
    {
        let mut n: usize = 0;
        let mut i: usize = 0;
        while i < self.tiles.len()
            invariant
                self.wf(),
                i <= NUM_TILES,
                n == Self::floor_count_upto(self.tiles@, i as int),
                n <= i,
            decreases NUM_TILES - i,
        {
            if self.tiles[i] == TileType::Floor {
                n = n + 1;
            }
            i = i + 1;
        }
        n
    }
}

} // verus!
