use vstd::prelude::*;
use crate::geometry::{Point, Rect};
use crate::map::{TileMap, TileType, on_map, map_idx, spec_idx, spec_point_of, lemma_idx_point, lemma_point_idx, NUM_TILES, SCREEN_WIDTH, SCREEN_HEIGHT};
use crate::map_builder::MapBuilder;
use crate::pathing::{DistanceField, pathing_ok};
use crate::random::rng_range;
use bracket_lib::random::RandomNumberGenerator;

verus! {

/// Width of the fortress vault.
pub const FORTRESS_WIDTH: i32 = 12;
/// Height of the fortress vault.
pub const FORTRESS_HEIGHT: i32 = 11;
/// Placements tried before the vault is given up.
pub const PLACEMENT_ATTEMPTS: usize = 10;

/// The fortress vault, row by row: `-` floor, `#` wall, `M` floor where a
/// monster waits.
///
/// ```text
/// ------------
/// ---######---
/// ---#----#---
/// ---#-M--#---
/// -###----###-
/// --M------M--
/// -###----###-
/// ---#----#---
/// ---#----#---
/// ---######---
/// ------------
/// ```
pub open spec fn fortress_char(row: int, col: int) -> char {
    if row == 0 || row == 10 {
        '-'
    } else if row == 1 || row == 9 {
        if 3 <= col <= 8 { '#' } else { '-' }
    } else if row == 2 || row == 7 || row == 8 {
        if col == 3 || col == 8 { '#' } else { '-' }
    } else if row == 3 {
        if col == 3 || col == 8 { '#' } else if col == 5 { 'M' } else { '-' }
    } else if row == 4 || row == 6 {
        if (1 <= col <= 3) || (8 <= col <= 10) { '#' } else { '-' }
    } else {
        if col == 2 || col == 9 { 'M' } else { '-' }
    }
}

/// The vault's character at a row and column of it.
pub fn fortress_char_at(row: i32, col: i32) -> (c: char)
    ensures
        c == fortress_char(row as int, col as int),
{
    if row == 0 || row == 10 {
        '-'
    } else if row == 1 || row == 9 {
        if 3 <= col && col <= 8 { '#' } else { '-' }
    } else if row == 2 || row == 7 || row == 8 {
        if col == 3 || col == 8 { '#' } else { '-' }
    } else if row == 3 {
        if col == 3 || col == 8 { '#' } else if col == 5 { 'M' } else { '-' }
    } else if row == 4 || row == 6 {
        if (1 <= col && col <= 3) || (8 <= col && col <= 10) { '#' } else { '-' }
    } else {
        if col == 2 || col == 9 { 'M' } else { '-' }
    }
}

/// The vault's rectangle when its top-left corner is at `(x, y)`.
pub open spec fn vault_rect(x: int, y: int) -> Rect {
    Rect { x1: x as i32, y1: y as i32, x2: (x + FORTRESS_WIDTH) as i32, y2: (y + FORTRESS_HEIGHT) as i32 }
}

/// A cell that lets the vault go over it: on the map, reached from the
/// player's start at a distance above 20 and below 2000, and not the
/// amulet's cell.
pub open spec fn good_cell(d: Seq<Option<u32>>, p: Point, amulet: Point) -> bool {
    &&& on_map(p)
    &&& d[spec_idx(p.x as int, p.y as int)] matches Some(v) && 20 < v < 2000
    &&& p != amulet
}

/// The vault may go there: some cell of it is a good cell.
pub open spec fn can_place(d: Seq<Option<u32>>, dims: Rect, amulet: Point) -> bool {
    exists|p: Point| #[trigger] dims.contains(p) && good_cell(d, p, amulet)
}

/// A corner that the placement draws can give.
pub open spec fn corner_in_range(c: Point) -> bool {
    0 <= c.x < SCREEN_WIDTH - FORTRESS_WIDTH && 0 <= c.y < SCREEN_HEIGHT - FORTRESS_HEIGHT
}

/// The vault fits with its corner at `c`.
pub open spec fn corner_fits(d: Seq<Option<u32>>, c: Point, amulet: Point) -> bool {
    can_place(d, vault_rect(c.x as int, c.y as int), amulet)
}

/// The corners drawn in turn, up to `PLACEMENT_ATTEMPTS` of them, stopping
/// at the first that fits, which is `placed`; `None` when none of the
/// `PLACEMENT_ATTEMPTS` drawn corners fits.
pub open spec fn first_fit_draws(d: Seq<Option<u32>>, corners: Seq<Point>, amulet: Point, placed: Option<Point>) -> bool {
    &&& 1 <= corners.len() <= PLACEMENT_ATTEMPTS
    &&& forall|k: int| 0 <= k < corners.len() ==> corner_in_range(#[trigger] corners[k])
    &&& forall|k: int| 0 <= k < corners.len() - 1 ==> !corner_fits(d, #[trigger] corners[k], amulet)
    &&& match placed {
        Some(p) => p == corners.last() && corner_fits(d, p, amulet),
        None => corners.len() == PLACEMENT_ATTEMPTS && !corner_fits(d, corners.last(), amulet),
    }
}

/// Whether the vault fits with its corner at `(x1, y1)`: some cell of its
/// rectangle is a good cell.
pub fn fits(d: &DistanceField, x1: i32, y1: i32, amulet: Point) -> (b: bool)
    requires
        d@.len() == NUM_TILES,
        corner_in_range(Point { x: x1, y: y1 }),
    ensures
        b == corner_fits(d@, Point { x: x1, y: y1 }, amulet),
{
    let dims = Rect::with_size(x1, y1, FORTRESS_WIDTH, FORTRESS_HEIGHT);
    let mut found = false;
    let mut py = dims.y1;
    while py < dims.y2
        invariant
            dims == vault_rect(x1 as int, y1 as int),
            corner_in_range(Point { x: x1, y: y1 }),
            dims.y1 <= py <= dims.y2,
            d@.len() == NUM_TILES,
            found ==> can_place(d@, dims, amulet),
            !found ==> forall|q: Point| #[trigger] dims.contains(q) && q.y < py ==> !good_cell(d@, q, amulet),
        decreases dims.y2 - py,
    {
        let mut px = dims.x1;
        while px < dims.x2
            invariant
                dims == vault_rect(x1 as int, y1 as int),
                corner_in_range(Point { x: x1, y: y1 }),
                dims.y1 <= py < dims.y2,
                dims.x1 <= px <= dims.x2,
                d@.len() == NUM_TILES,
                found ==> can_place(d@, dims, amulet),
                !found ==> forall|q: Point| #[trigger] dims.contains(q) && (q.y < py || (q.y == py && q.x < px))
                    ==> !good_cell(d@, q, amulet),
            decreases dims.x2 - px,
        {
            let p = Point::new(px, py);
            let idx = map_idx(px, py);
            match d[idx] {
                Some(v) => {
                    if v < 2000 && v > 20 && amulet != p {
                        found = true;
                        assert(dims.contains(p) && good_cell(d@, p, amulet));
                    }
                },
                None => {},
            }
            px = px + 1;
        }
        py = py + 1;
    }
    found
}

/// A cell of the vault at `(x, y)` is before `(row, col)` in row-major order.
pub open spec fn before(r: int, c: int, row: int, col: int) -> bool {
    r < row || (r == row && c < col)
}

/// The tiles after stamping the vault at `(x, y)`, for the vault cells
/// before `(row, col)`; the others as they were.
pub open spec fn stamped_upto(old_tiles: Seq<TileType>, x: int, y: int, i: int, row: int, col: int) -> TileType {
    let p = spec_point_of(i);
    let r = p.y - y;
    let c = p.x - x;
    if 0 <= r < FORTRESS_HEIGHT && 0 <= c < FORTRESS_WIDTH && before(r, c, row, col) {
        if fortress_char(r, c) == '#' { TileType::Wall } else { TileType::Floor }
    } else {
        old_tiles[i]
    }
}

/// The tiles after stamping the whole vault at `(x, y)`.
pub open spec fn stamped(old_tiles: Seq<TileType>, x: int, y: int, i: int) -> TileType {
    stamped_upto(old_tiles, x, y, i, FORTRESS_HEIGHT as int, 0)
}

/// The monster cells of the vault at `(x, y)` that come before `(row, col)`,
/// in row-major order.
pub open spec fn vault_monsters_upto(x: int, y: int, row: int, col: int) -> Seq<Point> {
    let a = if before(3, 5, row, col) { seq![Point { x: (x + 5) as i32, y: (y + 3) as i32 }] } else { Seq::empty() };
    let b = if before(5, 2, row, col) { seq![Point { x: (x + 2) as i32, y: (y + 5) as i32 }] } else { Seq::empty() };
    let c = if before(5, 9, row, col) { seq![Point { x: (x + 9) as i32, y: (y + 5) as i32 }] } else { Seq::empty() };
    a + b + c
}

/// The monster cells of the whole vault at `(x, y)`.
pub open spec fn vault_monsters(x: int, y: int) -> Seq<Point> {
    vault_monsters_upto(x, y, FORTRESS_HEIGHT as int, 0)
}

/// The vault placed with its corner at `(x, y)`: its cells stamped over the
/// map, the monster starts inside its rectangle dropped and its own added.
pub open spec fn placed_at(old_mb: &MapBuilder, new_mb: &MapBuilder, x: int, y: int) -> bool {
    &&& new_mb.map.tiles@.len() == NUM_TILES
    &&& forall|i: int| 0 <= i < NUM_TILES ==> #[trigger] new_mb.map.tiles@[i] == stamped(old_mb.map.tiles@, x, y, i)
    &&& new_mb.monster_spawns@ == old_mb.monster_spawns@.filter(|p: Point| !vault_rect(x, y).contains(p)) + vault_monsters(x, y)
}

/// The spawns kept: those outside the rectangle, in their order.
fn drop_spawns_in(spawns: &mut Vec<Point>, dims: Rect)
    ensures
        final(spawns)@ == old(spawns)@.filter(|p: Point| !dims.contains(p)),
{
    let ghost pred = |p: Point| !dims.contains(p);
    let mut kept: Vec<Point> = Vec::new();
    let mut i: usize = 0;
    while i < spawns.len()
        invariant
            i <= spawns@.len(),
            spawns@ == old(spawns)@,
            pred == (|p: Point| !dims.contains(p)),
            kept@ == spawns@.take(i as int).filter(pred),
        decreases spawns@.len() - i,
    {
        reveal_with_fuel(Seq::<Point>::filter, 1);
        let p = spawns[i];
        if !dims.point_in_rect(p) {
            kept.push(p);
        }
        assert(spawns@.take(i + 1).drop_last() =~= spawns@.take(i as int));
        i = i + 1;
    }
    assert(spawns@.take(spawns@.len() as int) =~= spawns@);
    *spawns = kept;
}

impl MapBuilder {
    /// Stamps the vault with its top-left corner at `(x, y)`.
    fn stamp_fortress(&mut self, x: i32, y: i32)
        requires
            old(self).wf(),
            0 <= x <= SCREEN_WIDTH - FORTRESS_WIDTH,
            0 <= y <= SCREEN_HEIGHT - FORTRESS_HEIGHT,
        ensures
            final(self).wf(),
            forall|i: int| 0 <= i < NUM_TILES ==> #[trigger] final(self).map.tiles@[i] == stamped(old(self).map.tiles@, x as int, y as int, i),
            final(self).monster_spawns@ == old(self).monster_spawns@ + vault_monsters(x as int, y as int),
            final(self).map.revealed_tiles == old(self).map.revealed_tiles,
            final(self).rooms == old(self).rooms,
            final(self).player_start == old(self).player_start,
            final(self).amulet_start == old(self).amulet_start,
            final(self).theme == old(self).theme,
    {
        let mut row: i32 = 0;
        while row < FORTRESS_HEIGHT
            invariant
                0 <= x <= SCREEN_WIDTH - FORTRESS_WIDTH,
                0 <= y <= SCREEN_HEIGHT - FORTRESS_HEIGHT,
                0 <= row <= FORTRESS_HEIGHT,
                self.wf(),
                forall|i: int| 0 <= i < NUM_TILES ==> #[trigger] self.map.tiles@[i] == stamped_upto(old(self).map.tiles@, x as int, y as int, i, row as int, 0),
                self.monster_spawns@ == old(self).monster_spawns@ + vault_monsters_upto(x as int, y as int, row as int, 0),
                self.map.revealed_tiles == old(self).map.revealed_tiles,
                self.rooms == old(self).rooms,
                self.player_start == old(self).player_start,
                self.amulet_start == old(self).amulet_start,
                self.theme == old(self).theme,
            decreases FORTRESS_HEIGHT - row,
        {
            let mut col: i32 = 0;
            while col < FORTRESS_WIDTH
                invariant
                    0 <= x <= SCREEN_WIDTH - FORTRESS_WIDTH,
                    0 <= y <= SCREEN_HEIGHT - FORTRESS_HEIGHT,
                    0 <= row < FORTRESS_HEIGHT,
                    0 <= col <= FORTRESS_WIDTH,
                    self.wf(),
                    forall|i: int| 0 <= i < NUM_TILES ==> #[trigger] self.map.tiles@[i] == stamped_upto(old(self).map.tiles@, x as int, y as int, i, row as int, col as int),
                    self.monster_spawns@ == old(self).monster_spawns@ + vault_monsters_upto(x as int, y as int, row as int, col as int),
                    self.map.revealed_tiles == old(self).map.revealed_tiles,
                    self.rooms == old(self).rooms,
                    self.player_start == old(self).player_start,
                    self.amulet_start == old(self).amulet_start,
                    self.theme == old(self).theme,
                decreases FORTRESS_WIDTH - col,
            {
                let px = x + col;
                let py = y + row;
                let index = map_idx(px, py);
                proof { lemma_idx_point(Point { x: px, y: py }); }
                let c = fortress_char_at(row, col);
                let ghost spawns_before = self.monster_spawns@;
                if c == '#' {
                    self.map.tiles.set(index, TileType::Wall);
                } else if c == 'M' {
                    self.map.tiles.set(index, TileType::Floor);
                    self.monster_spawns.push(Point::new(px, py));
                } else {
                    self.map.tiles.set(index, TileType::Floor);
                }
                proof {
                    assert forall|i: int| 0 <= i < NUM_TILES implies #[trigger] self.map.tiles@[i] == stamped_upto(old(self).map.tiles@, x as int, y as int, i, row as int, col + 1) by {
                        lemma_point_idx(i);
                    }
                    let ms0 = vault_monsters_upto(x as int, y as int, row as int, col as int);
                    let ms1 = vault_monsters_upto(x as int, y as int, row as int, col + 1);
                    if c == 'M' {
                        assert(ms1 =~= ms0.push(Point { x: px, y: py }));
                        assert(self.monster_spawns@ =~= old(self).monster_spawns@ + ms1);
                    } else {
                        assert(ms1 =~= ms0);
                    }
                }
                col = col + 1;
            }
            proof {
                assert(vault_monsters_upto(x as int, y as int, row as int, FORTRESS_WIDTH as int)
                    =~= vault_monsters_upto(x as int, y as int, row + 1, 0));
                assert forall|i: int| 0 <= i < NUM_TILES implies
                    stamped_upto(old(self).map.tiles@, x as int, y as int, i, row as int, FORTRESS_WIDTH as int)
                    == stamped_upto(old(self).map.tiles@, x as int, y as int, i, row + 1, 0) by {}
            }
            row = row + 1;
        }
    }
}

/// What `apply_prefab` makes of a builder: by the distances that `pathing`
/// reports from the player's start, the drawn corners are tried in turn and
/// the vault is placed at the first that fits (`placed`), or, if none of
/// them fits, nothing changes.
pub open spec fn prefab_outcome<F: Fn(&TileMap, usize) -> DistanceField>(
    pathing: &F,
    before: &MapBuilder,
    after: &MapBuilder,
    placed: Option<Point>,
) -> bool {
    &&& after.wf()
    &&& after.map.revealed_tiles == before.map.revealed_tiles
    &&& after.rooms == before.rooms
    &&& after.player_start == before.player_start
    &&& after.amulet_start == before.amulet_start
    &&& after.theme == before.theme
    &&& exists|d: DistanceField, corners: Seq<Point>| {
        &&& #[trigger] pathing.ensures((&before.map,
                spec_idx(before.player_start.x as int, before.player_start.y as int) as usize), d)
        &&& #[trigger] first_fit_draws(d@, corners, before.amulet_start, placed)
        &&& match placed {
            Some(p) => placed_at(before, after, p.x as int, p.y as int),
            None => after.map == before.map && after.monster_spawns == before.monster_spawns,
        }
    }
}

/// Where the vault may go anywhere, it is placed.
pub proof fn lemma_placement_owed(d: Seq<Option<u32>>, corners: Seq<Point>, amulet: Point, placed: Option<Point>)
    requires
        first_fit_draws(d, corners, amulet, placed),
        forall|c: Point| corner_in_range(c) ==> #[trigger] corner_fits(d, c, amulet),
    ensures
        placed is Some,
        corners.len() == 1,
{
    assert(corner_fits(d, corners[0], amulet));
}

/// Looks for a place for the fortress vault: up to `PLACEMENT_ATTEMPTS`
/// random corners are drawn, and the first one where the vault fits by the
/// distances from the player's start is taken. There the monster starts
/// inside the vault's rectangle are dropped and the vault is stamped over
/// the map with its own monsters. If no attempt succeeds, nothing changes.
/// Returns the corner where the vault went.
#[verifier::spinoff_prover]
pub fn apply_prefab<F: Fn(&TileMap, usize) -> DistanceField>(map_builder: &mut MapBuilder, random: &mut RandomNumberGenerator, pathing: &F) -> (placed: Option<Point>)
    requires
        old(map_builder).wf(),
        on_map(old(map_builder).player_start),
        pathing_ok(pathing),
    ensures
        prefab_outcome(pathing, &*old(map_builder), &*final(map_builder), placed),
{
    let start = map_builder.map.point2d_to_index(map_builder.player_start);
    let d = pathing(&map_builder.map, start);
    let ghost old_spawns = map_builder.monster_spawns@;
    let ghost mut corners: Seq<Point> = Seq::empty();
    let mut placement: Option<Point> = None;
    let mut attempts: usize = 0;
    while attempts < PLACEMENT_ATTEMPTS && placement.is_none()
        invariant
            attempts <= PLACEMENT_ATTEMPTS,
            d@.len() == NUM_TILES,
            map_builder.wf(),
            map_builder.map == old(map_builder).map,
            map_builder.rooms == old(map_builder).rooms,
            map_builder.player_start == old(map_builder).player_start,
            map_builder.amulet_start == old(map_builder).amulet_start,
            *map_builder == (MapBuilder { monster_spawns: map_builder.monster_spawns, ..*old(map_builder) }),
            placement is None ==> map_builder.monster_spawns == old(map_builder).monster_spawns,
            placement is None ==> corners.len() == attempts,
            placement is None ==> forall|k: int| 0 <= k < corners.len() ==> corner_in_range(#[trigger] corners[k])
                && !corner_fits(d@, corners[k], old(map_builder).amulet_start),
            placement is Some ==> first_fit_draws(d@, corners, old(map_builder).amulet_start, placement),
            placement matches Some(pl) ==> map_builder.monster_spawns@ == old(map_builder).monster_spawns@.filter(
                |p: Point| !vault_rect(pl.x as int, pl.y as int).contains(p)),
        decreases PLACEMENT_ATTEMPTS - attempts,
    {
        let x1 = rng_range(random, 0, SCREEN_WIDTH - FORTRESS_WIDTH);
        let y1 = rng_range(random, 0, SCREEN_HEIGHT - FORTRESS_HEIGHT);
        let ghost prev = corners;
        proof { corners = corners.push(Point { x: x1, y: y1 }); }
        let found = fits(&d, x1, y1, map_builder.amulet_start);
        if found {
            let dims = Rect::with_size(x1, y1, FORTRESS_WIDTH, FORTRESS_HEIGHT);
            placement = Some(Point::new(x1, y1));
            drop_spawns_in(&mut map_builder.monster_spawns, dims);
            proof {
                assert forall|k: int| 0 <= k < corners.len() - 1 implies !corner_fits(d@, #[trigger] corners[k], old(map_builder).amulet_start) by {
                    assert(corners[k] == prev[k]);
                }
                assert forall|k: int| 0 <= k < corners.len() implies corner_in_range(#[trigger] corners[k]) by {
                    if k < prev.len() { assert(corners[k] == prev[k]); }
                }
            }
        } else {
            proof {
                assert forall|k: int| 0 <= k < corners.len() implies corner_in_range(#[trigger] corners[k])
                    && !corner_fits(d@, corners[k], old(map_builder).amulet_start) by {
                    if k < prev.len() { assert(corners[k] == prev[k]); }
                }
            }
        }
        attempts = attempts + 1;
    }
    proof {
        if placement is None {
            assert(first_fit_draws(d@, corners, old(map_builder).amulet_start, placement));
        }
    }
    match placement {
        Some(pl) => {
            map_builder.stamp_fortress(pl.x, pl.y);
            proof {
                assert(placed_at(&*old(map_builder), &*map_builder, pl.x as int, pl.y as int));
            }
        },
        None => {},
    }
    assert(pathing.ensures((&old(map_builder).map,
        spec_idx(old(map_builder).player_start.x as int, old(map_builder).player_start.y as int) as usize), d));
    placement
}

} // verus!
