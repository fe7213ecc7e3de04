use vstd::prelude::*;
use crate::geometry::Point;
use crate::map::TileMap;
use crate::random::{rng_new, rng_range};

verus! {

/// A position with room around it for a step in every direction.
pub open spec fn steppable(p: Point) -> bool {
    i32::MIN < p.x < i32::MAX && i32::MIN < p.y < i32::MAX
}

/// The cell one step from `p` in direction `dir`: west for 0, east for 1,
/// north for 2, south for any other draw.
pub open spec fn step_toward(p: Point, dir: i32) -> Point {
    if dir == 0 {
        Point { x: (p.x - 1) as i32, y: p.y }
    } else if dir == 1 {
        Point { x: (p.x + 1) as i32, y: p.y }
    } else if dir == 2 {
        Point { x: p.x, y: (p.y - 1) as i32 }
    } else {
        Point { x: p.x, y: (p.y + 1) as i32 }
    }
}

/// Where a wanderer at `p` ends up after drawing `dir`: on the cell in that
/// direction if it can enter it, else where it was.
pub open spec fn wandered(map: TileMap, p: Point, dir: i32) -> Point {
    if map.spec_can_enter(step_toward(p, dir)) { step_toward(p, dir) } else { p }
}

/// Every wanderer of `before`, having drawn the direction of the same
/// index in `dirs`, stands at the same index in `after`.
pub open spec fn all_wandered(map: TileMap, before: Seq<Point>, dirs: Seq<i32>, after: Seq<Point>) -> bool {
    &&& dirs.len() == before.len()
    &&& after.len() == before.len()
    &&& forall|k: int| 0 <= k < dirs.len() ==> 0 <= #[trigger] dirs[k] < 4
    &&& forall|k: int| 0 <= k < after.len() ==> #[trigger] after[k] == wandered(map, before[k], dirs[k])
}

/// Moves each wanderer by the direction drawn for it: one step west, east,
/// north or south if it can enter the cell there, and no step otherwise.
pub fn wander(positions: &mut Vec<Point>, map: &TileMap, dirs: &Vec<i32>)
    requires
        map.wf(),
        dirs@.len() == old(positions)@.len(),
        forall|k: int| 0 <= k < old(positions)@.len() ==> steppable(#[trigger] old(positions)@[k]),
    ensures
        final(positions)@.len() == old(positions)@.len(),
        forall|k: int| 0 <= k < final(positions)@.len() ==>
            #[trigger] final(positions)@[k] == wandered(*map, old(positions)@[k], dirs@[k]),
{
    let mut k: usize = 0;
    while k < positions.len()
        invariant
            map.wf(),
            k <= positions@.len(),
            positions@.len() == old(positions)@.len(),
            dirs@.len() == old(positions)@.len(),
            forall|j: int| 0 <= j < old(positions)@.len() ==> steppable(#[trigger] old(positions)@[j]),
            forall|j: int| k <= j < positions@.len() ==> #[trigger] positions@[j] == old(positions)@[j],
            forall|j: int| 0 <= j < k ==> #[trigger] positions@[j] == wandered(*map, old(positions)@[j], dirs@[j]),
        decreases positions@.len() - k,
    {
        let pos = positions[k];
        let dir = dirs[k];
        let destination = if dir == 0 {
            Point::new(pos.x - 1, pos.y)
        } else if dir == 1 {
            Point::new(pos.x + 1, pos.y)
        } else if dir == 2 {
            Point::new(pos.x, pos.y - 1)
        } else {
            Point::new(pos.x, pos.y + 1)
        };
        if map.can_enter_tile(destination) {
            positions.set(k, destination);
        }
        k = k + 1;
    }
}

/// The random-move system: each wanderer draws a direction at random, with
/// a generator of its own, and takes one step west, east, north or south
/// that way if it can enter the tile there, and stays put otherwise.
pub fn random_move(positions: &mut Vec<Point>, map: &TileMap)
    requires
        map.wf(),
        forall|k: int| 0 <= k < old(positions)@.len() ==> steppable(#[trigger] old(positions)@[k]),
    ensures
        final(positions)@.len() == old(positions)@.len(),
        exists|dirs: Seq<i32>| #[trigger] all_wandered(*map, old(positions)@, dirs, final(positions)@),
{
    let mut dirs: Vec<i32> = Vec::new();
    let mut k: usize = 0;
    while k < positions.len()
        invariant
            k <= positions@.len(),
            dirs@.len() == k,
            forall|j: int| 0 <= j < k ==> 0 <= #[trigger] dirs@[j] < 4,
        decreases positions@.len() - k,
    {
        let mut rnd = rng_new();
        dirs.push(rng_range(&mut rnd, 0, 4));
        k = k + 1;
    }
    let ghost before = positions@;
    wander(positions, map, &dirs);
    assert(all_wandered(*map, before, dirs@, positions@));
}

} // verus!
