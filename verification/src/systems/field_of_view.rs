use vstd::prelude::*;
use crate::geometry::Point;
use crate::map::TileMap;
use crate::components::FieldOfView;

verus! {

/// The field-of-view system: every sight marked dirty gets the cells that
/// `fov_set` reports visible from its entity's position within its radius,
/// and is then clean, its radius kept; the others are left alone. The cells
/// come from bracket-lib's `field_of_view_set`, which runs on an impl of
/// bracket-lib's `Algorithm2D` trait and so is handed in by the
/// application.
pub fn field_of_view<F: Fn(Point, i32, &TileMap) -> Vec<Point>>(
    positions: &Vec<Point>,
    sights: &mut Vec<FieldOfView>,
    map: &TileMap,
    fov_set: &F,
)
    requires
        positions@.len() == old(sights)@.len(),
        forall|p: Point, r: i32, m: &TileMap| #[trigger] fov_set.requires((p, r, m)),
    ensures
        final(sights)@.len() == old(sights)@.len(),
        forall|k: int| 0 <= k < old(sights)@.len() && (#[trigger] old(sights)@[k]).is_dirty ==> {
            &&& fov_set.ensures((positions@[k], old(sights)@[k].radius, map), final(sights)@[k].visible_tiles)
            &&& !final(sights)@[k].is_dirty
            &&& final(sights)@[k].radius == old(sights)@[k].radius
        },
        forall|k: int| 0 <= k < old(sights)@.len() && !(#[trigger] old(sights)@[k]).is_dirty
            ==> final(sights)@[k] == old(sights)@[k],
{
    let mut k: usize = 0;
    while k < sights.len()
        invariant
            k <= sights@.len(),
            sights@.len() == old(sights)@.len(),
            positions@.len() == old(sights)@.len(),
            forall|p: Point, r: i32, m: &TileMap| #[trigger] fov_set.requires((p, r, m)),
            forall|j: int| k <= j < sights@.len() ==> #[trigger] sights@[j] == old(sights)@[j],
            forall|j: int| 0 <= j < k && (#[trigger] old(sights)@[j]).is_dirty ==> {
                &&& fov_set.ensures((positions@[j], old(sights)@[j].radius, map), sights@[j].visible_tiles)
                &&& !sights@[j].is_dirty
                &&& sights@[j].radius == old(sights)@[j].radius
            },
            forall|j: int| 0 <= j < k && !(#[trigger] old(sights)@[j]).is_dirty ==> sights@[j] == old(sights)@[j],
        decreases sights@.len() - k,
    {
        if sights[k].is_dirty {
            let radius = sights[k].radius;
            let visible = fov_set(positions[k], radius, map);
            sights.set(k, FieldOfView { visible_tiles: visible, radius, is_dirty: false });
        }
        k = k + 1;
    }
}

} // verus!
