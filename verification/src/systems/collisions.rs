use vstd::prelude::*;
use crate::geometry::Point;
use crate::systems::EntityId;

verus! {

/// An enemy and where it stands.
#[derive(Clone, Copy, Debug, PartialEq, Eq, Structural)]
pub struct Placed {
    pub id: EntityId,
    pub pos: Point,
}

/// The collision system: every enemy standing where a player stands is
/// removed. Returns them in the enemies' order.
pub fn collisions(player_positions: &Vec<Point>, enemies: &Vec<Placed>) -> (removed: Vec<EntityId>)
    ensures
        removed@ == enemies@.filter(|e: Placed| player_positions@.contains(e.pos)).map_values(|e: Placed| e.id),
{
    let ghost pred = |e: Placed| player_positions@.contains(e.pos);
    let ghost id_of = |e: Placed| e.id;
    let mut removed: Vec<EntityId> = Vec::new();
    let mut i: usize = 0;
    while i < enemies.len()
        invariant
            i <= enemies@.len(),
            pred == (|e: Placed| player_positions@.contains(e.pos)),
            id_of == (|e: Placed| e.id),
            removed@ == enemies@.take(i as int).filter(pred).map_values(id_of),
        decreases enemies@.len() - i,
    {
        reveal_with_fuel(Seq::<Placed>::filter, 1);
        let e = enemies[i];
        let mut hit = false;
        let mut j: usize = 0;
        while j < player_positions.len()
            invariant
                j <= player_positions@.len(),
                hit == exists|k: int| 0 <= k < j && player_positions@[k] == e.pos,
            decreases player_positions@.len() - j,
        {
            if player_positions[j] == e.pos {
                hit = true;
            }
            j = j + 1;
        }
        assert(hit == player_positions@.contains(e.pos));
        assert(enemies@.take(i + 1).drop_last() =~= enemies@.take(i as int));
        if hit {
            removed.push(e.id);
            assert(enemies@.take(i + 1).filter(pred) =~= enemies@.take(i as int).filter(pred).push(e));
            assert(enemies@.take(i + 1).filter(pred).map_values(id_of)
                =~= enemies@.take(i as int).filter(pred).map_values(id_of).push(e.id));
        } else {
            assert(enemies@.take(i + 1).filter(pred) =~= enemies@.take(i as int).filter(pred));
        }
        i = i + 1;
    }
    assert(enemies@.take(enemies@.len() as int) =~= enemies@);
    removed
}

} // verus!
