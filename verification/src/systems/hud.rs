use vstd::prelude::*;
use crate::systems::{Carried, EntityId};

verus! {

/// The items in `player`'s pack, in the order given.
pub open spec fn pack_of(player: EntityId, carried: Seq<Carried>) -> Seq<EntityId> {
    carried.filter(|c: Carried| c.carrier == player).map_values(|c: Carried| c.item)
}

/// The inventory that the HUD lists, numbered from one, and that the
/// number keys pick from: the items that `player` carries, in order.
pub fn carried_by(player: EntityId, carried: &Vec<Carried>) -> (items: Vec<EntityId>)
    ensures
        items@ == pack_of(player, carried@),
{
    let ghost pred = |c: Carried| c.carrier == player;
    let ghost item_of = |c: Carried| c.item;
    let mut items: Vec<EntityId> = Vec::new();
    let mut k: usize = 0;
    while k < carried.len()
        invariant
            k <= carried@.len(),
            pred == (|c: Carried| c.carrier == player),
            item_of == (|c: Carried| c.item),
            items@ == carried@.take(k as int).filter(pred).map_values(item_of),
        decreases carried@.len() - k,
    {
        reveal_with_fuel(Seq::<Carried>::filter, 1);
        let c = carried[k];
        assert(carried@.take(k + 1).drop_last() =~= carried@.take(k as int));
        if c.carrier == player {
            items.push(c.item);
            assert(carried@.take(k + 1).filter(pred) =~= carried@.take(k as int).filter(pred).push(c));
            assert(carried@.take(k + 1).filter(pred).map_values(item_of)
                =~= carried@.take(k as int).filter(pred).map_values(item_of).push(c.item));
        } else {
            assert(carried@.take(k + 1).filter(pred) =~= carried@.take(k as int).filter(pred));
        }
        k = k + 1;
    }
    assert(carried@.take(carried@.len() as int) =~= carried@);
    items
}

} // verus!
