use vstd::prelude::*;
use crate::components::Health;
use crate::map::{TileMap, NUM_TILES};
use crate::systems::EntityId;

verus! {

/// A request to use an item: the message entity that carries it, the user
/// and the item.
#[derive(Clone, Copy, Debug, PartialEq, Eq, Structural)]
pub struct ActivationMessage {
    pub message: EntityId,
    pub used_by: EntityId,
    pub item: EntityId,
}

/// An existing entity as item use sees it: what it does when used.
#[derive(Clone, Copy, Debug, PartialEq, Eq, Structural)]
pub struct Usable {
    pub id: EntityId,
    pub healing: Option<i32>,
    pub reveals_map: bool,
}

/// An existing entity and its hit points, if it has any.
#[derive(Clone, Copy, Debug, PartialEq, Eq, Structural)]
pub struct Patient {
    pub id: EntityId,
    pub health: Option<Health>,
}


/// The item with the id, if it exists.
pub open spec fn usable_of(items: Seq<Usable>, id: EntityId) -> Option<Usable> {
    if exists|k: int| 0 <= k < items.len() && (#[trigger] items[k]).id == id {
        Some(items[choose|k: int| 0 <= k < items.len() && (#[trigger] items[k]).id == id])
    } else {
        None
    }
}

/// The healing of the first `n` activations, in order, as pairs of the
/// entity healed and the amount.
pub open spec fn heals(acts: Seq<ActivationMessage>, n: int, items: Seq<Usable>) -> Seq<(EntityId, i32)>
    decreases n,
{
    if n <= 0 {
        Seq::empty()
    } else {
        let a = acts[n - 1];
        heals(acts, n - 1, items) + match usable_of(items, a.item) {
            Some(u) => match u.healing {
                Some(amount) => seq![(a.used_by, amount)],
                None => Seq::empty(),
            },
            None => Seq::empty(),
        }
    }
}

/// Whether one of the first `n` activations uses an existing item that
/// reveals the map.
pub open spec fn reveals(acts: Seq<ActivationMessage>, n: int, items: Seq<Usable>) -> bool
    decreases n,
{
    if n <= 0 {
        false
    } else {
        reveals(acts, n - 1, items) || match usable_of(items, acts[n - 1].item) {
            Some(u) => u.reveals_map,
            None => false,
        }
    }
}

/// The entities that the first `n` activations remove: for each one whose
/// item exists, its message and then the item.
pub open spec fn used_up(acts: Seq<ActivationMessage>, n: int, items: Seq<Usable>) -> Seq<EntityId>
    decreases n,
{
    if n <= 0 {
        Seq::empty()
    } else {
        let a = acts[n - 1];
        used_up(acts, n - 1, items) + if usable_of(items, a.item) is Some { seq![a.message, a.item] } else { Seq::empty() }
    }
}

/// Hit points after the first `n` heals aimed at `id`, each raising the
/// current hit points by its amount but not above the maximum.
pub open spec fn healed(h: Health, hs: Seq<(EntityId, i32)>, n: int, id: EntityId) -> Health
    decreases n,
{
    if n <= 0 {
        h
    } else {
        let prev = healed(h, hs, n - 1, id);
        if hs[n - 1].0 == id {
            let raised = prev.current + hs[n - 1].1;
            Health { current: if prev.max < raised { prev.max } else { raised as i32 }, max: prev.max }
        } else {
            prev
        }
    }
}

/// A patient after the first `n` heals.
pub open spec fn patient_healed(p: Patient, hs: Seq<(EntityId, i32)>, n: int) -> Patient {
    Patient {
        id: p.id,
        health: match p.health {
            Some(h) => Some(healed(h, hs, n, p.id)),
            None => None,
        },
    }
}

/// A patient after all the heals.
pub open spec fn patient_after(p: Patient, hs: Seq<(EntityId, i32)>) -> Patient {
    patient_healed(p, hs, hs.len() as int)
}

/// Every heal aimed at a patient raises hit points to a sum that fits in
/// `i32`, before the maximum caps it.
pub open spec fn heals_fit(hs: Seq<(EntityId, i32)>, ps: Seq<Patient>) -> bool {
    forall|j: int, n: int| 0 <= j < ps.len() && 0 <= n < hs.len() && (#[trigger] ps[j]).health is Some
        && (#[trigger] hs[n]).0 == ps[j].id
        ==> i32::MIN <= healed(ps[j].health->0, hs, n, ps[j].id).current + hs[n].1 <= i32::MAX
}

/// Healing never lifts hit points above their maximum: from hit points at
/// or under the maximum, any run of heals whose sums fit in `i32` ends at
/// or under it, and the maximum is unchanged.
pub proof fn lemma_healing_capped(h: Health, hs: Seq<(EntityId, i32)>, n: int, id: EntityId)
    requires
        h.current <= h.max,
        0 <= n <= hs.len(),
        forall|m: int| 0 <= m < n && (#[trigger] hs[m]).0 == id
            ==> i32::MIN <= healed(h, hs, m, id).current + hs[m].1 <= i32::MAX,
    ensures
        healed(h, hs, n, id).current <= healed(h, hs, n, id).max,
        healed(h, hs, n, id).max == h.max,
    decreases n,
{
    if n > 0 {
        lemma_healing_capped(h, hs, n - 1, id);
    }
}

fn find_usable(items: &Vec<Usable>, id: EntityId) -> (r: Option<usize>)
    requires
        forall|a: int, b: int| 0 <= a < b < items@.len() ==> (#[trigger] items@[a]).id != (#[trigger] items@[b]).id,
    ensures
        r is None ==> usable_of(items@, id) is None,
        r matches Some(k) ==> k < items@.len() && usable_of(items@, id) == Some(items@[k as int]),
{
    let mut k: usize = 0;
    while k < items.len()
        invariant
            k <= items@.len(),
            forall|a: int, b: int| 0 <= a < b < items@.len() ==> (#[trigger] items@[a]).id != (#[trigger] items@[b]).id,
            forall|j: int| 0 <= j < k ==> (#[trigger] items@[j]).id != id,
        decreases items@.len() - k,
    {
        if items[k].id == id {
            proof {
                let c = choose|j: int| 0 <= j < items@.len() && (#[trigger] items@[j]).id == id;
                if c < k {
                    assert(items@[c].id != items@[k as int].id);
                } else if c > k {
                    assert(items@[k as int].id != items@[c].id);
                }
            }
            return Some(k);
        }
        k = k + 1;
    }
    None
}

/// The item-use system: each request whose item exists queues the item's
/// healing for its user, reveals the whole map if the item is a dungeon
/// map, and removes the request and the item; then each queued heal, in
/// order, raises its target's hit points by the amount but not above their
/// maximum. Returns the entities to remove, in order.
pub fn use_items(
    activations: &Vec<ActivationMessage>,
    items: &Vec<Usable>,
    patients: &mut Vec<Patient>,
    map: &mut TileMap,
) -> (removed: Vec<EntityId>)
    requires
        old(map).wf(),
        forall|a: int, b: int| 0 <= a < b < items@.len() ==> (#[trigger] items@[a]).id != (#[trigger] items@[b]).id,
        heals_fit(heals(activations@, activations@.len() as int, items@), old(patients)@),
    ensures
        final(map).wf(),
        final(map).tiles == old(map).tiles,
        reveals(activations@, activations@.len() as int, items@)
            ==> forall|i: int| 0 <= i < NUM_TILES ==> #[trigger] final(map).revealed_tiles@[i],
        !reveals(activations@, activations@.len() as int, items@)
            ==> final(map).revealed_tiles == old(map).revealed_tiles,
        final(patients)@.len() == old(patients)@.len(),
        forall|k: int| 0 <= k < final(patients)@.len() ==> #[trigger] final(patients)@[k]
            == patient_after(old(patients)@[k], heals(activations@, activations@.len() as int, items@)),
        removed@ == used_up(activations@, activations@.len() as int, items@),
{
    let mut healing_to_apply: Vec<(EntityId, i32)> = Vec::new();
    let mut removed: Vec<EntityId> = Vec::new();
    let mut i: usize = 0;
    while i < activations.len()
        invariant
            i <= activations@.len(),
            map.wf(),
            map.tiles == old(map).tiles,
            forall|a: int, b: int| 0 <= a < b < items@.len() ==> (#[trigger] items@[a]).id != (#[trigger] items@[b]).id,
            healing_to_apply@ == heals(activations@, i as int, items@),
            removed@ == used_up(activations@, i as int, items@),
            reveals(activations@, i as int, items@) ==> forall|t: int| 0 <= t < NUM_TILES ==> #[trigger] map.revealed_tiles@[t],
            !reveals(activations@, i as int, items@) ==> map.revealed_tiles == old(map).revealed_tiles,
        decreases activations@.len() - i,
    {
        let a = activations[i];
        match find_usable(items, a.item) {
            Some(k) => {
                let u = items[k];
                match u.healing {
                    Some(amount) => { healing_to_apply.push((a.used_by, amount)); },
                    None => {},
                }
                if u.reveals_map {
                    let mut t: usize = 0;
                    while t < map.revealed_tiles.len()
                        invariant
                            map.wf(),
                            map.tiles == old(map).tiles,
                            t <= NUM_TILES,
                            forall|j: int| 0 <= j < t ==> #[trigger] map.revealed_tiles@[j],
                        decreases NUM_TILES - t,
                    {
                        map.revealed_tiles.set(t, true);
                        t = t + 1;
                    }
                }
                removed.push(a.message);
                removed.push(a.item);
            },
            None => {},
        }
        proof {
            assert(healing_to_apply@ =~= heals(activations@, i + 1, items@));
            assert(removed@ =~= used_up(activations@, i + 1, items@));
        }
        i = i + 1;
    }
    let ghost hs = healing_to_apply@;
    let ghost ps0 = patients@;
    let mut h: usize = 0;
    while h < healing_to_apply.len()
        invariant
            h <= hs.len(),
            hs == healing_to_apply@,
            heals_fit(hs, ps0),
            patients@.len() == ps0.len(),
            forall|k: int| 0 <= k < patients@.len() ==> #[trigger] patients@[k] == patient_healed(ps0[k], hs, h as int),
        decreases hs.len() - h,
    {
        let (target, amount) = healing_to_apply[h];
        let mut k: usize = 0;
        while k < patients.len()
            invariant
                h < hs.len(),
                hs == healing_to_apply@,
                hs[h as int] == (target, amount),
                heals_fit(hs, ps0),
                k <= patients@.len(),
                patients@.len() == ps0.len(),
                forall|j: int| 0 <= j < patients@.len() ==> #[trigger] patients@[j]
                    == patient_healed(ps0[j], hs, if j < k { h + 1 } else { h as int }),
            decreases patients@.len() - k,
        {
            let p = patients[k];
            if p.id == target {
                match p.health {
                    Some(x) => {
                        proof {
                            assert(ps0[k as int].id == p.id);
                            assert(hs[h as int].0 == ps0[k as int].id);
                            assert(ps0[k as int].health is Some);
                        }
                        let raised = x.current + amount;
                        let current = if x.max < raised { x.max } else { raised };
                        patients.set(k, Patient { id: p.id, health: Some(Health { current, max: x.max }) });
                    },
                    None => {},
                }
            }
            k = k + 1;
        }
        h = h + 1;
    }
    removed
}

} // verus!
