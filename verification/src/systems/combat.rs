use vstd::prelude::*;
use crate::components::Health;
use crate::systems::EntityId;

verus! {

/// An entity as combat sees it: its own damage, its hit points, and
/// whether it is the player.
#[derive(Clone, Copy, Debug, PartialEq, Eq, Structural)]
pub struct Combatant {
    pub id: EntityId,
    pub damage: Option<i32>,
    pub health: Option<Health>,
    pub is_player: bool,
}

/// A carried item that adds damage to its carrier's attacks.
#[derive(Clone, Copy, Debug, PartialEq, Eq, Structural)]
pub struct Weapon {
    pub carrier: EntityId,
    pub damage: i32,
}

/// An attack request: the message entity that carries it, the attacker and
/// the victim.
#[derive(Clone, Copy, Debug, PartialEq, Eq, Structural)]
pub struct AttackMessage {
    pub message: EntityId,
    pub attacker: EntityId,
    pub victim: EntityId,
}


/// No two entities share an id.
pub open spec fn ids_unique(es: Seq<Combatant>) -> bool {
    forall|a: int, b: int| 0 <= a < b < es.len() ==> (#[trigger] es[a]).id != (#[trigger] es[b]).id
}

/// Some entity has the id.
pub open spec fn has_id(es: Seq<Combatant>, id: EntityId) -> bool {
    exists|k: int| 0 <= k < es.len() && (#[trigger] es[k]).id == id
}

/// The entity with the id.
pub open spec fn entity_of(es: Seq<Combatant>, id: EntityId) -> Combatant {
    es[choose|k: int| 0 <= k < es.len() && (#[trigger] es[k]).id == id]
}

/// An attacker's own damage: that of its `Damage`, or zero if it has none
/// or is gone.
pub open spec fn base_damage(es: Seq<Combatant>, attacker: EntityId) -> int {
    if has_id(es, attacker) {
        match entity_of(es, attacker).damage {
            Some(d) => d as int,
            None => 0,
        }
    } else {
        0
    }
}

/// The damage of the first `n` weapons that `attacker` carries.
pub open spec fn weapon_damage(ws: Seq<Weapon>, n: int, attacker: EntityId) -> int
    decreases n,
{
    if n <= 0 {
        0
    } else {
        weapon_damage(ws, n - 1, attacker) + (if ws[n - 1].carrier == attacker { ws[n - 1].damage as int } else { 0 })
    }
}

/// The damage of one attack: the attacker's own plus its weapons'.
pub open spec fn attack_damage(es: Seq<Combatant>, ws: Seq<Weapon>, attacker: EntityId) -> int {
    base_damage(es, attacker) + weapon_damage(ws, ws.len() as int, attacker)
}

/// The damage dealt to `victim` by the first `n` attacks.
pub open spec fn damage_to(attacks: Seq<AttackMessage>, n: int, victim: EntityId, es: Seq<Combatant>, ws: Seq<Weapon>) -> int
    decreases n,
{
    if n <= 0 {
        0
    } else {
        damage_to(attacks, n - 1, victim, es, ws)
            + (if attacks[n - 1].victim == victim { attack_damage(es, ws, attacks[n - 1].attacker) } else { 0 })
    }
}

/// The entities that the first `n` attacks remove, in order: after each
/// attack the victim if it has hit points, is not the player and is down
/// to zero or fewer, then the attack's message.
pub open spec fn removals(attacks: Seq<AttackMessage>, n: int, es: Seq<Combatant>, ws: Seq<Weapon>) -> Seq<EntityId>
    decreases n,
{
    if n <= 0 {
        Seq::empty()
    } else {
        let a = attacks[n - 1];
        let v = entity_of(es, a.victim);
        let slain = match v.health {
            Some(h) => h.current - damage_to(attacks, n, a.victim, es, ws) < 1 && !v.is_player,
            None => false,
        };
        removals(attacks, n - 1, es, ws) + (if slain { seq![a.victim] } else { Seq::empty() }) + seq![a.message]
    }
}

/// An entity after the first `n` attacks: hit points lowered by the damage
/// dealt to it, all else as before.
pub open spec fn after_attacks(e: Combatant, attacks: Seq<AttackMessage>, n: int, es: Seq<Combatant>, ws: Seq<Weapon>) -> Combatant {
    Combatant {
        health: match e.health {
            Some(h) => Some(Health { current: (h.current - damage_to(attacks, n, e.id, es, ws)) as i32, max: h.max }),
            None => None,
        },
        ..e
    }
}

/// An integer that `i32` holds.
pub open spec fn fits_i32(v: int) -> bool {
    i32::MIN <= v <= i32::MAX
}

/// Every sum that combat works out fits in `i32`: each partial sum of an
/// attacker's weapons, each attack's damage, and each entity's hit points
/// after every prefix of the attacks.
pub open spec fn combat_bounded(attacks: Seq<AttackMessage>, es: Seq<Combatant>, ws: Seq<Weapon>) -> bool {
    &&& forall|k: int, n: int| 0 <= k < attacks.len() && 0 <= n <= ws.len()
            ==> fits_i32(#[trigger] weapon_damage(ws, n, attacks[k].attacker))
    &&& forall|k: int| 0 <= k < attacks.len() ==> fits_i32(attack_damage(es, ws, (#[trigger] attacks[k]).attacker))
    &&& forall|k: int, j: int| 0 <= k <= attacks.len() && 0 <= j < es.len() && (#[trigger] es[j]).health is Some
            ==> fits_i32(es[j].health->0.current - #[trigger] damage_to(attacks, k, es[j].id, es, ws))
}

/// Combat never removes the player: when the attack messages are entities
/// of their own, apart from the combatants, no player's id is among the
/// entities that combat removes.
pub proof fn lemma_player_never_removed(attacks: Seq<AttackMessage>, n: int, es: Seq<Combatant>, ws: Seq<Weapon>, p: Combatant)
    requires
        ids_unique(es),
        es.contains(p),
        p.is_player,
        0 <= n <= attacks.len(),
        forall|k: int| 0 <= k < attacks.len() ==> has_id(es, (#[trigger] attacks[k]).victim),
        forall|k: int| 0 <= k < attacks.len() ==> !has_id(es, (#[trigger] attacks[k]).message),
    ensures
        !removals(attacks, n, es, ws).contains(p.id),
    decreases n,
{
    if n > 0 {
        lemma_player_never_removed(attacks, n - 1, es, ws, p);
        let a = attacks[n - 1];
        let prev = removals(attacks, n - 1, es, ws);
        let cur = removals(attacks, n, es, ws);
        let kp = choose|k: int| 0 <= k < es.len() && es[k] == p;
        assert(has_id(es, p.id));
        if a.message == p.id {
            assert(es[kp].id == a.message);
        }
        if a.victim == p.id {
            let kv = choose|k: int| 0 <= k < es.len() && (#[trigger] es[k]).id == a.victim;
            if kv != kp {
                if kv < kp { assert(es[kv].id != es[kp].id); } else { assert(es[kp].id != es[kv].id); }
            }
            assert(entity_of(es, a.victim) == p);
        }
        if cur.contains(p.id) {
            let j = choose|j: int| 0 <= j < cur.len() && cur[j] == p.id;
            if j < prev.len() {
                assert(prev[j] == cur[j]);
            }
        }
    }
}

/// Every non-player entity with hit points that an attack leaves at zero
/// or fewer hit points is among the entities that combat removes.
pub proof fn lemma_slain_are_removed(attacks: Seq<AttackMessage>, n: int, es: Seq<Combatant>, ws: Seq<Weapon>, k: int, j: int)
    requires
        ids_unique(es),
        0 <= k < n <= attacks.len(),
        0 <= j < es.len(),
        es[j].id == attacks[k].victim,
        es[j].health is Some,
        !es[j].is_player,
        es[j].health->0.current - damage_to(attacks, k + 1, es[j].id, es, ws) < 1,
    ensures
        removals(attacks, n, es, ws).contains(es[j].id),
    decreases n,
{
    let prev = removals(attacks, n - 1, es, ws);
    let cur = removals(attacks, n, es, ws);
    let a = attacks[n - 1];
    if k == n - 1 {
        let c = choose|c: int| 0 <= c < es.len() && (#[trigger] es[c]).id == a.victim;
        assert(has_id(es, a.victim));
        if c != j {
            if c < j { assert(es[c].id != es[j].id); } else { assert(es[j].id != es[c].id); }
        }
        assert(entity_of(es, a.victim) == es[j]);
        assert(cur == prev + seq![a.victim] + seq![a.message]);
        assert(cur[prev.len() as int] == es[j].id);
    } else {
        lemma_slain_are_removed(attacks, n - 1, es, ws, k, j);
        let i = choose|i: int| 0 <= i < prev.len() && prev[i] == es[j].id;
        assert(cur[i] == es[j].id);
    }
}

/// Combat removes nothing else: every entity it removes is an attack's
/// message, or the victim of an attack that left that victim, a non-player
/// with hit points, at zero or fewer.
pub proof fn lemma_removed_are_slain(attacks: Seq<AttackMessage>, n: int, es: Seq<Combatant>, ws: Seq<Weapon>, id: EntityId)
    requires
        0 <= n <= attacks.len(),
        removals(attacks, n, es, ws).contains(id),
    ensures
        (exists|k: int| 0 <= k < n && (#[trigger] attacks[k]).message == id)
        || (exists|k: int| 0 <= k < n && (#[trigger] attacks[k]).victim == id && ({
                let v = entity_of(es, id);
                &&& v.health is Some
                &&& !v.is_player
                &&& v.health->0.current - damage_to(attacks, k + 1, id, es, ws) < 1
            })),
    decreases n,
{
    let prev = removals(attacks, n - 1, es, ws);
    let cur = removals(attacks, n, es, ws);
    let a = attacks[n - 1];
    let i = choose|i: int| 0 <= i < cur.len() && cur[i] == id;
    if i < prev.len() {
        assert(prev[i] == cur[i]);
        lemma_removed_are_slain(attacks, n - 1, es, ws, id);
    } else if i == cur.len() - 1 {
        assert(attacks[n - 1].message == id);
    } else {
        assert(attacks[n - 1].victim == id);
    }
}

fn find_entity(es: &Vec<Combatant>, id: EntityId) -> (r: Option<usize>)
    requires
        ids_unique(es@),
    ensures
        r is None <==> !has_id(es@, id),
        r matches Some(k) ==> k < es@.len() && es@[k as int].id == id && entity_of(es@, id) == es@[k as int],
{
    let mut k: usize = 0;
    while k < es.len()
        invariant
            k <= es@.len(),
            ids_unique(es@),
            forall|j: int| 0 <= j < k ==> (#[trigger] es@[j]).id != id,
        decreases es@.len() - k,
    {
        if es[k].id == id {
            proof {
                let c = choose|j: int| 0 <= j < es@.len() && (#[trigger] es@[j]).id == id;
                assert(es@[k as int].id == id);
                if c < k {
                    assert(es@[c].id != es@[k as int].id);
                } else if c > k {
                    assert(es@[k as int].id != es@[c].id);
                }
            }
            return Some(k);
        }
        k = k + 1;
    }
    None
}

/// The combat system: each attack, in order, lowers the victim's hit points
/// by the attacker's damage plus that of the weapons it carries; a victim
/// that is not the player is removed once down to zero or fewer, and each
/// attack's message is removed. Returns the entities to remove, in order.
pub fn combat(attacks: &Vec<AttackMessage>, entities: &mut Vec<Combatant>, weapons: &Vec<Weapon>) -> (removed: Vec<EntityId>)
    requires
        ids_unique(old(entities)@),
        forall|k: int| 0 <= k < attacks@.len() ==> has_id(old(entities)@, (#[trigger] attacks@[k]).victim),
        combat_bounded(attacks@, old(entities)@, weapons@),
    ensures
        final(entities)@.len() == old(entities)@.len(),
        forall|k: int| 0 <= k < final(entities)@.len() ==> #[trigger] final(entities)@[k]
            == after_attacks(old(entities)@[k], attacks@, attacks@.len() as int, old(entities)@, weapons@),
        removed@ == removals(attacks@, attacks@.len() as int, old(entities)@, weapons@),
{
    let ghost es0 = entities@;
    let ghost ws = weapons@;
    let mut removed: Vec<EntityId> = Vec::new();
    let mut i: usize = 0;
    while i < attacks.len()
        invariant
            i <= attacks@.len(),
            es0 == old(entities)@,
            ws == weapons@,
            ids_unique(es0),
            forall|k: int| 0 <= k < attacks@.len() ==> has_id(es0, (#[trigger] attacks@[k]).victim),
            combat_bounded(attacks@, es0, ws),
            entities@.len() == es0.len(),
            forall|k: int| 0 <= k < entities@.len() ==> #[trigger] entities@[k]
                == after_attacks(es0[k], attacks@, i as int, es0, ws),
            removed@ == removals(attacks@, i as int, es0, ws),
        decreases attacks@.len() - i,
    {
        let a = attacks[i];
        proof {
            assert forall|j: int| 0 <= j < entities@.len() implies (#[trigger] entities@[j]).id == es0[j].id
                && entities@[j].damage == es0[j].damage && entities@[j].is_player == es0[j].is_player by {
                assert(entities@[j] == after_attacks(es0[j], attacks@, i as int, es0, ws));
            }
            assert(ids_unique(entities@));
            assert forall|id: EntityId| has_id(entities@, id) == has_id(es0, id) by {
                if has_id(entities@, id) {
                    let k = choose|k: int| 0 <= k < entities@.len() && (#[trigger] entities@[k]).id == id;
                    assert(es0[k].id == id);
                }
                if has_id(es0, id) {
                    let k = choose|k: int| 0 <= k < es0.len() && (#[trigger] es0[k]).id == id;
                    assert(entities@[k].id == id);
                }
            }
        }
        let base: i32 = match find_entity(entities, a.attacker) {
            Some(k) => {
                proof {
                    let c = choose|j: int| 0 <= j < es0.len() && (#[trigger] es0[j]).id == a.attacker;
                    assert(es0[c].id == entities@[c].id);
                    assert(c == k);
                }
                match entities[k].damage {
                    Some(d) => d,
                    None => 0,
                }
            },
            None => 0,
        };
        proof {
            assert(a == attacks@[i as int]);
            assert forall|n: int| 0 <= n <= ws.len() implies fits_i32(#[trigger] weapon_damage(ws, n, a.attacker)) by {
                assert(fits_i32(weapon_damage(ws, n, attacks@[i as int].attacker)));
            }
            assert(fits_i32(attack_damage(es0, ws, attacks@[i as int].attacker)));
        }
        let mut weapon: i32 = 0;
        let mut w: usize = 0;
        while w < weapons.len()
            invariant
                w <= ws.len(),
                ws == weapons@,
                forall|n: int| 0 <= n <= ws.len() ==> fits_i32(#[trigger] weapon_damage(ws, n, a.attacker)),
                weapon == weapon_damage(ws, w as int, a.attacker),
            decreases ws.len() - w,
        {
            proof { assert(fits_i32(weapon_damage(ws, w + 1, a.attacker))); }
            if weapons[w].carrier == a.attacker {
                weapon = weapon + weapons[w].damage;
            }
            w = w + 1;
        }
        let total = base + weapon;
        assert(total == attack_damage(es0, ws, a.attacker));
        let vk = match find_entity(entities, a.victim) {
            Some(k) => k,
            None => {
                assert(has_id(es0, attacks@[i as int].victim));
                return removed;
            },
        };
        let ghost vk0 = choose|j: int| 0 <= j < es0.len() && (#[trigger] es0[j]).id == a.victim;
        proof {
            assert(es0[vk0].id == entities@[vk0].id);
            assert(vk0 == vk);
        }
        let is_player = entities[vk].is_player;
        let ghost before = entities@;
        match entities[vk].health {
            Some(h) => {
                proof {
                    assert(es0[vk as int].health is Some);
                    assert(fits_i32(es0[vk as int].health->0.current - damage_to(attacks@, i + 1, es0[vk as int].id, es0, ws)));
                    assert(fits_i32(es0[vk as int].health->0.current - damage_to(attacks@, i as int, es0[vk as int].id, es0, ws)));
                }
                let current = h.current - total;
                let e = entities[vk];
                entities.set(vk, Combatant { health: Some(Health { current, max: h.max }), ..e });
                if current < 1 && !is_player {
                    removed.push(a.victim);
                }
            },
            None => {},
        }
        removed.push(a.message);
        proof {
            assert forall|k: int| 0 <= k < entities@.len() implies #[trigger] entities@[k]
                == after_attacks(es0[k], attacks@, i + 1, es0, ws) by {
                if k != vk {
                    assert(es0[k].id != a.victim);
                }
            }
            assert(entity_of(es0, a.victim) == es0[vk as int]);
            assert(removed@ =~= removals(attacks@, i + 1, es0, ws));
        }
        i = i + 1;
    }
    removed
}

} // verus!
