use vstd::prelude::*;
use crate::geometry::{Point, dist_sq, distance_sq};
use crate::map::{TileMap, on_map, spec_idx, spec_point_of, lemma_idx_point, lemma_point_idx, NUM_TILES};
use crate::pathing::DistanceField;
use crate::systems::{EntityId, Intent, WantsToAttack, WantsToMove};

verus! {

/// A creature that chases the player.
#[derive(Clone, Copy, Debug, PartialEq, Eq, Structural)]
pub struct Chaser {
    pub id: EntityId,
    pub pos: Point,
}

/// An entity with hit points, and whether it is the player.
#[derive(Clone, Copy, Debug, PartialEq, Eq, Structural)]
pub struct Target {
    pub id: EntityId,
    pub pos: Point,
    pub is_player: bool,
}

/// Sort key of a distance: unreached tiles after all reached ones.
pub open spec fn dkey(o: Option<u32>) -> int {
    match o {
        Some(v) => v as int,
        None => u32::MAX as int + 1,
    }
}

/// The first of the exits whose distance is least.
pub open spec fn is_lowest_exit(d: Seq<Option<u32>>, exits: Seq<usize>, k: int) -> bool {
    &&& 0 <= k < exits.len()
    &&& forall|j: int| 0 <= j < exits.len() ==> dkey(d[exits[k] as int]) <= dkey(d[#[trigger] exits[j] as int])
    &&& forall|j: int| 0 <= j < k ==> dkey(d[exits[k] as int]) < dkey(d[#[trigger] exits[j] as int])
}

/// `DijkstraMap::find_lowest_exit` of bracket-lib for this map: among the
/// tiles one step from `idx` that can be entered, the one nearest the
/// search's start, the first in the order west, east, north, south among
/// equally near ones; `None` when no neighbor can be entered.
pub fn lowest_exit(d: &DistanceField, idx: usize, map: &TileMap) -> (r: Option<usize>)
    requires
        map.wf(),
        idx < NUM_TILES,
        d@.len() == NUM_TILES,
    ensures
        r is None <==> map.spec_exits(idx as int).len() == 0,
        r matches Some(e) ==> exists|k: int| is_lowest_exit(d@, map.spec_exits(idx as int), k)
            && e == map.spec_exits(idx as int)[k],
{
    let exits = map.available_exits(idx);
    if exits.len() == 0 {
        return None;
    }
    let ghost ex = exits@;
    assert forall|j: int| 0 <= j < ex.len() implies ex[j] < NUM_TILES by {
        let p = spec_point_of(idx as int);
        lemma_point_idx(idx as int);
    }
    let mut best: usize = 0;
    let mut k: usize = 1;
    while k < exits.len()
        invariant
            exits@ == ex,
            ex.len() <= 4,
            1 <= k <= ex.len(),
            d@.len() == NUM_TILES,
            forall|j: int| 0 <= j < ex.len() ==> ex[j] < NUM_TILES,
            best < k,
            is_lowest_exit(d@, ex.subrange(0, k as int), best as int),
        decreases ex.len() - k,
    {
        let better = match (d[exits[k]], d[exits[best]]) {
            (Some(a), Some(b)) => a < b,
            (Some(_), None) => true,
            (None, _) => false,
        };
        if better {
            best = k;
        }
        proof {
            let s0 = ex.subrange(0, k as int);
            let s1 = ex.subrange(0, k + 1);
            assert forall|j: int| 0 <= j < k implies s1[j] == s0[j] by {}
        }
        k = k + 1;
    }
    assert(ex.subrange(0, ex.len() as int) =~= ex);
    Some(exits[best])
}

/// What one chaser wants: to step onto its lowest exit, or onto the player
/// when within reach (straight-line distance at most 1.2, that is a squared
/// distance of at most one); to attack every player standing there, or to
/// move there if no player does. Nothing when it has no exit.
pub open spec fn chase_intents(c: Chaser, exit: Option<usize>, targets: Seq<Target>, player: Point) -> Seq<Intent> {
    match exit {
        None => Seq::empty(),
        Some(e) => {
            let dest = if dist_sq(c.pos, player) > 1 { spec_point_of(e as int) } else { player };
            let victims = targets.filter(|t: Target| t.pos == dest && t.is_player);
            if victims.len() == 0 {
                seq![Intent::Move(WantsToMove { entity: c.id, destination: dest })]
            } else {
                victims.map_values(|t: Target| Intent::Attack(WantsToAttack { attacker: c.id, victim: t.id }))
            }
        },
    }
}


/// A chaser that can move either moves exactly once or only attacks, never
/// both; one with no exit does nothing.
pub proof fn lemma_chase_moves_or_attacks(c: Chaser, exit: Option<usize>, targets: Seq<Target>, player: Point)
    ensures
        exit is None ==> chase_intents(c, exit, targets, player).len() == 0,
        exit is Some ==> {
            let is = chase_intents(c, exit, targets, player);
            ||| is.len() == 1 && is[0] is Move
            ||| is.len() >= 1 && forall|k: int| 0 <= k < is.len() ==> #[trigger] is[k] is Attack
        },
{
}

/// What one chaser wants is its own doing: it attacks only players among
/// the targets, and moves only itself.
pub proof fn lemma_chase_intent_parts(c: Chaser, exit: Option<usize>, targets: Seq<Target>, player: Point)
    ensures
        forall|k: int| 0 <= k < chase_intents(c, exit, targets, player).len() ==>
            match #[trigger] chase_intents(c, exit, targets, player)[k] {
                Intent::Attack(a) => a.attacker == c.id
                    && exists|t: int| 0 <= t < targets.len() && targets[t].is_player && targets[t].id == a.victim,
                Intent::Move(m) => m.entity == c.id,
            },
{
    if let Some(e) = exit {
        let dest = if dist_sq(c.pos, player) > 1 { spec_point_of(e as int) } else { player };
        let pred = |t: Target| t.pos == dest && t.is_player;
        let victims = targets.filter(pred);
        assert forall|k: int| 0 <= k < victims.len() implies
            (#[trigger] victims[k]).is_player && targets.contains(victims[k]) by {
            targets.lemma_filter_pred(pred, k);
            assert(victims.contains(victims[k]));
            targets.lemma_filter_contains_rev(pred, victims[k]);
        }
    }
}

/// The chasing law over the whole output: every attack is made by a chaser
/// on a player among the targets, and every move is a chaser's own.
pub proof fn lemma_chasing_sound(
    chasers: Seq<Chaser>,
    n: int,
    targets: Seq<Target>,
    player: Point,
    map: TileMap,
    d: Seq<Option<u32>>,
)
    requires
        0 <= n <= chasers.len(),
    ensures
        forall|k: int| 0 <= k < chasing_intents(chasers, n, targets, player, map, d).len() ==>
            match #[trigger] chasing_intents(chasers, n, targets, player, map, d)[k] {
                Intent::Attack(a) => (exists|c: int| 0 <= c < n && chasers[c].id == a.attacker)
                    && exists|t: int| 0 <= t < targets.len() && targets[t].is_player && targets[t].id == a.victim,
                Intent::Move(m) => exists|c: int| 0 <= c < n && chasers[c].id == m.entity,
            },
    decreases n,
{
    if n > 0 {
        lemma_chasing_sound(chasers, n - 1, targets, player, map, d);
        let c = chasers[n - 1];
        let exit = lowest_exit_of(d, map.spec_exits(spec_idx(c.pos.x as int, c.pos.y as int)));
        lemma_chase_intent_parts(c, exit, targets, player);
        let prev = chasing_intents(chasers, n - 1, targets, player, map, d);
        let part = chase_intents(c, exit, targets, player);
        let all = chasing_intents(chasers, n, targets, player, map, d);
        assert(all == prev + part);
        assert forall|k: int| 0 <= k < all.len() implies
            match #[trigger] all[k] {
                Intent::Attack(a) => (exists|c2: int| 0 <= c2 < n && chasers[c2].id == a.attacker)
                    && exists|t: int| 0 <= t < targets.len() && targets[t].is_player && targets[t].id == a.victim,
                Intent::Move(m) => exists|c2: int| 0 <= c2 < n && chasers[c2].id == m.entity,
            } by {
            if k < prev.len() {
                assert(all[k] == prev[k]);
            } else {
                assert(all[k] == part[k - prev.len()]);
                match all[k] {
                    Intent::Attack(a) => { assert(chasers[n - 1].id == a.attacker); },
                    Intent::Move(m) => { assert(chasers[n - 1].id == m.entity); },
                }
            }
        }
    }
}

/// The creature an intent is about: the attacker of an attack, the mover of
/// a move.
pub open spec fn actor(i: Intent) -> EntityId {
    match i {
        Intent::Attack(a) => a.attacker,
        Intent::Move(m) => m.entity,
    }
}

/// The intents about the creature `id`, in their order.
pub open spec fn intents_of(is: Seq<Intent>, id: EntityId) -> Seq<Intent> {
    is.filter(|i: Intent| actor(i) == id)
}

/// A sequence all of whose items pass a filter is its own filtering.
proof fn lemma_filter_keeps_all(s: Seq<Intent>, p: spec_fn(Intent) -> bool)
    requires
        forall|k: int| 0 <= k < s.len() ==> p(#[trigger] s[k]),
    ensures
        s.filter(p) == s,
    decreases s.len(),
{
    reveal_with_fuel(Seq::<Intent>::filter, 1);
    if s.len() > 0 {
        let rest = s.drop_last();
        assert forall|k: int| 0 <= k < rest.len() implies p(#[trigger] rest[k]) by {
            assert(rest[k] == s[k]);
        }
        lemma_filter_keeps_all(rest, p);
        assert(s =~= rest.push(s.last()));
    }
}

/// A sequence none of whose items pass a filter filters to nothing.
proof fn lemma_filter_drops_all(s: Seq<Intent>, p: spec_fn(Intent) -> bool)
    requires
        forall|k: int| 0 <= k < s.len() ==> !p(#[trigger] s[k]),
    ensures
        s.filter(p) == Seq::<Intent>::empty(),
    decreases s.len(),
{
    reveal_with_fuel(Seq::<Intent>::filter, 1);
    if s.len() > 0 {
        let rest = s.drop_last();
        assert forall|k: int| 0 <= k < rest.len() implies !p(#[trigger] rest[k]) by {
            assert(rest[k] == s[k]);
        }
        lemma_filter_drops_all(rest, p);
    }
}

/// Among chasers with distinct ids, what the chasing system asks of one
/// chaser is just what that chaser wants on its own: taken with
/// `lemma_chase_moves_or_attacks`, each chaser gets either one move (to
/// the player's cell when it is next to the player, else to its lowest
/// exit) or one or more attacks on players and no move, and nothing at
/// all only when no neighbor of its cell can be entered.
pub proof fn lemma_chasing_per_chaser(
    chasers: Seq<Chaser>,
    n: int,
    targets: Seq<Target>,
    player: Point,
    map: TileMap,
    d: Seq<Option<u32>>,
    c: int,
)
    requires
        0 <= c < n <= chasers.len(),
        forall|a: int, b: int| 0 <= a < b < n ==> (#[trigger] chasers[a]).id != (#[trigger] chasers[b]).id,
    ensures
        intents_of(chasing_intents(chasers, n, targets, player, map, d), chasers[c].id)
            == chase_intents(chasers[c],
                lowest_exit_of(d, map.spec_exits(spec_idx(chasers[c].pos.x as int, chasers[c].pos.y as int))),
                targets, player),
    decreases n,
{
    let id = chasers[c].id;
    let p = |i: Intent| actor(i) == id;
    let last = chasers[n - 1];
    let exit = lowest_exit_of(d, map.spec_exits(spec_idx(last.pos.x as int, last.pos.y as int)));
    let prev = chasing_intents(chasers, n - 1, targets, player, map, d);
    let part = chase_intents(last, exit, targets, player);
    assert(chasing_intents(chasers, n, targets, player, map, d) == prev + part);
    Seq::filter_distributes_over_add(prev, part, p);
    lemma_chase_intent_parts(last, exit, targets, player);
    if c == n - 1 {
        lemma_chasing_sound(chasers, n - 1, targets, player, map, d);
        assert forall|k: int| 0 <= k < prev.len() implies !p(#[trigger] prev[k]) by {
            match prev[k] {
                Intent::Attack(a) => {
                    let c2 = choose|c2: int| 0 <= c2 < n - 1 && chasers[c2].id == a.attacker;
                    assert(chasers[c2].id != chasers[n - 1].id);
                },
                Intent::Move(m) => {
                    let c2 = choose|c2: int| 0 <= c2 < n - 1 && chasers[c2].id == m.entity;
                    assert(chasers[c2].id != chasers[n - 1].id);
                },
            }
        }
        lemma_filter_drops_all(prev, p);
        assert forall|k: int| 0 <= k < part.len() implies p(#[trigger] part[k]) by {
            match part[k] {
                Intent::Attack(a) => {},
                Intent::Move(m) => {},
            }
        }
        lemma_filter_keeps_all(part, p);
        assert(prev.filter(p) + part.filter(p) =~= part);
    } else {
        lemma_chasing_per_chaser(chasers, n - 1, targets, player, map, d, c);
        assert(chasers[c].id != chasers[n - 1].id);
        assert forall|k: int| 0 <= k < part.len() implies !p(#[trigger] part[k]) by {
            match part[k] {
                Intent::Attack(a) => {},
                Intent::Move(m) => {},
            }
        }
        lemma_filter_drops_all(part, p);
        assert(prev.filter(p) + part.filter(p) =~= prev.filter(p));
    }
}

/// The lowest exit, as a value.
pub open spec fn lowest_exit_of(d: Seq<Option<u32>>, exits: Seq<usize>) -> Option<usize> {
    if exits.len() == 0 {
        None
    } else {
        Some(exits[choose|k: int| is_lowest_exit(d, exits, k)])
    }
}

/// Exit `k` is the first of least distance among the first `n` exits.
pub open spec fn lowest_in_prefix(d: Seq<Option<u32>>, exits: Seq<usize>, n: int, k: int) -> bool {
    &&& 0 <= k < n
    &&& forall|j: int| 0 <= j < n ==> dkey(d[exits[k] as int]) <= dkey(d[#[trigger] exits[j] as int])
    &&& forall|j: int| 0 <= j < k ==> dkey(d[exits[k] as int]) < dkey(d[#[trigger] exits[j] as int])
}

/// Among the first `n` exits there is one whose distance is least, the
/// first such.
proof fn lemma_lowest_in_prefix(d: Seq<Option<u32>>, exits: Seq<usize>, n: int)
    requires
        1 <= n <= exits.len(),
    ensures
        exists|k: int| #[trigger] lowest_in_prefix(d, exits, n, k),
    decreases n,
{
    if n == 1 {
        assert(lowest_in_prefix(d, exits, n, 0));
    } else {
        lemma_lowest_in_prefix(d, exits, n - 1);
        let k = choose|k: int| #[trigger] lowest_in_prefix(d, exits, n - 1, k);
        if dkey(d[exits[n - 1] as int]) < dkey(d[exits[k] as int]) {
            let m = n - 1;
            assert forall|j: int| 0 <= j < m implies dkey(d[exits[m] as int]) < dkey(d[#[trigger] exits[j] as int]) by {
                assert(dkey(d[exits[k] as int]) <= dkey(d[exits[j] as int]));
            }
            assert(lowest_in_prefix(d, exits, n, m));
        } else {
            assert(lowest_in_prefix(d, exits, n, k));
        }
    }
}

/// A tile with at least one exit has a lowest one.
pub proof fn lemma_lowest_exit_exists(d: Seq<Option<u32>>, exits: Seq<usize>)
    requires
        exits.len() > 0,
    ensures
        exists|k: int| is_lowest_exit(d, exits, k),
        lowest_exit_of(d, exits) matches Some(e)
            && exists|k: int| is_lowest_exit(d, exits, k) && e == exits[k],
{
    lemma_lowest_in_prefix(d, exits, exits.len() as int);
    let k = choose|k: int| #[trigger] lowest_in_prefix(d, exits, exits.len() as int, k);
    assert(is_lowest_exit(d, exits, k));
}

/// Reach of one chaser, where every player among the targets stands on the
/// player's cell: it attacks only when orthogonally next to the player (a
/// squared distance of at most one); farther away it makes exactly one
/// move, onto the lowest of the exits of its cell.
pub proof fn lemma_chaser_reach(c: Chaser, targets: Seq<Target>, player: Point, map: TileMap, d: Seq<Option<u32>>)
    requires
        on_map(c.pos),
        forall|t: int| 0 <= t < targets.len() && (#[trigger] targets[t]).is_player ==> targets[t].pos == player,
    ensures
        ({
            let ex = map.spec_exits(spec_idx(c.pos.x as int, c.pos.y as int));
            let is = chase_intents(c, lowest_exit_of(d, ex), targets, player);
            &&& forall|j: int| 0 <= j < is.len() && (#[trigger] is[j]) is Attack ==> dist_sq(c.pos, player) <= 1
            &&& ex.len() > 0 && dist_sq(c.pos, player) > 1 ==> exists|k: int| is_lowest_exit(d, ex, k)
                    && is == seq![Intent::Move(WantsToMove { entity: c.id, destination: spec_point_of(ex[k] as int) })]
            &&& ex.len() > 0 && dist_sq(c.pos, player) <= 1 && (exists|t: int| 0 <= t < targets.len() && (#[trigger] targets[t]).is_player)
                    ==> is.len() >= 1 && forall|j: int| 0 <= j < is.len() ==> (#[trigger] is[j] matches Intent::Attack(a)
                        && a.attacker == c.id
                        && exists|t: int| 0 <= t < targets.len() && targets[t].is_player && targets[t].id == a.victim)
            &&& ex.len() > 0 && dist_sq(c.pos, player) <= 1 && (forall|t: int| 0 <= t < targets.len() ==> !(#[trigger] targets[t]).is_player)
                    ==> is == seq![Intent::Move(WantsToMove { entity: c.id, destination: player })]
        }),
{
    let ci = spec_idx(c.pos.x as int, c.pos.y as int);
    let ex = map.spec_exits(ci);
    let exit = lowest_exit_of(d, ex);
    let is = chase_intents(c, exit, targets, player);
    lemma_idx_point(c.pos);
    if ex.len() > 0 && dist_sq(c.pos, player) > 1 {
        lemma_lowest_exit_exists(d, ex);
        let k = choose|k: int| is_lowest_exit(d, ex, k) && exit == Some(ex[k]);
        crate::map_builder::drunkard::lemma_exit_is_neighbor(map, ci, k);
        let q = spec_point_of(ex[k] as int);
        assert(crate::map_builder::drunkard::adjacent(c.pos, q));
        assert(dist_sq(c.pos, q) == 1) by (nonlinear_arith)
            requires
                crate::map_builder::drunkard::adjacent(c.pos, q),
        ;
        let pred = |t: Target| t.pos == q && t.is_player;
        let victims = targets.filter(pred);
        if victims.len() > 0 {
            targets.lemma_filter_pred(pred, 0);
            assert(victims.contains(victims[0]));
            targets.lemma_filter_contains_rev(pred, victims[0]);
            let t = choose|t: int| 0 <= t < targets.len() && targets[t] == victims[0];
            assert(targets[t].is_player);
            assert(q == player);
            assert(false);
        }
        assert(is == seq![Intent::Move(WantsToMove { entity: c.id, destination: q })]);
    }
    if ex.len() > 0 && dist_sq(c.pos, player) <= 1 {
        lemma_chase_intent_parts(c, exit, targets, player);
        let pred = |t: Target| t.pos == player && t.is_player;
        let victims = targets.filter(pred);
        if exists|t: int| 0 <= t < targets.len() && (#[trigger] targets[t]).is_player {
            let t = choose|t: int| 0 <= t < targets.len() && (#[trigger] targets[t]).is_player;
            targets.lemma_filter_contains(pred, t);
            assert(victims.len() > 0);
        } else if victims.len() > 0 {
            targets.lemma_filter_pred(pred, 0);
            assert(victims.contains(victims[0]));
            targets.lemma_filter_contains_rev(pred, victims[0]);
            let t = choose|t: int| 0 <= t < targets.len() && targets[t] == victims[0];
            assert(targets[t].is_player);
        }
    }
}

/// The chasing system over all its chasers, where every player among the
/// targets stands on the player's cell: every attack it asks for comes from
/// a chaser orthogonally next to the player.
pub proof fn lemma_chasers_strike_only_adjacent(
    chasers: Seq<Chaser>,
    n: int,
    targets: Seq<Target>,
    player: Point,
    map: TileMap,
    d: Seq<Option<u32>>,
)
    requires
        0 <= n <= chasers.len(),
        forall|k: int| 0 <= k < n ==> on_map(#[trigger] chasers[k].pos),
        forall|t: int| 0 <= t < targets.len() && (#[trigger] targets[t]).is_player ==> targets[t].pos == player,
    ensures
        forall|k: int| 0 <= k < chasing_intents(chasers, n, targets, player, map, d).len() ==>
            match #[trigger] chasing_intents(chasers, n, targets, player, map, d)[k] {
                Intent::Attack(a) => exists|c: int| 0 <= c < n && chasers[c].id == a.attacker
                    && dist_sq(chasers[c].pos, player) <= 1,
                Intent::Move(m) => true,
            },
    decreases n,
{
    if n > 0 {
        lemma_chasers_strike_only_adjacent(chasers, n - 1, targets, player, map, d);
        let c = chasers[n - 1];
        let exit = lowest_exit_of(d, map.spec_exits(spec_idx(c.pos.x as int, c.pos.y as int)));
        assert(on_map(chasers[n - 1].pos));
        lemma_chaser_reach(c, targets, player, map, d);
        lemma_chase_intent_parts(c, exit, targets, player);
        let prev = chasing_intents(chasers, n - 1, targets, player, map, d);
        let part = chase_intents(c, exit, targets, player);
        let all = chasing_intents(chasers, n, targets, player, map, d);
        assert(all == prev + part);
        assert forall|k: int| 0 <= k < all.len() implies
            match #[trigger] all[k] {
                Intent::Attack(a) => exists|c2: int| 0 <= c2 < n && chasers[c2].id == a.attacker
                    && dist_sq(chasers[c2].pos, player) <= 1,
                Intent::Move(m) => true,
            } by {
            if k < prev.len() {
                assert(all[k] == prev[k]);
            } else {
                assert(all[k] == part[k - prev.len()]);
                match all[k] {
                    Intent::Attack(a) => {
                        assert(part[k - prev.len()] is Attack);
                        assert(chasers[n - 1].id == a.attacker);
                    },
                    Intent::Move(m) => {},
                }
            }
        }
    }
}

/// Only one exit is the lowest.
pub proof fn lemma_lowest_exit_unique(d: Seq<Option<u32>>, exits: Seq<usize>, k1: int, k2: int)
    requires
        is_lowest_exit(d, exits, k1),
        is_lowest_exit(d, exits, k2),
    ensures
        k1 == k2,
{
    if k1 < k2 {
        assert(dkey(d[exits[k2] as int]) < dkey(d[exits[k1] as int]));
    } else if k2 < k1 {
        assert(dkey(d[exits[k1] as int]) < dkey(d[exits[k2] as int]));
    }
}

/// The intents of the first `n` chasers, in their order.
pub open spec fn chasing_intents(
    chasers: Seq<Chaser>,
    n: int,
    targets: Seq<Target>,
    player: Point,
    map: TileMap,
    d: Seq<Option<u32>>,
) -> Seq<Intent>
    decreases n,
{
    if n <= 0 {
        Seq::empty()
    } else {
        let c = chasers[n - 1];
        chasing_intents(chasers, n - 1, targets, player, map, d) + chase_intents(
            c,
            lowest_exit_of(d, map.spec_exits(spec_idx(c.pos.x as int, c.pos.y as int))),
            targets,
            player,
        )
    }
}

/// The chasing system: every chaser heads one step down the distance field
/// `d`, which the application computes from the player's tile, and attacks
/// the player instead of moving onto it.
pub fn chasing(
    chasers: &Vec<Chaser>,
    targets: &Vec<Target>,
    player_position: Point,
    map: &TileMap,
    d: &DistanceField,
) -> (intents: Vec<Intent>)
    requires
        map.wf(),
        d@.len() == NUM_TILES,
        on_map(player_position),
        forall|k: int| 0 <= k < chasers@.len() ==> on_map(#[trigger] chasers@[k].pos),
    ensures
        intents@ == chasing_intents(chasers@, chasers@.len() as int, targets@, player_position, *map, d@),
{
    let mut intents: Vec<Intent> = Vec::new();
    let mut i: usize = 0;
    while i < chasers.len()
        invariant
            i <= chasers@.len(),
            map.wf(),
            d@.len() == NUM_TILES,
            on_map(player_position),
            forall|k: int| 0 <= k < chasers@.len() ==> on_map(#[trigger] chasers@[k].pos),
            intents@ == chasing_intents(chasers@, i as int, targets@, player_position, *map, d@),
        decreases chasers@.len() - i,
    {
        let c = chasers[i];
        let idx = map.point2d_to_index(c.pos);
        let exit = lowest_exit(d, idx, map);
        proof {
            let ex = map.spec_exits(idx as int);
            if exit is Some {
                let k = choose|k: int| is_lowest_exit(d@, ex, k) && exit->0 == ex[k];
                let k2 = choose|k: int| is_lowest_exit(d@, ex, k);
                lemma_lowest_exit_unique(d@, ex, k, k2);
            }
            assert(exit == lowest_exit_of(d@, ex));
        }
        let ghost before = intents@;
        match exit {
            None => {
                assert(intents@ =~= chasing_intents(chasers@, i + 1, targets@, player_position, *map, d@));
            },
            Some(e) => {
                proof { lemma_point_idx(e as int); }
                let destination = if distance_sq(c.pos, player_position) > 1 {
                    map.index_to_point2d(e)
                } else {
                    player_position
                };
                let ghost pred = |t: Target| t.pos == destination && t.is_player;
                let ghost to_attack = |t: Target| Intent::Attack(WantsToAttack { attacker: c.id, victim: t.id });
                let mut attacked = false;
                let mut j: usize = 0;
                while j < targets.len()
                    invariant
                        j <= targets@.len(),
                        pred == (|t: Target| t.pos == destination && t.is_player),
                        to_attack == (|t: Target| Intent::Attack(WantsToAttack { attacker: c.id, victim: t.id })),
                        intents@ == before + targets@.take(j as int).filter(pred).map_values(to_attack),
                        attacked == (targets@.take(j as int).filter(pred).len() > 0),
                    decreases targets@.len() - j,
                {
                    reveal_with_fuel(Seq::<Target>::filter, 1);
                    let t = targets[j];
                    assert(targets@.take(j + 1).drop_last() =~= targets@.take(j as int));
                    if t.pos == destination && t.is_player {
                        intents.push(Intent::Attack(WantsToAttack { attacker: c.id, victim: t.id }));
                        attacked = true;
                        assert(targets@.take(j + 1).filter(pred) =~= targets@.take(j as int).filter(pred).push(t));
                        assert(targets@.take(j + 1).filter(pred).map_values(to_attack)
                            =~= targets@.take(j as int).filter(pred).map_values(to_attack).push(to_attack(t)));
                    } else {
                        assert(targets@.take(j + 1).filter(pred) =~= targets@.take(j as int).filter(pred));
                    }
                    j = j + 1;
                }
                assert(targets@.take(targets@.len() as int) =~= targets@);
                if !attacked {
                    intents.push(Intent::Move(WantsToMove { entity: c.id, destination }));
                }
                proof {
                    let victims = targets@.filter(pred);
                    if victims.len() == 0 {
                        assert(victims.map_values(to_attack) =~= Seq::<Intent>::empty());
                    }
                    assert(intents@ =~= chasing_intents(chasers@, i + 1, targets@, player_position, *map, d@));
                }
            },
        }
        i = i + 1;
    }
    intents
}

} // verus!
