use vstd::prelude::*;
use legion::World;
use vstd::multiset::Multiset;
use crate::components::{
    Player, Enemy, Item, AmuletOfYala, ChasingPlayer, ProvidesDungeonMap, ProvidesHealing,
    Health, Name, Render, FieldOfView, color_pair, spec_color_pair, white, black,
};
use crate::geometry::Point;
use crate::glyph::{to_cp437, FontCharType};
use crate::random::rng_roll_dice;
use bracket_lib::random::RandomNumberGenerator;

verus! {

#[verifier::external_type_specification]
#[verifier::external_body]
pub struct ExWorld(World);

/// The component sets that the spawners put into the world, one variant
/// per kind of entity.
pub enum Spawned {
    Player(Player, Point, Render, Health, FieldOfView),
    Monster(Enemy, Point, Render, ChasingPlayer, Health, Name, FieldOfView),
    Amulet(Item, AmuletOfYala, Point, Render, Name),
    HealingPotion(Item, Point, Render, Name, ProvidesHealing),
    MagicMapper(Item, Point, Render, Name, ProvidesDungeonMap),
}

/// The entities that spawners have put into a legion `World`, each by the
/// components it was given.
pub uninterp spec fn world_entities(world: World) -> Multiset<Spawned>;

/// `World::push` of legion: adds one entity carrying exactly the given
/// components. Claimed: the world holds that entity besides what it held;
/// the new entity's id is dropped.
#[verifier::external_body]
fn push_spawned(world: &mut World, s: Spawned)
    ensures
        world_entities(*final(world)) == world_entities(*old(world)).insert(s),
{
    match s {
        Spawned::Player(a, b, c, d, e) => { world.push((a, b, c, d, e)); },
        Spawned::Monster(a, b, c, d, e, f, g) => { world.push((a, b, c, d, e, f, g)); },
        Spawned::Amulet(a, b, c, d, e) => { world.push((a, b, c, d, e)); },
        Spawned::HealingPotion(a, b, c, d, e) => { world.push((a, b, c, d, e)); },
        Spawned::MagicMapper(a, b, c, d, e) => { world.push((a, b, c, d, e)); },
    }
}

/// Drawn white on black with the given glyph.
pub open spec fn drawn_as(r: Render, glyph: FontCharType) -> bool {
    r.color == spec_color_pair(white(), black()) && r.glyph == glyph
}

/// A fresh field of view of the given radius.
pub open spec fn fresh_sight(f: FieldOfView, radius: i32) -> bool {
    f.visible_tiles@.len() == 0 && f.radius == radius && f.is_dirty
}

/// The player at `pos`: level zero, `@`, ten hit points of ten, sight eight.
pub open spec fn is_player_at(s: Spawned, pos: Point) -> bool {
    match s {
        Spawned::Player(p, q, r, h, f) => p.map_level == 0 && q == pos && drawn_as(r, 64)
            && h == (Health { current: 10, max: 10 }) && fresh_sight(f, 8),
        _ => false,
    }
}

/// A monster at `pos` with the given hit points, name and glyph, chasing
/// the player, sight six.
pub open spec fn is_monster_at(s: Spawned, pos: Point, hp: i32, name: Seq<char>, glyph: FontCharType) -> bool {
    match s {
        Spawned::Monster(_e, q, r, _c, h, n, f) => q == pos && drawn_as(r, glyph)
            && h == (Health { current: hp, max: hp }) && n.0@ == name && fresh_sight(f, 6),
        _ => false,
    }
}

/// A goblin (one hit point, `g`) or an orc (two hit points, `o`) at `pos`.
pub open spec fn is_goblin_or_orc_at(s: Spawned, pos: Point) -> bool {
    is_monster_at(s, pos, 1, "Goblin"@, 103) || is_monster_at(s, pos, 2, "Orc"@, 111)
}

/// The Amulet of Yala at `pos`, drawn `|`.
pub open spec fn is_amulet_at(s: Spawned, pos: Point) -> bool {
    match s {
        Spawned::Amulet(_i, _a, q, r, n) => q == pos && drawn_as(r, 124) && n.0@ == "Amulet of Yala"@,
        _ => false,
    }
}

/// A healing potion at `pos`, drawn `!`, restoring six hit points.
pub open spec fn is_healing_potion_at(s: Spawned, pos: Point) -> bool {
    match s {
        Spawned::HealingPotion(_i, q, r, n, h) => q == pos && drawn_as(r, 33) && n.0@ == "Healing Potion"@
            && h.amount == 6,
        _ => false,
    }
}

/// A dungeon map at `pos`, drawn `{`.
pub open spec fn is_magic_mapper_at(s: Spawned, pos: Point) -> bool {
    match s {
        Spawned::MagicMapper(_i, q, r, n, _m) => q == pos && drawn_as(r, 123) && n.0@ == "Dungeon map"@,
        _ => false,
    }
}

/// The world holds one more entity, `s`, and nothing else changed.
pub open spec fn added(before: World, after: World, s: Spawned) -> bool {
    world_entities(after) == world_entities(before).insert(s)
}

fn render_white_on_black(glyph: FontCharType) -> (r: Render)
    ensures
        drawn_as(r, glyph),
{
    Render { color: color_pair((255u8, 255u8, 255u8), (0u8, 0u8, 0u8)), glyph }
}

/// What a roll of the six-sided die puts down.
#[derive(Clone, Copy, Debug, PartialEq, Eq, Structural)]
pub enum SpawnKind {
    HealingPotion,
    MagicMapper,
    Monster,
}

/// A one gives a healing potion, a two a dungeon map, any other roll a
/// monster.
pub open spec fn spec_entity_for_roll(roll: int) -> SpawnKind {
    if roll == 1 {
        SpawnKind::HealingPotion
    } else if roll == 2 {
        SpawnKind::MagicMapper
    } else {
        SpawnKind::Monster
    }
}

/// What a roll of the six-sided die puts down.
pub fn entity_for_roll(roll: i32) -> (k: SpawnKind)
    ensures
        k == spec_entity_for_roll(roll as int),
{
    if roll == 1 {
        SpawnKind::HealingPotion
    } else if roll == 2 {
        SpawnKind::MagicMapper
    } else {
        SpawnKind::Monster
    }
}

/// `s` is what a roll puts at `pos`.
pub open spec fn spawned_for_roll(s: Spawned, pos: Point, roll: int) -> bool {
    match spec_entity_for_roll(roll) {
        SpawnKind::HealingPotion => is_healing_potion_at(s, pos),
        SpawnKind::MagicMapper => is_magic_mapper_at(s, pos),
        SpawnKind::Monster => is_goblin_or_orc_at(s, pos),
    }
}

/// Puts a random entity at `pos`: on a roll of one on a six-sided die a
/// healing potion, on a two a dungeon map, otherwise a monster.
pub fn spawn_entity(ecs: &mut World, pos: Point, rnd: &mut RandomNumberGenerator)
    ensures
        exists|roll: int, s: Spawned| {
            &&& 1 <= roll <= 6
            &&& #[trigger] added(*old(ecs), *final(ecs), s)
            &&& #[trigger] spawned_for_roll(s, pos, roll)
        },
{
    let roll = rng_roll_dice(rnd, 1, 6);
    let ghost r = roll as int;
    match entity_for_roll(roll) {
        SpawnKind::HealingPotion => {
            spawn_healing_potion(ecs, pos);
            let ghost s = choose|s: Spawned| #[trigger] added(*old(ecs), *ecs, s) && is_healing_potion_at(s, pos);
            assert(spawned_for_roll(s, pos, r));
        },
        SpawnKind::MagicMapper => {
            spawn_magic_mapper(ecs, pos);
            let ghost s = choose|s: Spawned| #[trigger] added(*old(ecs), *ecs, s) && is_magic_mapper_at(s, pos);
            assert(spawned_for_roll(s, pos, r));
        },
        SpawnKind::Monster => {
            spawn_monster(ecs, pos, rnd);
            let ghost s = choose|s: Spawned| #[trigger] added(*old(ecs), *ecs, s) && is_goblin_or_orc_at(s, pos);
            assert(spawned_for_roll(s, pos, r));
        },
    }
}

/// Puts the player at `pos`.
pub fn spawn_player(ecs: &mut World, pos: Point)
    ensures
        exists|s: Spawned| #[trigger] added(*old(ecs), *final(ecs), s) && is_player_at(s, pos),
{
    let s = Spawned::Player(
        Player { map_level: 0 },
        pos,
        render_white_on_black(to_cp437('@')),
        Health { current: 10, max: 10 },
        FieldOfView::new(8),
    );
    let ghost sg = s;
    push_spawned(ecs, s);
    assert(added(*old(ecs), *ecs, sg));
}

/// The monster of a roll of the ten-sided die: one to eight a goblin, any
/// other roll an orc.
pub open spec fn is_monster_for_roll(s: Spawned, pos: Point, roll: int) -> bool {
    if 1 <= roll <= 8 {
        is_monster_at(s, pos, 1, "Goblin"@, 103)
    } else {
        is_monster_at(s, pos, 2, "Orc"@, 111)
    }
}

/// Hit points, name and glyph of the monster of a roll of the ten-sided
/// die: a goblin on one to eight, an orc otherwise.
pub fn monster_for_roll(roll: i32) -> (r: (i32, String, FontCharType))
    ensures
        1 <= roll <= 8 ==> r.0 == 1 && r.1@ == "Goblin"@ && r.2 == 103,
        !(1 <= roll <= 8) ==> r.0 == 2 && r.1@ == "Orc"@ && r.2 == 111,
{
    if 1 <= roll && roll <= 8 { goblin() } else { orc() }
}

/// Puts a monster at `pos`: a goblin on a roll of one to eight on a
/// ten-sided die, an orc otherwise.
pub fn spawn_monster(ecs: &mut World, pos: Point, rnd: &mut RandomNumberGenerator)
    ensures
        exists|s: Spawned| #[trigger] added(*old(ecs), *final(ecs), s) && is_goblin_or_orc_at(s, pos),
        exists|roll: int, s: Spawned| {
            &&& 1 <= roll <= 10
            &&& #[trigger] added(*old(ecs), *final(ecs), s)
            &&& #[trigger] is_monster_for_roll(s, pos, roll)
        },
{
    broadcast use vstd::string::group_string_axioms;
    let roll = rng_roll_dice(rnd, 1, 10);
    let (hp, name, glyph) = monster_for_roll(roll);
    let s = Spawned::Monster(
        Enemy,
        pos,
        render_white_on_black(glyph),
        ChasingPlayer,
        Health { current: hp, max: hp },
        Name(name),
        FieldOfView::new(6),
    );
    let ghost sg = s;
    push_spawned(ecs, s);
    assert(added(*old(ecs), *ecs, sg));
    assert(is_monster_for_roll(sg, pos, roll as int));
}

/// Puts the Amulet of Yala at `pos`.
pub fn spawn_amulet_of_yala(ecs: &mut World, pos: Point)
    ensures
        exists|s: Spawned| #[trigger] added(*old(ecs), *final(ecs), s) && is_amulet_at(s, pos),
{
    broadcast use vstd::string::group_string_axioms;
    let s = Spawned::Amulet(Item, AmuletOfYala, pos, render_white_on_black(to_cp437('|')), Name("Amulet of Yala".to_string()));
    let ghost sg = s;
    push_spawned(ecs, s);
    assert(added(*old(ecs), *ecs, sg));
}

/// Puts a healing potion at `pos`.
pub fn spawn_healing_potion(ecs: &mut World, pos: Point)
    ensures
        exists|s: Spawned| #[trigger] added(*old(ecs), *final(ecs), s) && is_healing_potion_at(s, pos),
{
    broadcast use vstd::string::group_string_axioms;
    let s = Spawned::HealingPotion(
        Item,
        pos,
        render_white_on_black(to_cp437('!')),
        Name("Healing Potion".to_string()),
        ProvidesHealing { amount: 6 },
    );
    let ghost sg = s;
    push_spawned(ecs, s);
    assert(added(*old(ecs), *ecs, sg));
}

/// Puts a dungeon map at `pos`.
pub fn spawn_magic_mapper(ecs: &mut World, pos: Point)
    ensures
        exists|s: Spawned| #[trigger] added(*old(ecs), *final(ecs), s) && is_magic_mapper_at(s, pos),
{
    broadcast use vstd::string::group_string_axioms;
    let s = Spawned::MagicMapper(
        Item,
        pos,
        render_white_on_black(to_cp437('{')),
        Name("Dungeon map".to_string()),
        ProvidesDungeonMap,
    );
    let ghost sg = s;
    push_spawned(ecs, s);
    assert(added(*old(ecs), *ecs, sg));
}

/// A goblin's hit points, name and glyph.
pub fn goblin() -> (r: (i32, String, FontCharType))
    ensures
        r.0 == 1,
        r.1@ == "Goblin"@,
        r.2 == 103,
{
    broadcast use vstd::string::group_string_axioms;
    (1, "Goblin".to_string(), to_cp437('g'))
}

/// An orc's hit points, name and glyph.
pub fn orc() -> (r: (i32, String, FontCharType))
    ensures
        r.0 == 2,
        r.1@ == "Orc"@,
        r.2 == 111,
{
    broadcast use vstd::string::group_string_axioms;
    (2, "Orc".to_string(), to_cp437('o'))
}

} // verus!
