use vstd::prelude::*;
use bracket_lib::color::ColorPair;
use crate::geometry::Point;
use crate::glyph::FontCharType;

verus! {

#[verifier::external_type_specification]
#[verifier::external_body]
pub struct ExColorPair(ColorPair);

/// The player, with the dungeon level reached.
#[derive(Clone, Copy, Debug, PartialEq, Eq, Structural)]
pub struct Player {
    pub map_level: u32,
}

/// A hostile creature.
#[derive(Clone, Copy, Debug, PartialEq, Eq, Structural)]
pub struct Enemy;

/// Something that can be picked up.
#[derive(Clone, Copy, Debug, PartialEq, Eq, Structural)]
pub struct Item;

/// The item whose finding wins the game.
#[derive(Clone, Copy, Debug, PartialEq, Eq, Structural)]
pub struct AmuletOfYala;

/// A creature that heads for the player.
#[derive(Clone, Copy, Debug, PartialEq, Eq, Structural)]
pub struct ChasingPlayer;

/// A creature that wanders at random.
#[derive(Clone, Copy, Debug, PartialEq, Eq, Structural)]
pub struct MovingRandomly;

/// An item that reveals the whole map when used.
#[derive(Clone, Copy, Debug, PartialEq, Eq, Structural)]
pub struct ProvidesDungeonMap;

/// Hit points, current and most.
#[derive(Clone, Copy, Debug, PartialEq, Eq, Structural)]
pub struct Health {
    pub current: i32,
    pub max: i32,
}

/// An item that restores hit points when used.
#[derive(Clone, Copy, Debug, PartialEq, Eq, Structural)]
pub struct ProvidesHealing {
    pub amount: i32,
}

/// Damage dealt by a creature or a carried weapon.
#[derive(Clone, Copy, Debug, PartialEq, Eq, Structural)]
pub struct Damage(pub i32);

/// A display name.
pub struct Name(pub String);

/// How an entity is drawn.
pub struct Render {
    pub color: ColorPair,
    pub glyph: FontCharType,
}

/// What an entity sees: the visible cells, how far it sees, and whether
/// the visible cells must be worked out again.
pub struct FieldOfView {
    pub visible_tiles: Vec<Point>,
    pub radius: i32,
    pub is_dirty: bool,
}

impl FieldOfView {
    /// Sight of the given radius, nothing seen yet, to be worked out.
    pub fn new(radius: i32) -> (fov: FieldOfView)
        ensures
            fov.visible_tiles@.len() == 0,
            fov.radius == radius,
            fov.is_dirty,
    {
        FieldOfView { visible_tiles: Vec::new(), radius, is_dirty: true }
    }
}

/// `ColorPair::new` of bracket-lib on two RGB triples. Which colors it
/// holds is not visible here; the result is named, a function of the two
/// triples.
pub uninterp spec fn spec_color_pair(fg: (u8, u8, u8), bg: (u8, u8, u8)) -> ColorPair;

/// `ColorPair::new` of bracket-lib: the pair of a foreground and a
/// background color, each converted from an RGB triple. The result is
/// claimed to be the value that `spec_color_pair` names for the triples.
#[verifier::external_body]
pub(crate) fn color_pair(fg: (u8, u8, u8), bg: (u8, u8, u8)) -> (c: ColorPair)
    ensures
        c == spec_color_pair(fg, bg),
{
    ColorPair::new(fg, bg)
}

/// White, as an RGB triple.
pub open spec fn white() -> (u8, u8, u8) {
    (255u8, 255u8, 255u8)
}

/// Black, as an RGB triple.
pub open spec fn black() -> (u8, u8, u8) {
    (0u8, 0u8, 0u8)
}

} // verus!
