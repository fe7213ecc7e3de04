use vstd::prelude::*;
use crate::glyph::{to_cp437, FontCharType};
use crate::map::TileType;

verus! {

/// How a level's tiles are drawn.
pub trait MapTheme: Sync + Send {
    /// The glyph the theme draws for each tile type.
    spec fn glyph_of(&self, tile_type: TileType) -> FontCharType;

    /// The name the theme gives itself.
    spec fn name_of(&self) -> Seq<char>;

    fn tile_to_render(&self, tile_type: TileType) -> (g: FontCharType)
        ensures
            g == self.glyph_of(tile_type);

    fn who_am_i(&self) -> (s: String)
        ensures
            s@ == self.name_of();
}

/// Stone corridors: `.` floor, `#` wall, `>` exit.
pub struct DungeonTheme {}

/// Woodland: `;` floor, `"` wall, `>` exit.
pub struct ForestTheme {}

/// The glyph of each tile type under the dungeon theme.
pub open spec fn dungeon_glyph(t: TileType) -> FontCharType {
    match t {
        TileType::Floor => 46,
        TileType::Wall => 35,
        TileType::Exit => 62,
    }
}

/// The glyph of each tile type under the forest theme.
pub open spec fn forest_glyph(t: TileType) -> FontCharType {
    match t {
        TileType::Floor => 59,
        TileType::Wall => 34,
        TileType::Exit => 62,
    }
}

/// Both themes draw the exit the same way, as `>`, so the way down is
/// recognizable on every level.
pub proof fn lemma_exit_glyph_shared()
    ensures
        dungeon_glyph(TileType::Exit) == forest_glyph(TileType::Exit),
        dungeon_glyph(TileType::Exit) == 62,
{
}

impl DungeonTheme {
    pub fn new() -> (t: Box<dyn MapTheme>) {
        Box::new(DungeonTheme {})
    }

    pub fn glyph(&self, tile_type: TileType) -> (g: FontCharType)
        ensures
            g == dungeon_glyph(tile_type),
    {
        match tile_type {
            TileType::Floor => to_cp437('.'),
            TileType::Wall => to_cp437('#'),
            TileType::Exit => to_cp437('>'),
        }
    }
}

impl MapTheme for DungeonTheme {
    open spec fn glyph_of(&self, tile_type: TileType) -> FontCharType {
        dungeon_glyph(tile_type)
    }

    open spec fn name_of(&self) -> Seq<char> {
        "DungeonTheme"@
    }

    fn tile_to_render(&self, tile_type: TileType) -> (g: FontCharType)
        ensures
            g == dungeon_glyph(tile_type),
    {
        self.glyph(tile_type)
    }

    fn who_am_i(&self) -> (s: String)
        ensures
            s@ == "DungeonTheme"@,
    {
        broadcast use vstd::string::group_string_axioms;
        "DungeonTheme".to_string()
    }
}

impl ForestTheme {
    pub fn new() -> (t: Box<dyn MapTheme>) {
        Box::new(ForestTheme {})
    }

    pub fn glyph(&self, tile_type: TileType) -> (g: FontCharType)
        ensures
            g == forest_glyph(tile_type),
    {
        match tile_type {
            TileType::Floor => to_cp437(';'),
            TileType::Wall => to_cp437('"'),
            TileType::Exit => to_cp437('>'),
        }
    }
}

impl MapTheme for ForestTheme {
    open spec fn glyph_of(&self, tile_type: TileType) -> FontCharType {
        forest_glyph(tile_type)
    }

    open spec fn name_of(&self) -> Seq<char> {
        "ForestTheme"@
    }

    fn tile_to_render(&self, tile_type: TileType) -> (g: FontCharType)
        ensures
            g == forest_glyph(tile_type),
    {
        self.glyph(tile_type)
    }

    fn who_am_i(&self) -> (s: String)
        ensures
            s@ == "ForestTheme"@,
    {
        broadcast use vstd::string::group_string_axioms;
        "ForestTheme".to_string()
    }
}

} // verus!
