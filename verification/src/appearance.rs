//! How an entity or a tile is shown. The core carries this data along and
//! never decides by it.

use crate::tile::{Tile, TileType};
use vstd::prelude::*;

verus! {

/// A color as `0xRRGGBB`.
pub type Rgb = u32;

pub const BLACK: Rgb = 0x000000;

pub const WHITE: Rgb = 0xFFFFFF;

pub const RED: Rgb = 0xFF0000;

pub const ORANGE: Rgb = 0xFFA500;

pub const YELLOW: Rgb = 0xFFFF00;

pub const GREEN: Rgb = 0x008000;

pub const TEAL: Rgb = 0x008080;

pub const BLUE: Rgb = 0x0000FF;

/// Name, glyph, colors and drawing order of an entity or a tile.
#[derive(Clone, Debug)]
pub struct Appearance {
    pub name: String,
    pub glyph: char,
    pub foreground: Rgb,
    /// `None` lets what lies below shine through.
    pub background: Option<Rgb>,
    pub z_order: i32,
}

impl Appearance {
    pub fn player() -> (a: Self)
        ensures
            a.name@ == "Player"@,
            a.glyph == '@',
            a.foreground == YELLOW,
            a.background is None,
            a.z_order == 4,
    {
        Appearance {
            name: "Player".to_owned(),
            glyph: '@',
            foreground: YELLOW,
            background: None,
            z_order: 4,
        }
    }

    pub fn monster(name: &str, glyph: char, color: Rgb) -> (a: Self)
        ensures
            a.name@ == name@,
            a.glyph == glyph,
            a.foreground == color,
            a.background is None,
            a.z_order == 3,
    {
        Appearance { name: name.to_owned(), glyph, foreground: color, background: None, z_order: 3 }
    }

    pub fn item(name: &str, glyph: char, color: Rgb) -> (a: Self)
        ensures
            a.name@ == name@,
            a.glyph == glyph,
            a.foreground == color,
            a.background is None,
            a.z_order == 2,
    {
        Appearance { name: name.to_owned(), glyph, foreground: color, background: None, z_order: 2 }
    }

    pub fn map_tile(glyph: char, color: Rgb) -> (a: Self)
        ensures
            a.name@ == Seq::<char>::empty(),
            a.glyph == glyph,
            a.foreground == color,
            a.background == Some(BLACK),
            a.z_order == 0,
    {
        Appearance { name: String::new(), glyph, foreground: color, background: Some(BLACK), z_order: 0 }
    }

    /// How a tile is shown: nothing before it was revealed, then by its
    /// kind.
    pub fn of_tile(tile: &Tile) -> (a: Option<Self>)
        ensures
            a is Some <==> tile.revealed(),
            a is Some ==> {
                &&& a.unwrap().name@ == Seq::<char>::empty()
                &&& a.unwrap().background == Some(BLACK)
                &&& a.unwrap().z_order == 0
                &&& tile.kind() == TileType::Floor ==> a.unwrap().glyph == '\u{2591}' && a.unwrap().foreground == TEAL
                &&& tile.kind() == TileType::Wall ==> a.unwrap().glyph == '#' && a.unwrap().foreground == GREEN
            },
    {
        if !tile.is_revealed() {
            return None;
        }
        Some(
            match tile.tile_type() {
                TileType::Floor => Self::map_tile('\u{2591}', TEAL),
                TileType::Wall => Self::map_tile('#', GREEN),
            },
        )
    }
}

} // verus!
