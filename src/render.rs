//! How a tile looks: the two characters it is drawn with and its colours.

use crate::tile::{Tile, TileContent, TogglableTile, Wall};
use vstd::prelude::*;

verus! {

/// A colour of the palette the board is drawn with.
#[derive(Debug, Clone, Copy, PartialEq, Eq, Structural)]
pub enum Shade {
    White,
    Black,
    Red,
    Yellow,
}

/// The colour of a tile's symbol (`front`) and of its background (`back`).
#[derive(Debug, Clone, Copy, PartialEq, Eq, Structural)]
pub struct TileStyle {
    pub front: Shade,
    pub back: Shade,
}

/// The text a tile is drawn with: blank, a bulb, a cross, or a wall's clue.
pub open spec fn symbol_of(tile: Tile) -> Seq<char> {
    match tile {
        Tile::Togglable(t) => match t.content {
            TileContent::Nothing => "  "@,
            TileContent::Bulb => "\u{1f4a1}"@,
            TileContent::Cross => "\u{274c}"@,
        },
        Tile::Wall(Wall::Clear) => "  "@,
        Tile::Wall(Wall::Zero) => " 0"@,
        Tile::Wall(Wall::One) => " 1"@,
        Tile::Wall(Wall::Two) => " 2"@,
        Tile::Wall(Wall::Three) => " 3"@,
        Tile::Wall(Wall::Four) => " 4"@,
    }
}

/// The colour of what a togglable cell holds.
pub open spec fn content_shade(content: TileContent) -> Shade {
    match content {
        TileContent::Nothing => Shade::White,
        TileContent::Bulb => Shade::Black,
        TileContent::Cross => Shade::Red,
    }
}

pub fn tile_symbol(tile: &Tile) -> (symbol: &'static str)
    ensures
        symbol@ == symbol_of(*tile),
{
    match tile {
        Tile::Togglable(TogglableTile { content, .. }) => match content {
            TileContent::Nothing => "  ",
            TileContent::Bulb => "\u{1f4a1}",
            TileContent::Cross => "\u{274c}",
        },
        Tile::Wall(Wall::Clear) => "  ",
        Tile::Wall(Wall::Zero) => " 0",
        Tile::Wall(Wall::One) => " 1",
        Tile::Wall(Wall::Two) => " 2",
        Tile::Wall(Wall::Three) => " 3",
        Tile::Wall(Wall::Four) => " 4",
    }
}

/// A wall is white on black; a togglable cell shows its content's colour, on
/// yellow where some bulb lights it and on white where none does.
pub fn color_style(tile: &Tile) -> (style: TileStyle)
    ensures
        tile.is_wall() ==> style == (TileStyle { front: Shade::White, back: Shade::Black }),
        tile matches Tile::Togglable(t) ==> style == (TileStyle {
            front: content_shade(t.content),
            back: if t.light_level > 0 {
                Shade::Yellow
            } else {
                Shade::White
            },
        }),
{
    match tile {
        Tile::Togglable(TogglableTile { light_level: times_lit, content }) => {
            let front = match content {
                TileContent::Nothing => Shade::White,
                TileContent::Bulb => Shade::Black,
                TileContent::Cross => Shade::Red,
            };
            let back = if *times_lit > 0 {
                Shade::Yellow
            } else {
                Shade::White
            };
            TileStyle { front, back }
        },
        Tile::Wall(_) => TileStyle { front: Shade::White, back: Shade::Black },
    }
}

} // verus!
