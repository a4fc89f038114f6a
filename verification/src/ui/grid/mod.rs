use crate::pathfinders::{Pos, Tile};
use vstd::prelude::*;

verus! {

/// How the grid is drawn.
#[derive(Clone, Copy, Debug, PartialEq, Eq, Structural)]
pub enum GridRenderMode {
    WebGL2,
    DOM,
}

/// What a gesture on the grid asks of the owner of the grid.
#[derive(Clone, Copy, Debug, PartialEq, Eq, Structural)]
pub enum GridEvent {
    /// Toggle the tile at this cell.
    TileClick(Pos),
    /// Move the start marker to this cell.
    StartMove(Pos),
    /// Move the end marker to this cell.
    EndMove(Pos),
}

/// What a cell is drawn as.
#[derive(Clone, Copy, Debug, PartialEq, Eq, Structural)]
pub enum TileLook {
    Start,
    End,
    Wall,
    Visited,
    Path,
    Open,
}

/// What a cell is drawn as: the start and end markers come before
/// anything else, then a wall, then a discovered cell, then a cell of the
/// path.
pub open spec fn spec_tile_look(
    tile: Tile,
    is_start: bool,
    is_end: bool,
    is_path: bool,
    is_visited: bool,
) -> TileLook {
    if is_start {
        TileLook::Start
    } else if is_end {
        TileLook::End
    } else if tile == Tile::Wall {
        TileLook::Wall
    } else if is_visited {
        TileLook::Visited
    } else if is_path {
        TileLook::Path
    } else {
        TileLook::Open
    }
}

/// Decides what a cell is drawn as.
pub fn tile_look(tile: Tile, is_start: bool, is_end: bool, is_path: bool, is_visited: bool) -> (look:
    TileLook)
    ensures
        look == spec_tile_look(tile, is_start, is_end, is_path, is_visited),
{
    match (tile, is_start, is_end, is_path, is_visited) {
        (_, true, _, _, _) => TileLook::Start,
        (_, _, true, _, _) => TileLook::End,
        (Tile::Wall, _, _, _, _) => TileLook::Wall,
        (_, _, _, _, true) => TileLook::Visited,
        (_, _, _, true, _) => TileLook::Path,
        (Tile::Open, _, _, _, _) => TileLook::Open,
    }
}

/// The style class of a look.
pub open spec fn look_class(look: TileLook) -> Seq<char> {
    match look {
        TileLook::Start => "tile-start"@,
        TileLook::End => "tile-end"@,
        TileLook::Wall => "tile-wall"@,
        TileLook::Visited => "tile-visited"@,
        TileLook::Path => "tile-path"@,
        TileLook::Open => "tile-none"@,
    }
}

/// The style class that a cell of this look carries.
pub fn tile_class(look: TileLook) -> (class: &'static str)
    ensures
        class@ == look_class(look),
{
    match look {
        TileLook::Start => "tile-start",
        TileLook::End => "tile-end",
        TileLook::Wall => "tile-wall",
        TileLook::Visited => "tile-visited",
        TileLook::Path => "tile-path",
        TileLook::Open => "tile-none",
    }
}

/// The colour of a look, as red, green and blue out of 255.
pub open spec fn look_rgb(look: TileLook) -> (u8, u8, u8) {
    match look {
        TileLook::Start => (0u8, 255u8, 0u8),
        TileLook::End => (255u8, 0u8, 0u8),
        TileLook::Wall => (0u8, 0u8, 0u8),
        TileLook::Visited => (255u8, 0u8, 255u8),
        TileLook::Path => (255u8, 255u8, 0u8),
        TileLook::Open => (52u8, 206u8, 255u8),
    }
}

/// The colour in which a cell of this look is painted.
pub fn tile_rgb(look: TileLook) -> (rgb: (u8, u8, u8))
    ensures
        rgb == look_rgb(look),
{
    match look {
        TileLook::Start => (0, 255, 0),
        TileLook::End => (255, 0, 0),
        TileLook::Wall => (0, 0, 0),
        TileLook::Visited => (255, 0, 255),
        TileLook::Path => (255, 255, 0),
        TileLook::Open => (52, 206, 255),
    }
}

/// The tile that a click turns `tile` into: an open tile becomes a wall and
/// a wall becomes open.
pub fn toggled(tile: Tile) -> (other: Tile)
    ensures
        other == (if tile == Tile::Open {
            Tile::Wall
        } else {
            Tile::Open
        }),
{
    match tile {
        Tile::Open => Tile::Wall,
        Tile::Wall => Tile::Open,
    }
}

} // verus!

pub mod dom;
pub mod webgl2;
