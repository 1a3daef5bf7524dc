use vstd::prelude::*;

verus! {

/// Empty, traversable tile.
pub const TILE_EMPTY: u8 = 0;

/// Tile that a hook attaches to.
pub const TILE_HOOKABLE: u8 = 1;

/// Tile that a hook does not attach to.
pub const TILE_UNHOOKABLE: u8 = 3;

/// Tile that freezes a player on contact.
pub const TILE_FREEZE: u8 = 9;

/// Tile that unfreezes a player; shares its code with the hookable tile.
pub const TILE_UNFREEZE: u8 = 1;

/// Start line marker.
pub const TILE_START: u8 = 33;

/// Finish line marker.
pub const TILE_FINISH: u8 = 34;

/// Spawn point.
pub const TILE_SPAWN: u8 = 192;

/// Decorative id of the unhookable ceiling in its auxiliary layer.
pub const DECO_CEILING: u8 = 2;

/// Decorative id of the freeze walls in their auxiliary layer.
pub const DECO_FREEZE: u8 = 4;

/// Decorative id of the maze walls in their auxiliary layer.
pub const DECO_WALL: u8 = 9;

} // verus!
