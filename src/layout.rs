use vstd::prelude::*;
use crate::grid::TileGrid;

verus! {

/// Position of the generic unhookable image in the map's image list.
pub const IMAGE_GENERIC_UNHOOKABLE: usize = 0;

/// Position of the basic freeze image in the map's image list.
pub const IMAGE_BASIC_FREEZE: usize = 1;

/// Parallax of a group that scrolls with the camera.
pub const PARALLAX_DEFAULT: i32 = 100;

/// Width of the sky quad, in tiles.
pub const SKY_WIDTH: i32 = 50;

/// Height of the sky quad, in tiles.
pub const SKY_HEIGHT: i32 = 30;

/// A color with an alpha channel.
#[derive(Clone, Copy, Debug, PartialEq, Eq, Structural)]
pub struct Color {
    pub r: u8,
    pub g: u8,
    pub b: u8,
    pub a: u8,
}

/// Opaque white: a tiles layer without a tint.
pub open spec fn white() -> Color {
    Color { r: 255, g: 255, b: 255, a: 255 }
}

/// A quad centered on the origin whose two top corners and two bottom corners
/// share a color.
#[derive(Clone, Copy, Debug, PartialEq, Eq, Structural)]
pub struct SkyQuad {
    pub width: i32,
    pub height: i32,
    pub top: Color,
    pub bottom: Color,
}

/// A tiles layer that draws a grid with an image of the map.
pub struct TilesLayer {
    pub tiles: TileGrid,
    /// Position of the image in the map's image list.
    pub image: usize,
    pub color: Color,
}

pub enum Layer {
    /// The gameplay grid.
    Game(TileGrid),
    /// Markers drawn above the gameplay grid.
    Front(TileGrid),
    /// A decorative grid.
    Tiles(TilesLayer),
    /// Decorative quads.
    Quads(SkyQuad),
}

/// Layers that share a parallax.
pub struct Group {
    /// The group holds the gameplay layers.
    pub physics: bool,
    pub parallax_x: i32,
    pub parallax_y: i32,
    pub layers: Vec<Layer>,
}

/// The groups of a generated map, in drawing order.
pub struct MapLayout {
    pub groups: Vec<Group>,
}

/// The sky backdrop: a blue gradient that does not scroll.
pub open spec fn sky_quad() -> SkyQuad {
    SkyQuad {
        width: SKY_WIDTH,
        height: SKY_HEIGHT,
        top: Color { r: 94, g: 132, b: 174, a: 255 },
        bottom: Color { r: 204, g: 232, b: 255, a: 255 },
    }
}

/// `g` is the sky backdrop group.
pub open spec fn is_sky_group(g: Group) -> bool {
    &&& !g.physics
    &&& g.parallax_x == 0 && g.parallax_y == 0
    &&& g.layers@.len() == 1
    &&& g.layers@[0] == Layer::Quads(sky_quad())
}

/// `g` is a physics group holding exactly `layers`.
pub open spec fn is_physics_group(g: Group, layers: Seq<Layer>) -> bool {
    &&& g.physics
    &&& g.parallax_x == PARALLAX_DEFAULT && g.parallax_y == PARALLAX_DEFAULT
    &&& g.layers@ == layers
}

/// The sky backdrop group.
pub fn quads_sky() -> (r: Group)
    ensures
        is_sky_group(r),
{
    let quad = SkyQuad {
        width: SKY_WIDTH,
        height: SKY_HEIGHT,
        top: Color { r: 94, g: 132, b: 174, a: 255 },
        bottom: Color { r: 204, g: 232, b: 255, a: 255 },
    };
    let mut layers: Vec<Layer> = Vec::new();
    layers.push(Layer::Quads(quad));
    Group { physics: false, parallax_x: 0, parallax_y: 0, layers }
}

/// An empty physics group.
pub fn physics_group() -> (r: Group)
    ensures
        is_physics_group(r, Seq::empty()),
{
    Group {
        physics: true,
        parallax_x: PARALLAX_DEFAULT,
        parallax_y: PARALLAX_DEFAULT,
        layers: Vec::new(),
    }
}

/// A tiles layer over `tiles` drawn with image `image`, untinted.
pub fn tiles_layer(tiles: TileGrid, image: usize) -> (r: TilesLayer)
    ensures
        r == (TilesLayer { tiles, image, color: white() }),
{
    TilesLayer { tiles, image, color: Color { r: 255, g: 255, b: 255, a: 255 } }
}

/// A map of the sky group followed by `physics`.
pub fn sky_then(physics: Group) -> (r: MapLayout)
    ensures
        r.groups@.len() == 2,
        is_sky_group(r.groups@[0]),
        r.groups@[1] == physics,
{
    let mut groups: Vec<Group> = Vec::new();
    groups.push(quads_sky());
    groups.push(physics);
    MapLayout { groups }
}

} // verus!
