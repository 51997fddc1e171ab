//! Draw order of the isometric view.
use vstd::prelude::*;
use crate::map::{DungeonMap, Tile, map_wf, tile_at};

verus! {

/// The layers of a drawn cell, from the back to the front.
#[derive(Clone, Copy, Debug, PartialEq, Eq, Structural)]
pub enum RenderLayer {
    Floor,
    WallBase,
    WallTop,
    Web,
    Item,
    Monster,
    Player,
    Projectile,
    Effect,
}

/// How far in front of its cell's floor a layer is drawn.
pub open spec fn layer_offset(layer: RenderLayer) -> int {
    match layer {
        RenderLayer::Floor => 0,
        RenderLayer::WallBase => 10,
        RenderLayer::WallTop => 15,
        RenderLayer::Web => 20,
        RenderLayer::Item => 25,
        RenderLayer::Monster => 30,
        RenderLayer::Player => 35,
        RenderLayer::Projectile => 40,
        RenderLayer::Effect => 50,
    }
}

fn layer_value(layer: RenderLayer) -> (v: i32)
    ensures
        v == layer_offset(layer),
{
    match layer {
        RenderLayer::Floor => 0,
        RenderLayer::WallBase => 10,
        RenderLayer::WallTop => 15,
        RenderLayer::Web => 20,
        RenderLayer::Item => 25,
        RenderLayer::Monster => 30,
        RenderLayer::Player => 35,
        RenderLayer::Projectile => 40,
        RenderLayer::Effect => 50,
    }
}

/// The draw depth of a layer of cell (grid_x, grid_y): cells further down
/// and right are drawn later, and within a cell the layers keep their order.
pub fn render_depth(grid_x: usize, grid_y: usize, layer: RenderLayer) -> (d: i32)
    requires
        grid_x + grid_y + 50 <= i32::MAX,
    ensures
        d == grid_x + grid_y + layer_offset(layer),
{
    let base_depth = (grid_x + grid_y) as i32;
    base_depth + layer_value(layer)
}

/// Which faces of the wall at (x, y) show: the front (no wall below it),
/// the left (no wall to its left) and the right (no wall to its right).
/// A side at the map's edge shows.
pub fn get_wall_visibility(map: &DungeonMap, x: usize, y: usize) -> (v: (bool, bool, bool))
    requires
        map_wf(*map),
        x < map.width && y < map.height,
    ensures
        v.0 == !(y + 1 < map.height && tile_at(*map, x as int, y + 1) == Tile::Wall),
        v.1 == !(x > 0 && tile_at(*map, x - 1, y as int) == Tile::Wall),
        v.2 == !(x + 1 < map.width && tile_at(*map, x + 1, y as int) == Tile::Wall),
{
    let w = map.width;
    let h = map.height;
    let left_wall = x > 0 && matches!(map.tiles[x - 1][y], Tile::Wall);
    let right_wall = x + 1 < w && matches!(map.tiles[x + 1][y], Tile::Wall);
    let front_wall = y + 1 < h && matches!(map.tiles[x][y + 1], Tile::Wall);
    (!front_wall, !left_wall, !right_wall)
}

} // verus!
