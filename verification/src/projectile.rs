//! Arrows and bolts flying across the map.
use vstd::prelude::*;
use crate::map::{DungeonMap, Tile, map_wf, in_bounds, tile_at};

verus! {

pub struct Projectile {
    pub x: usize,
    pub y: usize,
    pub dx: i32,
    pub dy: i32,
    pub damage: i32,
    pub symbol: char,
    pub source_name: String,
}

/// The character drawn for a projectile flying in direction (dx, dy).
pub open spec fn direction_symbol(dx: int, dy: int) -> char {
    if (dx == 1 || dx == -1) && dy == 0 {
        '-'
    } else if dx == 0 && (dy == 1 || dy == -1) {
        '|'
    } else if (dx == 1 && dy == 1) || (dx == -1 && dy == -1) {
        '\\'
    } else if (dx == -1 && dy == 1) || (dx == 1 && dy == -1) {
        '/'
    } else {
        '*'
    }
}

/// Whether a projectile at (x, y) can move to (x + dx, y + dy): the cell is
/// on the map and is no wall.
pub open spec fn flight_clear(m: DungeonMap, x: int, y: int) -> bool {
    x >= 0 && y >= 0 && in_bounds(m, x, y) && tile_at(m, x, y) != Tile::Wall
}

impl Projectile {
    /// '-' for horizontal, '|' for vertical, '\\' and '/' for the diagonals,
    /// '*' otherwise.
    pub fn symbol_for_direction(dx: i32, dy: i32) -> (c: char)
        ensures
            c == direction_symbol(dx as int, dy as int),
    {
        if (dx == 1 || dx == -1) && dy == 0 {
            '-'
        } else if dx == 0 && (dy == 1 || dy == -1) {
            '|'
        } else if (dx == 1 && dy == 1) || (dx == -1 && dy == -1) {
            '\\'
        } else if (dx == -1 && dy == 1) || (dx == 1 && dy == -1) {
            '/'
        } else {
            '*'
        }
    }

    /// Moves one step along (dx, dy). Returns false, and stays put, when the
    /// next cell is off the map or a wall (the projectile is spent).
    pub fn advance(&mut self, map: &DungeonMap) -> (alive: bool)
        requires
            map_wf(*map),
        ensures
            ({
                let nx = (old(self).x as i32) + old(self).dx;
                let ny = (old(self).y as i32) + old(self).dy;
                &&& alive == flight_clear(*map, nx, ny)
                &&& alive ==> *final(self) == (Projectile { x: nx as usize, y: ny as usize, ..*old(self) })
                &&& !alive ==> *final(self) == *old(self)
            }),
    {
        let nx = self.x as i32 as i64 + self.dx as i64;
        let ny = self.y as i32 as i64 + self.dy as i64;
        if nx < 0 || ny < 0 {
            return false;
        }
        let ux = nx as usize;
        let uy = ny as usize;
        if ux >= map.width || uy >= map.height {
            return false;
        }
        if map.tiles[ux][uy] == Tile::Wall {
            return false;
        }
        self.x = ux;
        self.y = uy;
        true
    }
}

} // verus!
