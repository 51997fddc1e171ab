//! Dungeon maps: tiles, rooms, fog of war, line of sight and path finding.
//!
//! A map is `width` columns of `height` cells; every per-cell layer (tiles,
//! decorations, traps, features, used shrines, what was seen and what is
//! seen now) is a vector of columns indexed `[x][y]`.
use vstd::prelude::*;

verus! {

#[derive(Clone, Copy, Debug, PartialEq, Eq, Structural)]
pub enum Tile {
    Wall,
    Floor,
    Stairs,
    SecretDoor,
    ShallowWater,
    DeepWater,
    Lava,
    Chasm,
    ChasmEdge,
}

#[derive(Clone, Copy, Debug, PartialEq, Eq, Structural)]
pub enum RoomType {
    Normal,
    Treasure,
    Trap,
    Shrine,
    Secret,
    Boss,
    Spawn,
    Shop,
}

#[derive(Clone, Copy, Debug, PartialEq, Eq, Structural)]
pub enum DecoObject {
    Torch,
    Pillar,
    Altar,
    Chest,
}

#[derive(Clone, Copy, Debug, PartialEq, Eq, Structural)]
pub enum TrapType {
    Spike,
    Fire,
    Teleport,
    Alarm,
}

#[derive(Clone, Copy, Debug, PartialEq, Eq, Structural)]
pub enum DungeonFeature {
    WallCrack,
    FloorDebris,
    Bloodstain,
    MossPatch,
    ScorchMark,
    WaterPuddle,
}

#[derive(Clone, Copy, Debug, PartialEq, Eq, Structural)]
pub enum MachineType {
    ShrineTrap,
    TreasureKey,
    BossHazard,
}

#[derive(Clone, Copy, Debug)]
pub struct Machine {
    pub machine_type: MachineType,
    pub trigger_pos: (usize, usize),
    pub effect_pos: (usize, usize),
    pub activated: bool,
}

/// A rectangle of cells: columns `x1..x2`, rows `y1..y2`.
#[derive(Clone, Copy, Debug, PartialEq, Eq, Structural)]
pub struct Rect {
    pub x1: usize,
    pub y1: usize,
    pub x2: usize,
    pub y2: usize,
}

impl Rect {
    pub fn new(x: usize, y: usize, w: usize, h: usize) -> (r: Rect)
        requires
            x + w <= usize::MAX,
            y + h <= usize::MAX,
        ensures
            r == (Rect { x1: x, y1: y, x2: (x + w) as usize, y2: (y + h) as usize }),
    {
        Rect { x1: x, y1: y, x2: x + w, y2: y + h }
    }

    pub fn center(&self) -> (c: (usize, usize))
        ensures
            c == rect_center(*self),
    {
        ((self.x1 / 2 + self.x2 / 2 + (self.x1 % 2 + self.x2 % 2) / 2), (self.y1 / 2 + self.y2 / 2 + (self.y1 % 2 + self.y2 % 2) / 2))
    }

    /// Whether the two rectangles overlap or touch.
    pub fn intersects(&self, other: &Rect) -> (b: bool)
        ensures
            b == (self.x1 <= other.x2 && self.x2 >= other.x1 && self.y1 <= other.y2 && self.y2 >= other.y1),
    {
        self.x1 <= other.x2 && self.x2 >= other.x1 && self.y1 <= other.y2 && self.y2 >= other.y1
    }
}

/// The middle cell of a rectangle (halves rounded down).
pub open spec fn rect_center(r: Rect) -> (usize, usize) {
    (((r.x1 + r.x2) / 2) as usize, ((r.y1 + r.y2) / 2) as usize)
}

pub struct DungeonMap {
    pub width: usize,
    pub height: usize,
    pub tiles: Vec<Vec<Tile>>,
    pub rooms: Vec<Rect>,
    pub room_types: Vec<RoomType>,
    pub deco_objects: Vec<Vec<Option<DecoObject>>>,
    pub trap_tiles: Vec<Vec<Option<TrapType>>>,
    pub features: Vec<Vec<Option<DungeonFeature>>>,
    pub shrine_used: Vec<Vec<bool>>,
    pub machines: Vec<Machine>,
    pub visibility: Vec<Vec<bool>>,
    pub current_visibility: Vec<Vec<bool>>,
}

/// The largest side a map may have, so that coordinates and their squares
/// fit the `i32` arithmetic of the rules.
pub const MAX_SIDE: usize = 10_000;

/// A layer of `w` columns of `h` cells.
pub open spec fn grid_shape<T>(g: Seq<Vec<T>>, w: int, h: int) -> bool {
    g.len() == w && forall|x: int| 0 <= x < w ==> (#[trigger] g[x])@.len() == h
}

/// A rectangle inside a `w` by `h` map.
pub open spec fn rect_inside(r: Rect, w: int, h: int) -> bool {
    r.x1 <= r.x2 <= w && r.y1 <= r.y2 <= h
}

/// Every layer has the map's shape, each room has a type, and the rooms lie
/// inside the map.
pub open spec fn map_wf(m: DungeonMap) -> bool {
    &&& 1 <= m.width <= MAX_SIDE
    &&& 1 <= m.height <= MAX_SIDE
    &&& grid_shape(m.tiles@, m.width as int, m.height as int)
    &&& grid_shape(m.deco_objects@, m.width as int, m.height as int)
    &&& grid_shape(m.trap_tiles@, m.width as int, m.height as int)
    &&& grid_shape(m.features@, m.width as int, m.height as int)
    &&& grid_shape(m.shrine_used@, m.width as int, m.height as int)
    &&& grid_shape(m.visibility@, m.width as int, m.height as int)
    &&& grid_shape(m.current_visibility@, m.width as int, m.height as int)
    &&& m.room_types@.len() == m.rooms@.len()
    &&& forall|i: int| 0 <= i < m.rooms@.len() ==> rect_inside(#[trigger] m.rooms@[i], m.width as int, m.height as int)
}

/// The tile at (x, y).
pub open spec fn tile_at(m: DungeonMap, x: int, y: int) -> Tile {
    m.tiles@[x]@[y]
}

pub open spec fn in_bounds(m: DungeonMap, x: int, y: int) -> bool {
    0 <= x < m.width && 0 <= y < m.height
}

/// Floor, stairs and secret doors can be walked on.
pub open spec fn walkable(m: DungeonMap, x: int, y: int) -> bool {
    in_bounds(m, x, y) && (tile_at(m, x, y) == Tile::Floor || tile_at(m, x, y) == Tile::Stairs
        || tile_at(m, x, y) == Tile::SecretDoor)
}

pub open spec fn abs(a: int) -> int {
    if a < 0 { -a } else { a }
}

/// The Manhattan distance of two cells.
pub open spec fn manhattan(x1: int, y1: int, x2: int, y2: int) -> int {
    abs(x1 - x2) + abs(y1 - y2)
}

/// A cell with walls on two opposite sides (never on the map's border).
pub open spec fn corridor_at(m: DungeonMap, x: int, y: int) -> bool {
    if x == 0 || y == 0 || x >= m.width - 1 || y >= m.height - 1 {
        false
    } else {
        (tile_at(m, x - 1, y) == Tile::Wall && tile_at(m, x + 1, y) == Tile::Wall)
            || (tile_at(m, x, y - 1) == Tile::Wall && tile_at(m, x, y + 1) == Tile::Wall)
    }
}

/// Whether room `r` holds the cell (x, y).
pub open spec fn room_holds(r: Rect, x: int, y: int) -> bool {
    r.x1 <= x < r.x2 && r.y1 <= y < r.y2
}

/// The type of the first room, from index `i` on, that holds (x, y);
/// `Normal` when none does.
pub open spec fn room_type_from(m: DungeonMap, x: int, y: int, i: int) -> RoomType
    decreases m.rooms@.len() - i,
{
    if i < 0 || i >= m.rooms@.len() {
        RoomType::Normal
    } else if room_holds(m.rooms@[i], x, y) {
        m.room_types@[i]
    } else {
        room_type_from(m, x, y, i + 1)
    }
}

/// The first floor cell in column-major order (column by column, top to
/// bottom), as an index `x * height + y`; `width * height` when there is none.
pub open spec fn first_floor_from(m: DungeonMap, k: int) -> int
    decreases m.width * m.height - k,
{
    if k < 0 || k >= m.width * m.height {
        m.width * m.height
    } else if tile_at(m, k / m.height as int, k % m.height as int) == Tile::Floor {
        k
    } else {
        first_floor_from(m, k + 1)
    }
}

/// The first floor cell depends on the tiles and the size alone.
pub proof fn lemma_first_floor_same(a: DungeonMap, b: DungeonMap, k: int)
    requires
        a.tiles == b.tiles,
        a.width == b.width && a.height == b.height,
    ensures
        first_floor_from(a, k) == first_floor_from(b, k),
    decreases a.width * a.height - k,
{
    if 0 <= k < a.width * a.height {
        lemma_first_floor_same(a, b, k + 1);
    }
}

impl DungeonMap {
    pub fn is_walkable(&self, x: usize, y: usize) -> (b: bool)
        requires
            map_wf(*self),
        ensures
            b == walkable(*self, x as int, y as int),
    {
        if x < self.width && y < self.height {
            let t = self.tiles[x][y];
            t == Tile::Floor || t == Tile::Stairs || t == Tile::SecretDoor
        } else {
            false
        }
    }

    /// The Manhattan distance of two cells.
    pub fn distance(x1: usize, y1: usize, x2: usize, y2: usize) -> (d: i32)
        requires
            x1 <= i32::MAX && y1 <= i32::MAX && x2 <= i32::MAX && y2 <= i32::MAX,
            manhattan(x1 as int, y1 as int, x2 as int, y2 as int) <= i32::MAX,
        ensures
            d == manhattan(x1 as int, y1 as int, x2 as int, y2 as int),
    {
        let dx = x1 as i32 - x2 as i32;
        let dy = y1 as i32 - y2 as i32;
        let ax = if dx < 0 { -dx } else { dx };
        let ay = if dy < 0 { -dy } else { dy };
        ax + ay
    }

    /// Whether (x, y) lies in a corridor: walls left and right, or above and
    /// below.
    pub fn is_corridor(&self, x: usize, y: usize) -> (b: bool)
        requires
            map_wf(*self),
        ensures
            b == corridor_at(*self, x as int, y as int),
    {
        if x == 0 || y == 0 || x >= self.width - 1 || y >= self.height - 1 {
            return false;
        }
        let wall_left = self.tiles[x - 1][y] == Tile::Wall;
        let wall_right = self.tiles[x + 1][y] == Tile::Wall;
        let wall_up = self.tiles[x][y - 1] == Tile::Wall;
        let wall_down = self.tiles[x][y + 1] == Tile::Wall;
        (wall_left && wall_right) || (wall_up && wall_down)
    }

    /// The type of the first room that holds (x, y), `Normal` if none does.
    pub fn get_room_type_at(&self, x: usize, y: usize) -> (t: RoomType)
        requires
            map_wf(*self),
        ensures
            t == room_type_from(*self, x as int, y as int, 0),
    {
        let mut i: usize = 0;
        while i < self.rooms.len()
            invariant
                map_wf(*self),
                i <= self.rooms@.len(),
                room_type_from(*self, x as int, y as int, 0) == room_type_from(*self, x as int, y as int, i as int),
            decreases self.rooms@.len() - i,
        {
            let room = self.rooms[i];
            if x >= room.x1 && x < room.x2 && y >= room.y1 && y < room.y2 {
                return self.room_types[i];
            }
            i = i + 1;
        }
        RoomType::Normal
    }

    /// The first floor cell, scanning column by column; (1, 1) when the map
    /// has no floor.
    pub fn get_starting_position(&self) -> (p: (usize, usize))
        requires
            map_wf(*self),
        ensures
            ({
                let k = first_floor_from(*self, 0);
                if k < self.width * self.height {
                    p.0 == k / self.height as int && p.1 == k % self.height as int
                } else {
                    p == (1usize, 1usize)
                }
            }),
            p == (1usize, 1usize) || (p.0 < self.width && p.1 < self.height),
    {
        let mut x: usize = 0;
        while x < self.width
            invariant
                map_wf(*self),
                x <= self.width,
                first_floor_from(*self, 0) == first_floor_from(*self, x * self.height),
            decreases self.width - x,
        {
            let mut y: usize = 0;
            while y < self.height
                invariant
                    map_wf(*self),
                    x < self.width,
                    y <= self.height,
                    first_floor_from(*self, 0) == first_floor_from(*self, x * self.height + y),
                decreases self.height - y,
            {
                proof {
                    lemma_cell_index(x as int, y as int, self.height as int);
                    assert(x * self.height + y < self.width * self.height) by (nonlinear_arith)
                        requires x < self.width, y < self.height;
                }
                if self.tiles[x][y] == Tile::Floor {
                    return (x, y);
                }
                y = y + 1;
            }
            proof {
                assert(x * self.height + self.height == (x + 1) * self.height) by (nonlinear_arith);
            }
            x = x + 1;
        }
        proof {
            assert(self.width * self.height >= 0) by (nonlinear_arith)
                requires self.width >= 0, self.height >= 0;
        }
        (1, 1)
    }
}

/// The cells Bresenham's line algorithm visits from (cx, cy) on toward
/// (tx, ty), for spans `dx` (at least 0) and `dy` (at most 0), steps `sx`,
/// `sy` and error term `err`, in at most `fuel` steps.
pub open spec fn line_cells(cx: int, cy: int, tx: int, ty: int, dx: int, dy: int, sx: int, sy: int, err: int, fuel: nat)
    -> Seq<(int, int)>
    decreases fuel,
{
    if fuel == 0 || (cx == tx && cy == ty) {
        seq![(cx, cy)]
    } else {
        let e2 = 2 * err;
        let err1 = if e2 >= dy { err + dy } else { err };
        let cx1 = if e2 >= dy { cx + sx } else { cx };
        let err2 = if e2 <= dx { err1 + dx } else { err1 };
        let cy1 = if e2 <= dx { cy + sy } else { cy };
        seq![(cx, cy)] + line_cells(cx1, cy1, tx, ty, dx, dy, sx, sy, err2, (fuel - 1) as nat)
    }
}

/// The cells of the Bresenham line from (x1, y1) to (x2, y2), both ends
/// included (it needs at most |x2 - x1| + |y2 - y1| steps).
pub open spec fn bresenham(x1: int, y1: int, x2: int, y2: int) -> Seq<(int, int)> {
    let dx = abs(x2 - x1);
    let dy = -abs(y2 - y1);
    let sx = if x1 < x2 { 1int } else { -1int };
    let sy = if y1 < y2 { 1int } else { -1int };
    line_cells(x1, y1, x2, y2, dx, dy, sx, sy, dx + dy, (dx - dy) as nat)
}

/// A cell that does not block sight: inside the map and no wall.
pub open spec fn see_through(m: DungeonMap, c: (int, int)) -> bool {
    in_bounds(m, c.0, c.1) && tile_at(m, c.0, c.1) != Tile::Wall
}

/// Whether (x1, y1) sees (x2, y2): every cell of the Bresenham line between
/// them, the two ends aside, lets sight through.
pub open spec fn sight_clear(m: DungeonMap, x1: int, y1: int, x2: int, y2: int) -> bool {
    let line = bresenham(x1, y1, x2, y2);
    forall|k: int| 0 <= k < line.len() ==> {
        let c = #[trigger] line[k];
        c == (x1, y1) || c == (x2, y2) || see_through(m, c)
    }
}

/// The state of Bresenham's walk: `a` and `b` cells are left to go along x
/// and y, and the error term is tied to them (`f` measures how far the walk
/// is off the ideal line).
pub open spec fn walk_state(a: int, b: int, f: int, err: int, dx: int, ddy: int) -> bool {
    &&& 0 <= a <= dx
    &&& 0 <= b <= ddy
    &&& f == a * ddy - b * dx
    &&& err == f + dx - ddy
    &&& -(dx + ddy) <= f <= dx + ddy
}

/// One step of Bresenham's walk moves along x only while x is left to go,
/// along y only while y is left, at least one of the two, and keeps the walk
/// close to the line.
pub proof fn lemma_walk_step(a: int, b: int, f: int, err: int, dx: int, ddy: int)
    requires
        walk_state(a, b, f, err, dx, ddy),
        a > 0 || b > 0,
    ensures
        2 * err >= -ddy ==> a > 0,
        2 * err <= dx ==> b > 0,
        2 * err >= -ddy || 2 * err <= dx,
        ({
            let a1 = if 2 * err >= -ddy { a - 1 } else { a };
            let f1 = if 2 * err >= -ddy { f - ddy } else { f };
            let err1 = if 2 * err >= -ddy { err - ddy } else { err };
            let b1 = if 2 * err <= dx { b - 1 } else { b };
            let f2 = if 2 * err <= dx { f1 + dx } else { f1 };
            let err2 = if 2 * err <= dx { err1 + dx } else { err1 };
            walk_state(a1, b1, f2, err2, dx, ddy)
        }),
{
    if 2 * err >= -ddy && a == 0 {
        assert(false) by (nonlinear_arith)
            requires
                a == 0, 0 <= b <= ddy, a > 0 || b > 0, dx >= 0,
                f == a * ddy - b * dx, err == f + dx - ddy, 2 * err >= -ddy;
    }
    if 2 * err <= dx && b == 0 {
        assert(false) by (nonlinear_arith)
            requires
                b == 0, 0 <= a <= dx, a > 0 || b > 0, ddy >= 0,
                f == a * ddy - b * dx, err == f + dx - ddy, 2 * err <= dx;
    }
    assert((a - 1) * ddy == a * ddy - ddy) by (nonlinear_arith);
    assert((b - 1) * dx == b * dx - dx) by (nonlinear_arith);
}

impl DungeonMap {
    /// Line of sight along Bresenham's line: true when no cell strictly
    /// between the two ends is a wall or off the map.
    pub fn has_line_of_sight(&self, x1: usize, y1: usize, x2: usize, y2: usize) -> (b: bool)
        requires
            map_wf(*self),
            x1 <= 0x1fff_ffff,
            y1 <= 0x1fff_ffff,
            x2 <= 0x1fff_ffff,
            y2 <= 0x1fff_ffff,
        ensures
            b == sight_clear(*self, x1 as int, y1 as int, x2 as int, y2 as int),
    {
        let mut cx = x1 as i32;
        let mut cy = y1 as i32;
        let tx = x2 as i32;
        let ty = y2 as i32;
        let dx = if tx - cx < 0 { cx - tx } else { tx - cx };
        let ady = if ty - cy < 0 { cy - ty } else { ty - cy };
        let dy = -ady;
        let sx: i32 = if cx < tx { 1 } else { -1 };
        let sy: i32 = if cy < ty { 1 } else { -1 };
        let mut err = dx + dy;
        let ghost line = bresenham(x1 as int, y1 as int, x2 as int, y2 as int);
        let ghost mut done: Seq<(int, int)> = Seq::empty();
        let ghost mut fuel: nat = (dx - dy) as nat;
        let ghost mut a: int = dx as int;
        let ghost mut bb: int = ady as int;
        let ghost mut f: int = 0;
        proof {
            assert(f == a * ady - bb * dx) by (nonlinear_arith)
                requires a == dx, bb == ady, f == 0;
        }
        loop
            invariant
                map_wf(*self),
                x1 <= 0x1fff_ffff && y1 <= 0x1fff_ffff && x2 <= 0x1fff_ffff && y2 <= 0x1fff_ffff,
                tx == x2 && ty == y2,
                dx == abs(x2 - x1) && ady == abs(y2 - y1) && dy == -ady,
                sx == (if x1 < x2 { 1int } else { -1int }),
                sy == (if y1 < y2 { 1int } else { -1int }),
                walk_state(a, bb, f, err as int, dx as int, ady as int),
                sx == 1 ==> a == tx - cx,
                sx == -1 ==> a == cx - tx,
                sy == 1 ==> bb == ty - cy,
                sy == -1 ==> bb == cy - ty,
                fuel >= a + bb,
                line == bresenham(x1 as int, y1 as int, x2 as int, y2 as int),
                line == done + line_cells(cx as int, cy as int, tx as int, ty as int, dx as int, dy as int, sx as int, sy as int, err as int, fuel),
                forall|k: int| 0 <= k < done.len() ==> {
                    let c = #[trigger] done[k];
                    c == (x1 as int, y1 as int) || c == (x2 as int, y2 as int) || see_through(*self, c)
                },
            ensures
                sight_clear(*self, x1 as int, y1 as int, x2 as int, y2 as int),
            decreases a + bb,
        {
            let ghost rest = line_cells(cx as int, cy as int, tx as int, ty as int, dx as int, dy as int, sx as int, sy as int, err as int, fuel);
            assert(rest[0] == (cx as int, cy as int));
            assert(line[done.len() as int] == rest[0]);
            if (cx != x1 as i32 || cy != y1 as i32) && (cx != tx || cy != ty) {
                let ux = cx as usize;
                let uy = cy as usize;
                assert(cx >= 0 && cy >= 0);
                if ux >= self.width || uy >= self.height || self.tiles[ux][uy] == Tile::Wall {
                    proof {
                        let k = done.len() as int;
                        assert(line[k] == (cx as int, cy as int));
                        assert(!see_through(*self, line[k]));
                        assert(!(line[k] == (x1 as int, y1 as int) || line[k] == (x2 as int, y2 as int) || see_through(*self, line[k])));
                        assert(!sight_clear(*self, x1 as int, y1 as int, x2 as int, y2 as int));
                    }
                    return false;
                }
            }
            if cx == tx && cy == ty {
                proof {
                    assert(rest =~= seq![(cx as int, cy as int)]);
                    assert forall|k: int| 0 <= k < line.len() implies {
                        let c = #[trigger] line[k];
                        c == (x1 as int, y1 as int) || c == (x2 as int, y2 as int) || see_through(*self, c)
                    } by {
                        if k < done.len() {
                            assert(line[k] == done[k]);
                        } else {
                            assert(line[k] == rest[k - done.len()]);
                            assert(k == done.len());
                            assert(line[k] == (x2 as int, y2 as int));
                        }
                    }
                    assert(sight_clear(*self, x1 as int, y1 as int, x2 as int, y2 as int));
                }
                break;
            }
            proof {
                lemma_walk_step(a, bb, f, err as int, dx as int, ady as int);
                assert(fuel > 0);
            }
            let ghost e = err as int;
            let e2 = 2 * err;
            if e2 >= dy {
                err = err + dy;
                cx = cx + sx;
                proof { a = a - 1; f = f - ady; }
            }
            if e2 <= dx {
                err = err + dx;
                cy = cy + sy;
                proof { bb = bb - 1; f = f + dx; }
            }
            proof {
                let c0 = rest[0];
                assert(rest == seq![c0] + line_cells(cx as int, cy as int, tx as int, ty as int, dx as int, dy as int, sx as int, sy as int, err as int, (fuel - 1) as nat));
                assert(done.push(c0) + line_cells(cx as int, cy as int, tx as int, ty as int, dx as int, dy as int, sx as int, sy as int, err as int, (fuel - 1) as nat)
                    =~= done + rest);
                done = done.push(c0);
                fuel = (fuel - 1) as nat;
            }
        }
        true
    }
}

/// Writes `v` into cell (x, y) of a layer.
pub fn set_cell<T: Copy>(g: &mut Vec<Vec<T>>, x: usize, y: usize, v: T)
    requires
        x < old(g)@.len(),
        y < old(g)@[x as int]@.len(),
    ensures
        final(g)@.len() == old(g)@.len(),
        forall|i: int| 0 <= i < old(g)@.len() ==> (#[trigger] final(g)@[i])@.len() == old(g)@[i]@.len(),
        forall|i: int, j: int| 0 <= i < old(g)@.len() && 0 <= j < old(g)@[i]@.len() ==>
            (#[trigger] final(g)@[i]@[j]) == (if i == x && j == y { v } else { old(g)@[i]@[j] }),
{
    g[x][y] = v;
}

/// Whether (x, y) is in view of a player at (px, py) with sight radius `r`:
/// the player's own cell, or a cell of the map within the radius (by
/// squared distance) that the player has a line of sight to.
pub open spec fn in_view(m: DungeonMap, px: int, py: int, r: int, x: int, y: int) -> bool {
    ||| x == px && y == py && in_bounds(m, x, y)
    ||| in_bounds(m, x, y) && abs(x - px) <= r && abs(y - py) <= r
        && (x - px) * (x - px) + (y - py) * (y - py) <= r * r && sight_clear(m, px, py, x, y)
}

/// The cells of the ring between radius `r - 1` (excluded) and `r` (included)
/// around (px, py), by squared distance.
pub open spec fn in_ring(px: int, py: int, r: int, x: int, y: int) -> bool {
    let d2 = (x - px) * (x - px) + (y - py) * (y - py);
    d2 <= r * r && d2 > (r - 1) * (r - 1)
}

/// The map with new fog-of-war layers and nothing else changed.
pub open spec fn same_but_sight(a: DungeonMap, b: DungeonMap) -> bool {
    b == (DungeonMap { visibility: b.visibility, current_visibility: b.current_visibility, ..a })
}

/// `b` is `a` after the player at (px, py) looked around with sight radius
/// `r`: only what is visible changed, which is what the player sees now
/// (see `in_view`), and that is added to what was seen.
pub open spec fn looked_around(a: DungeonMap, b: DungeonMap, px: int, py: int, r: int) -> bool {
    &&& same_but_sight(a, b)
    &&& forall|x: int, y: int| in_bounds(a, x, y) ==> (#[trigger] b.current_visibility@[x]@[y]) == in_view(a, px, py, r, x, y)
    &&& forall|x: int, y: int| in_bounds(a, x, y) ==>
        (#[trigger] b.visibility@[x]@[y]) == (a.visibility@[x]@[y] || in_view(a, px, py, r, x, y))
}

/// Looking around has one outcome: two maps that both come from `a` by
/// looking around from the same cell with the same radius (as
/// `reveal_area` and `update_visibility` leave it) agree everywhere on the
/// map.
pub proof fn lemma_looked_around_unique(a: DungeonMap, b1: DungeonMap, b2: DungeonMap, px: int, py: int, r: int)
    requires
        looked_around(a, b1, px, py, r),
        looked_around(a, b2, px, py, r),
    ensures
        b1.width == b2.width && b1.height == b2.height && b1.tiles == b2.tiles && b1.rooms == b2.rooms
            && b1.room_types == b2.room_types && b1.deco_objects == b2.deco_objects && b1.trap_tiles == b2.trap_tiles
            && b1.features == b2.features && b1.shrine_used == b2.shrine_used && b1.machines == b2.machines,
        forall|x: int, y: int| in_bounds(a, x, y) ==> #[trigger] b1.current_visibility@[x]@[y] == b2.current_visibility@[x]@[y]
            && b1.visibility@[x]@[y] == b2.visibility@[x]@[y],
{
}

/// Fog of war: once the player at (px, py) has looked around with sight
/// radius `r` (as `reveal_area` leaves the map `b` from `a`), every cell
/// visible now is marked as seen, and every cell seen before stays seen.
pub proof fn lemma_sight_remembered(a: DungeonMap, b: DungeonMap, px: int, py: int, r: int)
    requires
        map_wf(a),
        forall|x: int, y: int| in_bounds(a, x, y) ==>
            (#[trigger] b.current_visibility@[x]@[y]) == in_view(a, px, py, r, x, y),
        forall|x: int, y: int| in_bounds(a, x, y) ==>
            (#[trigger] b.visibility@[x]@[y]) == (a.visibility@[x]@[y] || in_view(a, px, py, r, x, y)),
    ensures
        forall|x: int, y: int| in_bounds(a, x, y) && #[trigger] b.current_visibility@[x]@[y] ==> b.visibility@[x]@[y],
        forall|x: int, y: int| in_bounds(a, x, y) && #[trigger] a.visibility@[x]@[y] ==> b.visibility@[x]@[y],
{
}

impl DungeonMap {
    /// Shows what the player at (px, py) sees within `radius` (see
    /// `in_view`): only that is visible now, and it is remembered as seen.
    #[verifier::rlimit(40)]
    #[verifier::spinoff_prover]
    pub fn reveal_area(&mut self, px: usize, py: usize, radius: i32)
        requires
            map_wf(*old(self)),
            px <= 0x1fff_ffff,
            py <= 0x1fff_ffff,
            i32::MIN < radius <= 32_767,
        ensures
            map_wf(*final(self)),
            same_but_sight(*old(self), *final(self)),
            forall|x: int, y: int| in_bounds(*old(self), x, y) ==>
                (#[trigger] final(self).current_visibility@[x]@[y]) == in_view(*old(self), px as int, py as int, radius as int, x, y),
            forall|x: int, y: int| in_bounds(*old(self), x, y) ==>
                (#[trigger] final(self).visibility@[x]@[y]) == (old(self).visibility@[x]@[y]
                    || in_view(*old(self), px as int, py as int, radius as int, x, y)),
            looked_around(*old(self), *final(self), px as int, py as int, radius as int),
    {
        let ghost m0 = *self;
        let mut x: usize = 0;
        while x < self.width
            invariant
                map_wf(*self),
                same_but_sight(m0, *self),
                self.visibility == m0.visibility,
                x <= self.width,
                forall|i: int, j: int| 0 <= i < self.width && 0 <= j < self.height ==>
                    (#[trigger] self.current_visibility@[i]@[j]) == (if i < x { false } else { m0.current_visibility@[i]@[j] }),
            decreases self.width - x,
        {
            let mut y: usize = 0;
            while y < self.height
                invariant
                    map_wf(*self),
                    same_but_sight(m0, *self),
                    self.visibility == m0.visibility,
                    x < self.width,
                    y <= self.height,
                    forall|i: int, j: int| 0 <= i < self.width && 0 <= j < self.height ==>
                        (#[trigger] self.current_visibility@[i]@[j]) == (if i < x || (i == x && j < y) { false } else { m0.current_visibility@[i]@[j] }),
                decreases self.height - y,
            {
                set_cell(&mut self.current_visibility, x, y, false);
                y = y + 1;
            }
            x = x + 1;
        }
        let r = radius;
        let px_i = px as i32;
        let py_i = py as i32;
        let mut dx: i32 = -r;
        while dx <= r
            invariant
                map_wf(*self),
                same_but_sight(m0, *self),
                px_i == px && py_i == py && px <= 0x1fff_ffff && py <= 0x1fff_ffff,
                r == radius && i32::MIN < r <= 32_767,
                -r <= dx,
                dx <= r + 1 || dx == -r,
                forall|i: int, j: int| 0 <= i < self.width && 0 <= j < self.height ==>
                    (#[trigger] self.current_visibility@[i]@[j]) == (i - px < dx && in_view(m0, px as int, py as int, r as int, i, j)
                        && !(i == px && j == py && !(abs(i - px) <= r && abs(j - py) <= r && sight_clear(m0, px as int, py as int, i, j)))),
                forall|i: int, j: int| 0 <= i < self.width && 0 <= j < self.height ==>
                    (#[trigger] self.visibility@[i]@[j]) == (m0.visibility@[i]@[j] || self.current_visibility@[i]@[j]),
            decreases r + 1 - dx,
        {
            let mut dy: i32 = -r;
            while dy <= r
                invariant
                    map_wf(*self),
                    same_but_sight(m0, *self),
                    px_i == px && py_i == py && px <= 0x1fff_ffff && py <= 0x1fff_ffff,
                    r == radius && i32::MIN < r <= 32_767,
                    -r <= dx <= r,
                    -r <= dy <= r + 1,
                    forall|i: int, j: int| 0 <= i < self.width && 0 <= j < self.height ==>
                        (#[trigger] self.current_visibility@[i]@[j]) == ((i - px < dx || (i - px == dx && j - py < dy))
                            && in_view(m0, px as int, py as int, r as int, i, j)
                            && !(i == px && j == py && !(abs(i - px) <= r && abs(j - py) <= r && sight_clear(m0, px as int, py as int, i, j)))),
                    forall|i: int, j: int| 0 <= i < self.width && 0 <= j < self.height ==>
                        (#[trigger] self.visibility@[i]@[j]) == (m0.visibility@[i]@[j] || self.current_visibility@[i]@[j]),
                decreases r + 1 - dy,
            {
                proof {
                    assert(0 <= dx * dx <= 32_767 * 32_767) by (nonlinear_arith)
                        requires -32_767 <= dx <= 32_767;
                    assert(0 <= dy * dy <= 32_767 * 32_767) by (nonlinear_arith)
                        requires -32_767 <= dy <= 32_767;
                    assert(0 <= r * r <= 32_767 * 32_767) by (nonlinear_arith)
                        requires 0 <= r <= 32_767;
                }
                if dx * dx + dy * dy <= r * r {
                    let tx = px_i + dx;
                    let ty = py_i + dy;
                    if tx >= 0 && ty >= 0 {
                        let ux = tx as usize;
                        let uy = ty as usize;
                        if ux < self.width && uy < self.height {
                            if self.has_line_of_sight(px, py, ux, uy) {
                                set_cell(&mut self.current_visibility, ux, uy, true);
                                set_cell(&mut self.visibility, ux, uy, true);
                            }
                        }
                    }
                }
                dy = dy + 1;
            }
            dx = dx + 1;
        }
        if px < self.width && py < self.height {
            set_cell(&mut self.current_visibility, px, py, true);
            set_cell(&mut self.visibility, px, py, true);
        }
    }
}

impl DungeonMap {
    /// Reveals the ring of cells around (px, py) at radius `radius` (see
    /// `in_ring`) and the player's own cell, adding to what is visible;
    /// returns whether any cell of the ring was revealed for the first time
    /// (not seen before).
    pub fn reveal_ring(&mut self, px: usize, py: usize, radius: i32) -> (any: bool)
        requires
            map_wf(*old(self)),
            px <= 20_000,
            py <= 20_000,
            -32_767 <= radius <= 32_767,
        ensures
            map_wf(*final(self)),
            same_but_sight(*old(self), *final(self)),
            forall|x: int, y: int| in_bounds(*old(self), x, y) ==>
                (#[trigger] final(self).current_visibility@[x]@[y]) == (old(self).current_visibility@[x]@[y]
                    || in_ring(px as int, py as int, radius as int, x, y) || (x == px && y == py)),
            forall|x: int, y: int| in_bounds(*old(self), x, y) ==>
                (#[trigger] final(self).visibility@[x]@[y]) == (old(self).visibility@[x]@[y]
                    || in_ring(px as int, py as int, radius as int, x, y) || (x == px && y == py)),
            any == exists|x: int, y: int| in_bounds(*old(self), x, y) && #[trigger] in_ring(px as int, py as int, radius as int, x, y)
                && !old(self).visibility@[x]@[y],
    {
        let ghost m0 = *self;
        let pxi = px as i32;
        let pyi = py as i32;
        let r = radius;
        proof {
            assert(0 <= r * r <= 32_767 * 32_767) by (nonlinear_arith)
                requires -32_767 <= r <= 32_767;
            assert(0 <= (r - 1) * (r - 1) <= 32_768 * 32_768) by (nonlinear_arith)
                requires -32_767 <= r <= 32_767;
        }
        let r2 = r * r;
        let prev_r2 = (r - 1) * (r - 1);
        let mut any_revealed = false;
        let ghost mut wx: int = 0;
        let ghost mut wy: int = 0;
        let mut y: usize = 0;
        while y < self.height
            invariant
                map_wf(*self),
                same_but_sight(m0, *self),
                pxi == px && pyi == py && px <= 20_000 && py <= 20_000,
                r == radius && r2 == r * r && prev_r2 == (r - 1) * (r - 1),
                y <= self.height,
                forall|i: int, j: int| 0 <= i < self.width && 0 <= j < self.height ==>
                    (#[trigger] self.current_visibility@[i]@[j]) == (m0.current_visibility@[i]@[j] || (j < y && in_ring(px as int, py as int, r as int, i, j))),
                forall|i: int, j: int| 0 <= i < self.width && 0 <= j < self.height ==>
                    (#[trigger] self.visibility@[i]@[j]) == (m0.visibility@[i]@[j] || (j < y && in_ring(px as int, py as int, r as int, i, j))),
                any_revealed ==> in_bounds(m0, wx, wy) && in_ring(px as int, py as int, r as int, wx, wy) && !m0.visibility@[wx]@[wy],
                !any_revealed ==> forall|i: int, j: int| 0 <= i < self.width && 0 <= j < y ==> !(#[trigger] in_ring(px as int, py as int, r as int, i, j) && !m0.visibility@[i]@[j]),
            decreases self.height - y,
        {
            let mut x: usize = 0;
            while x < self.width
                invariant
                    map_wf(*self),
                    same_but_sight(m0, *self),
                    pxi == px && pyi == py && px <= 20_000 && py <= 20_000,
                    r == radius && r2 == r * r && prev_r2 == (r - 1) * (r - 1),
                    y < self.height,
                    x <= self.width,
                    forall|i: int, j: int| 0 <= i < self.width && 0 <= j < self.height ==>
                        (#[trigger] self.current_visibility@[i]@[j]) == (m0.current_visibility@[i]@[j]
                            || ((j < y || (j == y && i < x)) && in_ring(px as int, py as int, r as int, i, j))),
                    forall|i: int, j: int| 0 <= i < self.width && 0 <= j < self.height ==>
                        (#[trigger] self.visibility@[i]@[j]) == (m0.visibility@[i]@[j]
                            || ((j < y || (j == y && i < x)) && in_ring(px as int, py as int, r as int, i, j))),
                    any_revealed ==> in_bounds(m0, wx, wy) && in_ring(px as int, py as int, r as int, wx, wy) && !m0.visibility@[wx]@[wy],
                    !any_revealed ==> forall|i: int, j: int| 0 <= i < self.width && 0 <= j < self.height && (j < y || (j == y && i < x))
                        ==> !(#[trigger] in_ring(px as int, py as int, r as int, i, j) && !m0.visibility@[i]@[j]),
                decreases self.width - x,
            {
                let dx = x as i32 - pxi;
                let dy = y as i32 - pyi;
                proof {
                    assert(0 <= dx * dx <= 30_000 * 30_000) by (nonlinear_arith)
                        requires -30_000 <= dx <= 30_000;
                    assert(0 <= dy * dy <= 30_000 * 30_000) by (nonlinear_arith)
                        requires -30_000 <= dy <= 30_000;
                }
                let dist2 = dx * dx + dy * dy;
                if dist2 <= r2 && dist2 > prev_r2 {
                    let fresh = !self.visibility[x][y];
                    set_cell(&mut self.current_visibility, x, y, true);
                    set_cell(&mut self.visibility, x, y, true);
                    if fresh {
                        any_revealed = true;
                        proof { wx = x as int; wy = y as int; }
                    }
                }
                x = x + 1;
            }
            y = y + 1;
        }
        if px < self.width && py < self.height {
            set_cell(&mut self.current_visibility, px, py, true);
            set_cell(&mut self.visibility, px, py, true);
        }
        proof {
            if any_revealed {
                assert(in_bounds(m0, wx, wy) && in_ring(px as int, py as int, radius as int, wx, wy) && !m0.visibility@[wx]@[wy]);
            }
        }
        any_revealed
    }

    /// Makes every cell visible and seen.
    pub fn reveal_all(&mut self)
        requires
            map_wf(*old(self)),
        ensures
            map_wf(*final(self)),
            same_but_sight(*old(self), *final(self)),
            forall|x: int, y: int| in_bounds(*old(self), x, y) ==>
                #[trigger] final(self).current_visibility@[x]@[y] && final(self).visibility@[x]@[y],
    {
        let ghost m0 = *self;
        let mut y: usize = 0;
        while y < self.height
            invariant
                map_wf(*self),
                same_but_sight(m0, *self),
                y <= self.height,
                forall|i: int, j: int| 0 <= i < self.width && 0 <= j < y ==>
                    #[trigger] self.current_visibility@[i]@[j] && self.visibility@[i]@[j],
            decreases self.height - y,
        {
            let mut x: usize = 0;
            while x < self.width
                invariant
                    map_wf(*self),
                    same_but_sight(m0, *self),
                    y < self.height,
                    x <= self.width,
                    forall|i: int, j: int| 0 <= i < self.width && 0 <= j < self.height && (j < y || (j == y && i < x)) ==>
                        #[trigger] self.current_visibility@[i]@[j] && self.visibility@[i]@[j],
                decreases self.width - x,
            {
                set_cell(&mut self.current_visibility, x, y, true);
                set_cell(&mut self.visibility, x, y, true);
                x = x + 1;
            }
            y = y + 1;
        }
    }

    /// The same as `reveal_area`.
    pub fn update_visibility(&mut self, px: usize, py: usize, radius: i32)
        requires
            map_wf(*old(self)),
            px <= 0x1fff_ffff,
            py <= 0x1fff_ffff,
            i32::MIN < radius <= 32_767,
        ensures
            map_wf(*final(self)),
            same_but_sight(*old(self), *final(self)),
            forall|x: int, y: int| in_bounds(*old(self), x, y) ==>
                (#[trigger] final(self).current_visibility@[x]@[y]) == in_view(*old(self), px as int, py as int, radius as int, x, y),
            forall|x: int, y: int| in_bounds(*old(self), x, y) ==>
                (#[trigger] final(self).visibility@[x]@[y]) == (old(self).visibility@[x]@[y]
                    || in_view(*old(self), px as int, py as int, radius as int, x, y)),
            looked_around(*old(self), *final(self), px as int, py as int, radius as int),
    {
        self.reveal_area(px, py, radius);
    }
}

/// Two cells side by side (not diagonal).
pub open spec fn adjacent4(a: (int, int), b: (int, int)) -> bool {
    manhattan(a.0, a.1, b.0, b.1) == 1
}

/// A first step from `start` toward `goal` that a monster may take: a
/// walkable cell next to `start` that no other monster holds (the goal
/// itself may be held, by the player).
pub open spec fn step_ok(m: DungeonMap, start: (usize, usize), goal: (usize, usize), occupied: Seq<(usize, usize)>, p: (usize, usize)) -> bool {
    &&& adjacent4((start.0 as int, start.1 as int), (p.0 as int, p.1 as int))
    &&& walkable(m, p.0 as int, p.1 as int)
    &&& (p == goal || !occupied.contains(p))
}

/// `p` is the first step of a shortest route from `start` to `goal` over
/// free cells (see `free_cell`): the goal is some `d` steps from `p`, and
/// not `d` steps or fewer from `start`.
pub open spec fn first_of_shortest(m: DungeonMap, occ: Seq<(usize, usize)>, goal: (usize, usize), start: (usize, usize),
    p: (usize, usize)) -> bool {
    exists|d: nat| #[trigger] route_in(m, occ, goal, d, p.0 as int, p.1 as int)
        && forall|j: nat| j <= d ==> !#[trigger] route_in(m, occ, goal, j, start.0 as int, start.1 as int)
}

/// The cell with index `k` (column-major) of a map `h` cells high.
pub open spec fn cell_of(k: int, h: int) -> (int, int) {
    (k / h, k % h)
}

/// The A* search state over `n` cells: `g` holds the best path length found
/// (`i32::MAX` for none), `from` the cell each one was reached from. Each
/// link goes to a side neighbour with a shorter path, only the start has
/// length 0 and no link, and every other reached cell has a link.
pub open spec fn search_ok(m: DungeonMap, start: int, goal: (usize, usize), occupied: Seq<(usize, usize)>,
    g: Seq<i32>, from: Seq<Option<usize>>, check_occupied: bool) -> bool {
    let n = m.width * m.height;
    let h = m.height as int;
    &&& g.len() == n && from.len() == n
    &&& 0 <= start < n
    &&& g[start] == 0 && from[start] is None
    &&& forall|k: int| 0 <= k < n ==> 0 <= #[trigger] g[k]
    &&& forall|k: int| 0 <= k < n && k != start && g[k] < i32::MAX ==> (#[trigger] from[k]) is Some
    &&& forall|k: int| 0 <= k < n && (#[trigger] from[k]) is Some ==> {
        let q = from[k]->0 as int;
        &&& 0 <= q < n
        &&& g[q] + 1 <= g[k] < i32::MAX
        &&& adjacent4(cell_of(q, h), cell_of(k, h))
        &&& walkable(m, cell_of(k, h).0, cell_of(k, h).1)
        &&& (check_occupied ==> (cell_of(k, h) == (goal.0 as int, goal.1 as int)
            || !occupied.contains((cell_of(k, h).0 as usize, cell_of(k, h).1 as usize))))
    }
    &&& forall|k: int| 0 <= k < n && g[k] < i32::MAX ==>
        #[trigger] g[k] >= manhattan(cell_of(start, h).0, cell_of(start, h).1, cell_of(k, h).0, cell_of(k, h).1)
}

/// The Manhattan distance from the cell with index `k` to the goal, the
/// A* estimate.
pub open spec fn goal_estimate(m: DungeonMap, goal: (usize, usize), k: int) -> int {
    manhattan(cell_of(k, m.height as int).0, cell_of(k, m.height as int).1, goal.0 as int, goal.1 as int)
}

/// The cell with index `k` has been expanded with its present path length:
/// every free side neighbour has a path at most one longer.
pub open spec fn expanded(m: DungeonMap, occ: Seq<(usize, usize)>, goal: (usize, usize), g: Seq<i32>, k: int) -> bool {
    let h = m.height as int;
    forall|x: int, y: int| adjacent4(cell_of(k, h), (x, y)) && #[trigger] free_cell(m, occ, goal, x, y) ==> g[x * h + y] <= g[k] + 1
}

/// The open list of the search: each entry names a cell and costs at least
/// its path length plus its estimate.
pub open spec fn open_ok(m: DungeonMap, goal: (usize, usize), g: Seq<i32>, open: Seq<(i32, usize)>) -> bool {
    forall|j: int| 0 <= j < open.len() ==> (#[trigger] open[j]).1 < m.width * m.height
        && open[j].0 >= g[open[j].1 as int] + goal_estimate(m, goal, open[j].1 as int)
}

/// The frontier of the search: each reached cell has an open entry at its
/// present path length, or (not being the goal) has been expanded with it.
pub open spec fn frontier_ok(m: DungeonMap, occ: Seq<(usize, usize)>, goal: (usize, usize), g: Seq<i32>,
    open: Seq<(i32, usize)>) -> bool {
    forall|k: int| 0 <= k < m.width * m.height && #[trigger] g[k] < i32::MAX ==>
        (exists|j: int| 0 <= j < open.len() && (#[trigger] open[j]).1 == k && open[j].0 == g[k] + goal_estimate(m, goal, k))
        || (cell_of(k, m.height as int) != (goal.0 as int, goal.1 as int) && expanded(m, occ, goal, g, k))
}

/// The frontier of the search but for the cell `p` being expanded (see
/// `frontier_ok`).
pub open spec fn frontier_but(m: DungeonMap, occ: Seq<(usize, usize)>, goal: (usize, usize), g: Seq<i32>,
    open: Seq<(i32, usize)>, p: int) -> bool {
    forall|q: int| 0 <= q < m.width * m.height && q != p && #[trigger] g[q] < i32::MAX ==>
        (exists|j: int| 0 <= j < open.len() && (#[trigger] open[j]).1 == q && open[j].0 == g[q] + goal_estimate(m, goal, q))
        || (cell_of(q, m.height as int) != (goal.0 as int, goal.1 as int) && expanded(m, occ, goal, g, q))
}

/// A shorter path to cell `c` (a new entry for it on the open list) keeps
/// the frontier of the other cells.
proof fn lemma_frontier_relaxed(m: DungeonMap, occ: Seq<(usize, usize)>, goal: (usize, usize), g0: Seq<i32>,
    open0: Seq<(i32, usize)>, p: int, c: usize, t: i32)
    requires
        map_wf(m),
        g0.len() == m.width * m.height,
        frontier_but(m, occ, goal, g0, open0, p),
        c < m.width * m.height,
        c != p,
        t < g0[c as int],
    ensures
        frontier_but(m, occ, goal, g0.update(c as int, t), open0.push(((t + goal_estimate(m, goal, c as int)) as i32, c)), p)
            || t + goal_estimate(m, goal, c as int) > i32::MAX || t + goal_estimate(m, goal, c as int) < i32::MIN,
{
    let g = g0.update(c as int, t);
    let f = t + goal_estimate(m, goal, c as int);
    if i32::MIN <= f <= i32::MAX {
        let open = open0.push((f as i32, c));
        let h = m.height as int;
        let w = m.width as int;
        assert forall|q: int| 0 <= q < m.width * m.height && q != p && #[trigger] g[q] < i32::MAX implies
            (exists|j: int| 0 <= j < open.len() && (#[trigger] open[j]).1 == q && open[j].0 == g[q] + goal_estimate(m, goal, q))
            || (cell_of(q, h) != (goal.0 as int, goal.1 as int) && expanded(m, occ, goal, g, q)) by {
            if q == c as int {
                assert(open[open0.len() as int].1 == q);
            } else {
                assert(g[q] == g0[q]);
                if exists|j: int| 0 <= j < open0.len() && (#[trigger] open0[j]).1 == q && open0[j].0 == g0[q] + goal_estimate(m, goal, q) {
                    let j = choose|j: int| 0 <= j < open0.len() && (#[trigger] open0[j]).1 == q && open0[j].0 == g0[q] + goal_estimate(m, goal, q);
                    assert(open[j] == open0[j]);
                } else {
                    assert(expanded(m, occ, goal, g0, q));
                    assert forall|x: int, y: int| adjacent4(cell_of(q, h), (x, y)) && #[trigger] free_cell(m, occ, goal, x, y)
                        implies g[x * h + y] <= g[q] + 1 by {
                        lemma_index_in(x, y, w, h);
                        assert(g0[x * h + y] <= g0[q] + 1);
                    }
                }
            }
        }
    }
}

/// A route of at most n steps starts at most n away from the goal.
proof fn lemma_route_estimate(m: DungeonMap, occ: Seq<(usize, usize)>, goal: (usize, usize), n: nat, x: int, y: int)
    requires
        route_in(m, occ, goal, n, x, y),
    ensures
        manhattan(x, y, goal.0 as int, goal.1 as int) <= n,
    decreases n,
{
    if x == goal.0 && y == goal.1 {
    } else {
        let k = (n - 1) as nat;
        if free_cell(m, occ, goal, x - 1, y) && route_in(m, occ, goal, k, x - 1, y) {
            lemma_route_estimate(m, occ, goal, k, x - 1, y);
        } else if free_cell(m, occ, goal, x + 1, y) && route_in(m, occ, goal, k, x + 1, y) {
            lemma_route_estimate(m, occ, goal, k, x + 1, y);
        } else if free_cell(m, occ, goal, x, y - 1) && route_in(m, occ, goal, k, x, y - 1) {
            lemma_route_estimate(m, occ, goal, k, x, y - 1);
        } else {
            lemma_route_estimate(m, occ, goal, k, x, y + 1);
        }
    }
}

/// While the goal has not been taken from the open list, a reached cell
/// `u` with a route of `b` steps, `b` more than its path length at most
/// `n`, leaves an open entry costing at most `n`: follow the route until a
/// cell not yet expanded with its path length.
proof fn lemma_frontier(m: DungeonMap, occ: Seq<(usize, usize)>, goal: (usize, usize), g: Seq<i32>,
    open: Seq<(i32, usize)>, u: int, b: nat, n: int)
    requires
        map_wf(m),
        g.len() == m.width * m.height,
        frontier_ok(m, occ, goal, g, open),
        0 <= u < m.width * m.height,
        g[u] < i32::MAX,
        route_in(m, occ, goal, b, cell_of(u, m.height as int).0, cell_of(u, m.height as int).1),
        g[u] + b <= n < i32::MAX,
    ensures
        exists|j: int| 0 <= j < open.len() && (#[trigger] open[j]).0 <= n,
    decreases b,
{
    let h = m.height as int;
    let (x, y) = cell_of(u, h);
    lemma_route_estimate(m, occ, goal, b, x, y);
    if exists|j: int| 0 <= j < open.len() && (#[trigger] open[j]).1 == u && open[j].0 == g[u] + goal_estimate(m, goal, u) {
        let j = choose|j: int| 0 <= j < open.len() && (#[trigger] open[j]).1 == u && open[j].0 == g[u] + goal_estimate(m, goal, u);
        assert(open[j].0 <= n);
    } else {
        assert(g[u] < i32::MAX);
        assert(cell_of(u, h) != (goal.0 as int, goal.1 as int) && expanded(m, occ, goal, g, u));
        let k = (b - 1) as nat;
        let c: (int, int) = if free_cell(m, occ, goal, x - 1, y) && route_in(m, occ, goal, k, x - 1, y) {
            (x - 1, y)
        } else if free_cell(m, occ, goal, x + 1, y) && route_in(m, occ, goal, k, x + 1, y) {
            (x + 1, y)
        } else if free_cell(m, occ, goal, x, y - 1) && route_in(m, occ, goal, k, x, y - 1) {
            (x, y - 1)
        } else {
            (x, y + 1)
        };
        assert(free_cell(m, occ, goal, c.0, c.1) && route_in(m, occ, goal, k, c.0, c.1));
        assert(adjacent4(cell_of(u, h), (c.0, c.1)));
        lemma_cell_index(c.0, c.1, h);
        assert(c.0 * h + c.1 < m.width * h) by (nonlinear_arith)
            requires 0 <= c.0 < m.width, 0 <= c.1 < h;
        assert(c.0 * h + c.1 >= 0) by (nonlinear_arith)
            requires 0 <= c.0, 0 <= c.1, 0 < h;
        assert(g[c.0 * h + c.1] <= g[u] + 1);
        lemma_frontier(m, occ, goal, g, open, c.0 * h + c.1, k, n);
    }
}

/// Whether `p` is in the list.
fn contains_pos(v: &[(usize, usize)], p: (usize, usize)) -> (b: bool)
    ensures
        b == v@.contains(p),
{
    let mut i: usize = 0;
    while i < v.len()
        invariant
            i <= v@.len(),
            forall|j: int| 0 <= j < i ==> v@[j] != p,
        decreases v@.len() - i,
    {
        if v[i].0 == p.0 && v[i].1 == p.1 {
            return true;
        }
        i = i + 1;
    }
    false
}

/// The index of the open entry with the least cost.
fn cheapest(open: &Vec<(i32, usize)>) -> (k: usize)
    requires
        open@.len() > 0,
    ensures
        k < open@.len(),
        forall|j: int| 0 <= j < open@.len() ==> open@[k as int].0 <= #[trigger] open@[j].0,
{
    let mut best: usize = 0;
    let mut i: usize = 1;
    while i < open.len()
        invariant
            open@.len() > 0,
            best < open@.len(),
            1 <= i <= open@.len(),
            forall|j: int| 0 <= j < i ==> open@[best as int].0 <= #[trigger] open@[j].0,
        decreases open@.len() - i,
    {
        if open[i].0 < open[best].0 {
            best = i;
        }
        i = i + 1;
    }
    best
}

impl DungeonMap {
    /// A* search from `start` toward `goal` over walkable cells, side steps
    /// only, around the cells in `occupied` (except the goal). Returns the
    /// first step of the path found: `Some(goal)` when start and goal are the
    /// same cell, or side by side with the goal walkable; `None` when no path
    /// is found or the search passes 500 steps. The step found is the first
    /// of a shortest route to the goal (see `first_of_shortest`).
    pub fn astar_next_step(&self, start: (usize, usize), goal: (usize, usize), occupied: &[(usize, usize)]) -> (r: Option<(usize, usize)>)
        requires
            map_wf(*self),
            start.0 < self.width && start.1 < self.height,
            goal.0 <= 0x1fff_ffff && goal.1 <= 0x1fff_ffff,
        ensures
            start == goal ==> r == Some(goal),
            adjacent4((start.0 as int, start.1 as int), (goal.0 as int, goal.1 as int)) && walkable(*self, goal.0 as int, goal.1 as int)
                ==> r == Some(goal),
            start != goal && r is Some ==> step_ok(*self, start, goal, occupied@, r->0),
            start != goal && r is Some ==> route_from(*self, occupied@, goal, (r->0).0 as int, (r->0).1 as int),
            start != goal && r is Some ==> first_of_shortest(*self, occupied@, goal, start, r->0),
    {
        if DungeonMap::distance(start.0, start.1, goal.0, goal.1) == 1 && self.is_walkable(goal.0, goal.1) {
            proof {
                assert(route_in(*self, occupied@, goal, 0, goal.0 as int, goal.1 as int));
                assert(first_of_shortest(*self, occupied@, goal, start, goal));
                assert(route_from(*self, occupied@, goal, goal.0 as int, goal.1 as int));
            }
            return Some(goal);
        }
        let (found, g, from) = self.astar_search(start, goal, occupied, true, 500);
        proof {
            lemma_cell_index(start.0 as int, start.1 as int, self.height as int);
            assert(start.0 * self.height + start.1 < self.width * self.height) by (nonlinear_arith)
                requires start.0 < self.width, start.1 < self.height;
            assert(self.width * self.height <= 100_000_000) by (nonlinear_arith)
                requires 1 <= self.width <= 10_000, 1 <= self.height <= 10_000;
        }
        match found {
            Some(k) => {
                let r = reconstruct_first_step(Ghost(*self), &from, &g, start.0 * self.height + start.1, k, self.height,
                    Ghost(start), goal, Ghost(occupied@));
                proof {
                    if start != goal {
                        let p = r->0;
                        let d = (g@[k as int] - 1) as nat;
                        assert(route_in(*self, occupied@, goal, d, p.0 as int, p.1 as int));
                        assert forall|j: nat| j <= d implies !#[trigger] route_in(*self, occupied@, goal, j, start.0 as int, start.1 as int) by {
                            if route_in(*self, occupied@, goal, j, start.0 as int, start.1 as int) {
                                assert(g@[k as int] <= j);
                            }
                        }
                        assert(first_of_shortest(*self, occupied@, goal, start, p));
                    }
                }
                r
            },
            None => None,
        }
    }

    /// The length of the path A* finds from `start` to `goal` over walkable
    /// cells (0 when they are the same cell); `None` when there is none or
    /// the search passes 800 steps. A path is never shorter than the
    /// Manhattan distance, and a length found is that of a shortest walk:
    /// the goal is that many side steps away over walkable cells, and no
    /// fewer (see `route_in`).
    pub(crate) fn astar_distance(&self, start: (usize, usize), goal: (usize, usize)) -> (r: Option<i32>)
        requires
            map_wf(*self),
            start.0 < self.width && start.1 < self.height,
            goal.0 <= 0x1fff_ffff && goal.1 <= 0x1fff_ffff,
        ensures
            start == goal ==> r == Some(0i32),
            start != goal && r is Some ==> r->0 >= manhattan(start.0 as int, start.1 as int, goal.0 as int, goal.1 as int),
            r is Some ==> route_in(*self, Seq::empty(), goal, r->0 as nat, start.0 as int, start.1 as int),
            r is Some ==> forall|n: nat| #[trigger] route_in(*self, Seq::empty(), goal, n, start.0 as int, start.1 as int) ==> r->0 <= n,
    {
        if start.0 == goal.0 && start.1 == goal.1 {
            proof { assert(route_in(*self, Seq::empty(), goal, 0, start.0 as int, start.1 as int)); }
            return Some(0);
        }
        let no_one: Vec<(usize, usize)> = Vec::new();
        let (found, g, from) = self.astar_search(start, goal, no_one.as_slice(), false, 800);
        match found {
            Some(k) => {
                proof {
                    assert(no_one@ =~= Seq::<(usize, usize)>::empty());
                    let h = self.height as int;
                    assert(route_in(*self, no_one@, goal, 0, cell_of(k as int, h).0, cell_of(k as int, h).1));
                    lemma_route_back(*self, start.0 * self.height + start.1, goal, no_one@, g@, from@, false, k as int, 0);
                }
                Some(g[k])
            },
            None => None,
        }
    }
}

impl DungeonMap {
    #[verifier::rlimit(100)]
    #[verifier::spinoff_prover]
    fn astar_search(&self, start: (usize, usize), goal: (usize, usize), occupied: &[(usize, usize)], avoid: bool, max_iterations: usize)
        -> (r: (Option<usize>, Vec<i32>, Vec<Option<usize>>))
        requires
            map_wf(*self),
            start.0 < self.width && start.1 < self.height,
            goal.0 <= 0x1fff_ffff && goal.1 <= 0x1fff_ffff,
            1 <= max_iterations <= 1000,
            avoid || occupied@.len() == 0,
        ensures
            search_ok(*self, start.0 * self.height + start.1, goal, occupied@, r.1@, r.2@, avoid),
            cell_of(start.0 * self.height + start.1, self.height as int) == (start.0 as int, start.1 as int),
            r.0 is Some ==> r.0->0 < self.width * self.height && r.1@[r.0->0 as int] < i32::MAX
                && cell_of(r.0->0 as int, self.height as int) == (goal.0 as int, goal.1 as int),
            r.0 is Some ==> forall|n: nat| #[trigger] route_in(*self, occupied@, goal, n, start.0 as int, start.1 as int)
                ==> r.1@[r.0->0 as int] <= n,
            start == goal ==> r.0 is Some && r.0->0 == start.0 * self.height + start.1 && r.1@[r.0->0 as int] == 0,
    {
        let w = self.width;
        let h = self.height;
        proof {
            assert(w * h <= 100_000_000) by (nonlinear_arith)
                requires 1 <= w <= 10_000, 1 <= h <= 10_000;
            assert(w * h >= 1) by (nonlinear_arith)
                requires 1 <= w, 1 <= h;
            lemma_cell_index(start.0 as int, start.1 as int, h as int);
            assert(start.0 * h + start.1 < w * h) by (nonlinear_arith)
                requires start.0 < w, start.1 < h;
        }
        let n = w * h;
        let (mut g, mut from) = fresh_search(n);
        let s_idx = start.0 * h + start.1;
        g.set(s_idx, 0);
        let mut open: Vec<(i32, usize)> = Vec::new();
        let h0 = heuristic(start, goal);
        open.push((h0, s_idx));
        let mut iterations: usize = 0;
        let ghost occ = occupied@;
        proof {
            assert(g@[s_idx as int] == 0);
            assert(forall|k: int| 0 <= k < n && k != s_idx ==> g@[k] == i32::MAX);
            let hh = h as int;
            assert(g@.len() == self.width * self.height);
            assert(0 <= s_idx < self.width * self.height);
            assert(forall|k: int| 0 <= k < n ==> 0 <= #[trigger] g@[k]);
            assert(forall|k: int| 0 <= k < n && k != s_idx && g@[k] < i32::MAX ==> (#[trigger] from@[k]) is Some);
            assert(forall|k: int| 0 <= k < n && (#[trigger] from@[k]) is Some ==> false);
            assert(forall|k: int| 0 <= k < n && g@[k] < i32::MAX ==>
                #[trigger] g@[k] >= manhattan(cell_of(s_idx as int, hh).0, cell_of(s_idx as int, hh).1, cell_of(k, hh).0, cell_of(k, hh).1));
            assert(search_ok(*self, s_idx as int, goal, occ, g@, from@, avoid));
            assert(open@[0] == (h0, s_idx));
            assert(frontier_ok(*self, occ, goal, g@, open@)) by {
                assert forall|k: int| 0 <= k < self.width * self.height && #[trigger] g@[k] < i32::MAX implies
                    (exists|j: int| 0 <= j < open@.len() && (#[trigger] open@[j]).1 == k && open@[j].0 == g@[k] + goal_estimate(*self, goal, k))
                    || (cell_of(k, self.height as int) != (goal.0 as int, goal.1 as int) && expanded(*self, occ, goal, g@, k)) by {
                    assert(k == s_idx);
                    assert(open@[0].1 == k && open@[0].0 == g@[k] + goal_estimate(*self, goal, k));
                }
            }
        }
        while open.len() > 0
            invariant
                map_wf(*self),
                w == self.width && h == self.height && n == w * h && n <= 100_000_000,
                start.0 < w && start.1 < h && s_idx == start.0 * h + start.1,
                cell_of(s_idx as int, h as int) == (start.0 as int, start.1 as int),
                goal.0 <= 0x1fff_ffff && goal.1 <= 0x1fff_ffff,
                occ == occupied@,
                avoid || occ.len() == 0,
                search_ok(*self, s_idx as int, goal, occ, g@, from@, avoid),
                forall|j: int| 0 <= j < open@.len() ==> (#[trigger] open@[j]).1 < n && g@[open@[j].1 as int] < i32::MAX
                    && g@[open@[j].1 as int] <= iterations + 1,
                open_ok(*self, goal, g@, open@),
                frontier_ok(*self, occ, goal, g@, open@),
                iterations <= max_iterations && 1 <= max_iterations <= 1000,
                forall|k: int| 0 <= k < n ==> #[trigger] g@[k] <= iterations + 1 || g@[k] == i32::MAX,
                iterations == 0 ==> open@.len() == 1 && open@[0].1 == s_idx,
                start == goal ==> iterations == 0,
            decreases max_iterations + 1 - iterations,
        {
            let k = cheapest(&open);
            let ghost open0 = open@;
            let entry = open.remove(k);
            let p_idx = entry.1;
            iterations = iterations + 1;
            if iterations > max_iterations {
                return (None, g, from);
            }
            proof { lemma_cell_index_of(p_idx as int, h as int, w as int); }
            let pos = (p_idx / h, p_idx % h);
            if pos.0 == goal.0 && pos.1 == goal.1 {
                proof {
                    if start == goal {
                        assert(p_idx == s_idx);
                    }
                    assert(entry == open0[k as int]);
                    assert forall|m: nat| #[trigger] route_in(*self, occupied@, goal, m, start.0 as int, start.1 as int)
                        implies g@[p_idx as int] <= m by {
                        if m < i32::MAX {
                            lemma_frontier(*self, occ, goal, g@, open0, s_idx as int, m, m as int);
                            let j = choose|j: int| 0 <= j < open0.len() && (#[trigger] open0[j]).0 <= m;
                            assert(open0[k as int].0 <= open0[j].0);
                        }
                    }
                }
                return (Some(p_idx), g, from);
            }
            let ghost gp = g@[p_idx as int];
            proof {
                assert(forall|j: int| 0 <= j < open@.len() ==> #[trigger] open@[j] == (if j < k { open0[j] } else { open0[j + 1] }));
                assert forall|q: int| 0 <= q < self.width * self.height && q != p_idx && #[trigger] g@[q] < i32::MAX implies
                    (exists|j: int| 0 <= j < open@.len() && (#[trigger] open@[j]).1 == q && open@[j].0 == g@[q] + goal_estimate(*self, goal, q))
                    || (cell_of(q, h as int) != (goal.0 as int, goal.1 as int) && expanded(*self, occ, goal, g@, q)) by {
                    if exists|j: int| 0 <= j < open0.len() && (#[trigger] open0[j]).1 == q && open0[j].0 == g@[q] + goal_estimate(*self, goal, q) {
                        let j = choose|j: int| 0 <= j < open0.len() && (#[trigger] open0[j]).1 == q && open0[j].0 == g@[q] + goal_estimate(*self, goal, q);
                        assert(j != k);
                        let j2 = if j < k { j } else { j - 1 };
                        assert(open@[j2] == open0[j]);
                    }
                }
            }
            let mut d: usize = 0;
            while d < 4
                invariant
                    map_wf(*self),
                    w == self.width && h == self.height && n == w * h && n <= 100_000_000,
                    start.0 < w && start.1 < h && s_idx == start.0 * h + start.1,
                    cell_of(s_idx as int, h as int) == (start.0 as int, start.1 as int),
                    goal.0 <= 0x1fff_ffff && goal.1 <= 0x1fff_ffff,
                    occ == occupied@,
                    avoid || occ.len() == 0,
                    search_ok(*self, s_idx as int, goal, occ, g@, from@, avoid),
                    p_idx < n && pos == (p_idx / h, p_idx % h) && pos.0 < w && pos.1 < h,
                    cell_of(p_idx as int, h as int) == (pos.0 as int, pos.1 as int),
                    !(pos.0 == goal.0 && pos.1 == goal.1),
                    g@[p_idx as int] == gp,
                    g@[p_idx as int] < i32::MAX && g@[p_idx as int] <= iterations,
                    forall|j: int| 0 <= j < open@.len() ==> (#[trigger] open@[j]).1 < n && g@[open@[j].1 as int] < i32::MAX
                        && g@[open@[j].1 as int] <= iterations + 1,
                    open_ok(*self, goal, g@, open@),
                    frontier_but(*self, occ, goal, g@, open@, p_idx as int),
                    forall|e: int| 0 <= e < d ==> #[trigger] free_cell(*self, occ, goal, side(pos, e).0, side(pos, e).1)
                        ==> g@[side(pos, e).0 * h + side(pos, e).1] <= gp + 1,
                    1 <= iterations <= max_iterations && 1 <= max_iterations <= 1000,
                    forall|k: int| 0 <= k < n ==> #[trigger] g@[k] <= iterations + 1 || g@[k] == i32::MAX,
                    d <= 4,
                decreases 4 - d,
            {
                let ghost e = d as int;
                let (ndx, ndy): (i32, i32) = if d == 0 { (-1, 0) } else if d == 1 { (1, 0) } else if d == 2 { (0, -1) } else { (0, 1) };
                d = d + 1;
                let nx = pos.0 as i32 + ndx;
                let ny = pos.1 as i32 + ndy;
                assert(side(pos, e) == (nx as int, ny as int));
                if nx < 0 || ny < 0 {
                    continue;
                }
                let np = (nx as usize, ny as usize);
                if !self.is_walkable(np.0, np.1) {
                    continue;
                }
                if avoid && !(np.0 == goal.0 && np.1 == goal.1) && contains_pos(occupied, np) {
                    continue;
                }
                proof {
                    lemma_cell_index(np.0 as int, np.1 as int, h as int);
                    assert(np.0 * h + np.1 < w * h) by (nonlinear_arith)
                        requires np.0 < w, np.1 < h;
                    assert(free_cell(*self, occ, goal, nx as int, ny as int));
                }
                let np_idx = np.0 * h + np.1;
                let tentative = g[p_idx] + 1;
                if tentative < g[np_idx] {
                    proof {
                        assert(np_idx != s_idx);
                        assert(np_idx != p_idx);
                    }
                    let ghost g0 = g@;
                    let ghost opn = open@;
                    from.set(np_idx, Some(p_idx));
                    g.set(np_idx, tentative);
                    let f = tentative + heuristic(np, goal);
                    open.push((f, np_idx));
                    proof {
                        assert(g@ == g0.update(np_idx as int, tentative));
                        assert(open@ == opn.push((f, np_idx)));
                        assert(goal_estimate(*self, goal, np_idx as int) == manhattan(np.0 as int, np.1 as int, goal.0 as int, goal.1 as int));
                        lemma_frontier_relaxed(*self, occ, goal, g0, opn, p_idx as int, np_idx, tentative);
                        assert forall|e2: int| 0 <= e2 < d && #[trigger] free_cell(*self, occ, goal, side(pos, e2).0, side(pos, e2).1)
                            implies g@[side(pos, e2).0 * h + side(pos, e2).1] <= gp + 1 by {
                            lemma_index_in(side(pos, e2).0, side(pos, e2).1, w as int, h as int);
                        }
                    }
                }
            }
            proof {
                assert(expanded(*self, occ, goal, g@, p_idx as int)) by {
                    assert forall|x: int, y: int| adjacent4(cell_of(p_idx as int, h as int), (x, y)) && #[trigger] free_cell(*self, occ, goal, x, y)
                        implies g@[x * h + y] <= g@[p_idx as int] + 1 by {
                        if x == pos.0 - 1 && y == pos.1 {
                            assert(free_cell(*self, occ, goal, side(pos, 0).0, side(pos, 0).1));
                        } else if x == pos.0 + 1 && y == pos.1 {
                            assert(free_cell(*self, occ, goal, side(pos, 1).0, side(pos, 1).1));
                        } else if x == pos.0 && y == pos.1 - 1 {
                            assert(free_cell(*self, occ, goal, side(pos, 2).0, side(pos, 2).1));
                        } else {
                            assert(free_cell(*self, occ, goal, side(pos, 3).0, side(pos, 3).1));
                        }
                    }
                }
            }
        }
        (None, g, from)
    }

}

/// A cell on a map `w` by `h` has its index below `w * h`.
proof fn lemma_index_in(x: int, y: int, w: int, h: int)
    requires
        0 <= x < w,
        0 <= y < h,
    ensures
        0 <= x * h + y < w * h,
{
    assert(0 <= x * h + y < w * h) by (nonlinear_arith)
        requires 0 <= x < w, 0 <= y < h;
}

/// The `e`-th side neighbour of a cell, in the order the search tries
/// them: left, right, up, down.
pub open spec fn side(p: (usize, usize), e: int) -> (int, int) {
    if e == 0 { (p.0 - 1, p.1 as int) } else if e == 1 { (p.0 + 1, p.1 as int) }
    else if e == 2 { (p.0 as int, p.1 - 1) } else { (p.0 as int, p.1 + 1) }
}

/// A search state over `n` cells with nothing reached yet.
fn fresh_search(n: usize) -> (r: (Vec<i32>, Vec<Option<usize>>))
    ensures
        r.0@.len() == n && r.1@.len() == n,
        forall|k: int| 0 <= k < n ==> #[trigger] r.0@[k] == i32::MAX,
        forall|k: int| 0 <= k < n ==> (#[trigger] r.1@[k]) is None,
{
    let mut g: Vec<i32> = Vec::new();
    let mut from: Vec<Option<usize>> = Vec::new();
    let mut i: usize = 0;
    while i < n
        invariant
            i <= n,
            g@.len() == i && from@.len() == i,
            forall|k: int| 0 <= k < i ==> #[trigger] g@[k] == i32::MAX,
            forall|k: int| 0 <= k < i ==> (#[trigger] from@[k]) is None,
        decreases n - i,
    {
        g.push(i32::MAX);
        from.push(None);
        i = i + 1;
    }
    (g, from)
}

/// The Manhattan distance from `p` to `goal`, the A* estimate.
fn heuristic(p: (usize, usize), goal: (usize, usize)) -> (d: i32)
    requires
        p.0 <= 0x1fff_ffff && p.1 <= 0x1fff_ffff,
        goal.0 <= 0x1fff_ffff && goal.1 <= 0x1fff_ffff,
    ensures
        d == manhattan(p.0 as int, p.1 as int, goal.0 as int, goal.1 as int),
        0 <= d <= 0x3fff_fffe,
{
    DungeonMap::distance(p.0, p.1, goal.0, goal.1)
}

/// A cell a route may step on: walkable, and free unless it is the goal.
pub open spec fn free_cell(m: DungeonMap, occ: Seq<(usize, usize)>, goal: (usize, usize), x: int, y: int) -> bool {
    walkable(m, x, y) && ((x == goal.0 && y == goal.1) || !occ.contains((x as usize, y as usize)))
}

/// From (x, y) the goal is at most n side steps away over free cells (see
/// `free_cell`).
pub open spec fn route_in(m: DungeonMap, occ: Seq<(usize, usize)>, goal: (usize, usize), n: nat, x: int, y: int) -> bool
    decreases n,
{
    (x == goal.0 && y == goal.1) || (n > 0 && (
        (free_cell(m, occ, goal, x - 1, y) && route_in(m, occ, goal, (n - 1) as nat, x - 1, y))
        || (free_cell(m, occ, goal, x + 1, y) && route_in(m, occ, goal, (n - 1) as nat, x + 1, y))
        || (free_cell(m, occ, goal, x, y - 1) && route_in(m, occ, goal, (n - 1) as nat, x, y - 1))
        || (free_cell(m, occ, goal, x, y + 1) && route_in(m, occ, goal, (n - 1) as nat, x, y + 1))))
}

/// From (x, y) the goal can be reached by side steps over free cells.
pub open spec fn route_from(m: DungeonMap, occ: Seq<(usize, usize)>, goal: (usize, usize), x: int, y: int) -> bool {
    exists|n: nat| route_in(m, occ, goal, n, x, y)
}

/// A route of at most n steps is one of at most any more steps.
proof fn lemma_route_longer(m: DungeonMap, occ: Seq<(usize, usize)>, goal: (usize, usize), n: nat, n2: nat, x: int, y: int)
    requires
        route_in(m, occ, goal, n, x, y),
        n <= n2,
    ensures
        route_in(m, occ, goal, n2, x, y),
    decreases n,
{
    if x == goal.0 && y == goal.1 {
    } else {
        let k = (n - 1) as nat;
        let k2 = (n2 - 1) as nat;
        if free_cell(m, occ, goal, x - 1, y) && route_in(m, occ, goal, k, x - 1, y) {
            lemma_route_longer(m, occ, goal, k, k2, x - 1, y);
        } else if free_cell(m, occ, goal, x + 1, y) && route_in(m, occ, goal, k, x + 1, y) {
            lemma_route_longer(m, occ, goal, k, k2, x + 1, y);
        } else if free_cell(m, occ, goal, x, y - 1) && route_in(m, occ, goal, k, x, y - 1) {
            lemma_route_longer(m, occ, goal, k, k2, x, y - 1);
        } else {
            lemma_route_longer(m, occ, goal, k, k2, x, y + 1);
        }
    }
}

/// Following the links back from a reached cell `k` to the start: a route
/// of n steps from `k` gives one of n + g[k] steps from the start.
proof fn lemma_route_back(m: DungeonMap, start: int, goal: (usize, usize), occ: Seq<(usize, usize)>,
    g: Seq<i32>, from: Seq<Option<usize>>, check: bool, k: int, n: nat)
    requires
        search_ok(m, start, goal, occ, g, from, check),
        check || occ.len() == 0,
        0 <= k < m.width * m.height,
        g[k] < i32::MAX,
        route_in(m, occ, goal, n, cell_of(k, m.height as int).0, cell_of(k, m.height as int).1),
    ensures
        route_in(m, occ, goal, n + g[k] as nat, cell_of(start, m.height as int).0, cell_of(start, m.height as int).1),
    decreases g[k],
{
    let h = m.height as int;
    if k == start {
    } else {
        assert(from[k] is Some);
        let q = from[k]->0 as int;
        let (kx, ky) = cell_of(k, h);
        let (qx, qy) = cell_of(q, h);
        assert(adjacent4(cell_of(q, h), cell_of(k, h)));
        assert(walkable(m, kx, ky));
        assert(free_cell(m, occ, goal, kx, ky));
        assert(route_in(m, occ, goal, n + 1, qx, qy));
        lemma_route_back(m, start, goal, occ, g, from, check, q, n + 1);
        lemma_route_longer(m, occ, goal, (n + 1 + g[q]) as nat, n + g[k] as nat,
            cell_of(start, h).0, cell_of(start, h).1);
    }
}

/// Walks the links back from the goal to the cell reached straight from the
/// start, the first step of the path.
fn reconstruct_first_step(Ghost(m): Ghost<DungeonMap>, from: &Vec<Option<usize>>, g: &Vec<i32>, s_idx: usize, goal_idx: usize, h: usize,
    Ghost(start): Ghost<(usize, usize)>, goal: (usize, usize), Ghost(occ): Ghost<Seq<(usize, usize)>>) -> (r: Option<(usize, usize)>)
    requires
        search_ok(m, s_idx as int, goal, occ, g@, from@, true),
        h == m.height,
        goal_idx < m.width * m.height,
        g@[goal_idx as int] < i32::MAX,
        cell_of(goal_idx as int, h as int) == (goal.0 as int, goal.1 as int),
        cell_of(s_idx as int, h as int) == (start.0 as int, start.1 as int),
    ensures
        start == goal ==> r == Some(goal),
        start != goal ==> r is Some && g@[goal_idx as int] >= 1 && step_ok(m, start, goal, occ, r->0)
            && route_in(m, occ, goal, (g@[goal_idx as int] - 1) as nat, (r->0).0 as int, (r->0).1 as int),
{
    proof {
        if start == goal {
            lemma_cell_of_injective(goal_idx as int, s_idx as int, h as int, m.width as int);
        }
        assert(route_in(m, occ, goal, 0, goal.0 as int, goal.1 as int));
        if start != goal {
            assert(goal_idx != s_idx);
        }
    }
    let mut current = goal_idx;
    loop
        invariant
            search_ok(m, s_idx as int, goal, occ, g@, from@, true),
            h == m.height,
            current < m.width * m.height,
            g@[current as int] < i32::MAX,
            cell_of(goal_idx as int, h as int) == (goal.0 as int, goal.1 as int),
            cell_of(s_idx as int, h as int) == (start.0 as int, start.1 as int),
            start == goal ==> current == goal_idx && goal_idx == s_idx,
            current == s_idx ==> start == goal,
            g@[current as int] <= g@[goal_idx as int],
            route_in(m, occ, goal, (g@[goal_idx as int] - g@[current as int]) as nat,
                cell_of(current as int, h as int).0, cell_of(current as int, h as int).1),
        decreases g@[current as int],
    {
        match from[current] {
            Some(prev) => {
                if prev == s_idx {
                    proof {
                        lemma_cell_index_of(current as int, h as int, m.width as int);
                        lemma_route_longer(m, occ, goal, (g@[goal_idx as int] - g@[current as int]) as nat,
                            (g@[goal_idx as int] - 1) as nat, cell_of(current as int, h as int).0, cell_of(current as int, h as int).1);
                    }
                    return Some((current / h, current % h));
                }
                proof {
                    let hh = h as int;
                    let (kx, ky) = cell_of(current as int, hh);
                    let (qx, qy) = cell_of(prev as int, hh);
                    let b = (g@[goal_idx as int] - g@[current as int]) as nat;
                    assert(adjacent4(cell_of(prev as int, hh), cell_of(current as int, hh)));
                    assert(free_cell(m, occ, goal, kx, ky));
                    assert(route_in(m, occ, goal, b + 1, qx, qy));
                    lemma_route_longer(m, occ, goal, b + 1, (g@[goal_idx as int] - g@[prev as int]) as nat, qx, qy);
                }
                current = prev;
            },
            None => {
                return Some(goal);
            },
        }
    }
}

/// A cell index below `w * h` splits into a column `k / h < w` and a row
/// `k % h < h`, and the two give the index back.
pub proof fn lemma_cell_index_of(k: int, h: int, w: int)
    requires
        0 <= k < w * h,
        0 < h,
    ensures
        0 <= k / h < w,
        0 <= k % h < h,
        k == (k / h) * h + k % h,
{
    vstd::arithmetic::div_mod::lemma_fundamental_div_mod(k, h);
    vstd::arithmetic::div_mod::lemma_mod_bound(k, h);
    vstd::arithmetic::div_mod::lemma_div_pos_is_pos(k, h);
    let q = k / h;
    let r = k % h;
    assert(k == q * h + r) by (nonlinear_arith)
        requires k == h * q + r;
    assert(q < w) by (nonlinear_arith)
        requires k == q * h + r, 0 <= r, k < w * h, 0 < h;
}

/// Two cell indices of the same cell are equal.
pub proof fn lemma_cell_of_injective(a: int, b: int, h: int, w: int)
    requires
        0 <= a < w * h,
        0 <= b < w * h,
        0 < h,
        cell_of(a, h) == cell_of(b, h),
    ensures
        a == b,
{
    lemma_cell_index_of(a, h, w);
    lemma_cell_index_of(b, h, w);
}

/// The index `x * h + y` of a cell names it back: `x` by division, `y` by
/// remainder.
pub proof fn lemma_cell_index(x: int, y: int, h: int)
    requires
        0 <= x,
        0 <= y < h,
    ensures
        (x * h + y) / h == x,
        (x * h + y) % h == y,
{
    vstd::arithmetic::div_mod::lemma_fundamental_div_mod_converse(x * h + y, h, x, y);
}

} // verus!
