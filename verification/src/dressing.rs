//! Dressing a floor: decorations that fit each room's purpose, and small
//! features (cracks, debris, stains) scattered over walls and floors.
use vstd::prelude::*;
use crate::map::{DungeonMap, DecoObject, DungeonFeature, Rect, RoomType, Tile, grid_shape, map_wf, rect_center,
    rect_inside, room_type_from, set_cell, tile_at};
use crate::mapgen::cell;
use crate::rng::{random_below, random_ratio};

verus! {

/// A room big enough for pillars: more than 10 wide or more than 8 high.
pub open spec fn big_room(r: Rect) -> bool {
    r.x2 - r.x1 > 10 || r.y2 - r.y1 > 8
}

/// The four pillar cells of a big room, two in from its corners.
pub open spec fn pillar_spot(r: Rect, x: int, y: int) -> bool {
    big_room(r) && (x == r.x1 + 2 || x == r.x2 - 3) && (y == r.y1 + 2 || y == r.y2 - 3)
}

/// A cell off the room's edge cells.
pub open spec fn inner_cell(r: Rect, x: int, y: int) -> bool {
    r.x1 + 1 <= x < r.x2 - 1 && r.y1 + 1 <= y < r.y2 - 1
}

/// A floor cell with a wall beside it.
pub open spec fn by_wall(m: DungeonMap, x: int, y: int) -> bool {
    tile_at(m, x, y) == Tile::Floor && (
        (x > 0 && tile_at(m, x - 1, y) == Tile::Wall) || (x < m.width - 1 && tile_at(m, x + 1, y) == Tile::Wall)
        || (y > 0 && tile_at(m, x, y - 1) == Tile::Wall) || (y < m.height - 1 && tile_at(m, x, y + 1) == Tile::Wall))
}

/// Decoration `d` at (x, y) fits room `r` of type `t`: a chest on the
/// center of a treasure room; an altar on the center of a shrine; pillars
/// in big shrines and big normal and trap rooms; torches on inner floor
/// cells beside a wall in normal and trap rooms; in a secret room a chest
/// on the center and more on inner floor cells at least two in.
pub open spec fn deco_fits(m: DungeonMap, r: Rect, t: RoomType, x: int, y: int, d: DecoObject) -> bool {
    let c = rect_center(r);
    let center = x == c.0 && y == c.1;
    match t {
        RoomType::Treasure => d == DecoObject::Chest && center,
        RoomType::Shrine => (d == DecoObject::Altar && center) || (d == DecoObject::Pillar && pillar_spot(r, x, y)),
        RoomType::Normal | RoomType::Trap => (d == DecoObject::Torch && inner_cell(r, x, y) && by_wall(m, x, y))
            || (d == DecoObject::Pillar && pillar_spot(r, x, y)),
        RoomType::Secret => d == DecoObject::Chest && (center
            || (r.x1 + 2 <= x < r.x2 - 2 && r.y1 + 2 <= y < r.y2 - 2 && tile_at(m, x, y) == Tile::Floor)),
        _ => false,
    }
}

/// Some room of the map explains decoration `d` at (x, y).
pub open spec fn deco_explained(m: DungeonMap, x: int, y: int, d: DecoObject) -> bool {
    exists|i: int| 0 <= i < m.rooms@.len() && #[trigger] deco_fits(m, m.rooms@[i], m.room_types@[i], x, y, d)
}

/// `b` is `a` with only decorations added, each one explained by a room.
pub open spec fn decorated(a: DungeonMap, b: DungeonMap) -> bool {
    &&& b.width == a.width && b.height == a.height
    &&& b.tiles == a.tiles && b.rooms == a.rooms && b.room_types == a.room_types
    &&& b.trap_tiles == a.trap_tiles && b.features == a.features && b.shrine_used == a.shrine_used
    &&& b.machines == a.machines && b.visibility == a.visibility && b.current_visibility == a.current_visibility
    &&& grid_shape(b.deco_objects@, a.width as int, a.height as int)
    &&& forall|x: int, y: int| 0 <= x < a.width && 0 <= y < a.height ==> {
        ||| #[trigger] cell(b.deco_objects@, x, y) == cell(a.deco_objects@, x, y)
        ||| cell(b.deco_objects@, x, y) is Some && deco_explained(a, x, y, cell(b.deco_objects@, x, y)->0)
    }
}

/// The rooms leave the decoration ranges well formed: a normal or trap room
/// reaches row 1 (and column 1 when it has inner rows), and a big room
/// of those kinds or a big shrine reaches row and column 3.
pub open spec fn deco_rooms_ok(m: DungeonMap) -> bool {
    forall|i: int| 0 <= i < m.rooms@.len() ==> {
        let r = #[trigger] m.rooms@[i];
        let t = m.room_types@[i];
        &&& (t == RoomType::Normal || t == RoomType::Trap) ==> r.y2 >= 1 && (r.y1 + 1 < r.y2 - 1 ==> r.x2 >= 1)
        &&& (t == RoomType::Normal || t == RoomType::Trap || t == RoomType::Shrine) && big_room(r) ==> r.x2 >= 3 && r.y2 >= 3
    }
}

/// `b` is `a` with its decorations changed, and nothing else.
pub open spec fn only_decos_changed(a: DungeonMap, b: DungeonMap) -> bool {
    b == (DungeonMap { deco_objects: b.deco_objects, ..a })
}

/// Every cell of `b` on the map holds what it held in `a`, or `d` where
/// `at` allows it.
pub open spec fn decos_within(a: DungeonMap, b: DungeonMap, at: spec_fn(int, int) -> bool, d: DecoObject) -> bool {
    forall|x: int, y: int| 0 <= x < a.width && 0 <= y < a.height ==>
        #[trigger] cell(b.deco_objects@, x, y) == cell(a.deco_objects@, x, y) || (at(x, y) && cell(b.deco_objects@, x, y) == Some(d))
}

/// The decorations room `r` of type `t` always gets are in place in `m`:
/// something on the center of a treasure room, a shrine or a secret room,
/// and on each pillar cell of a big shrine, normal or trap room.
pub open spec fn room_decorated(m: DungeonMap, r: Rect, t: RoomType) -> bool {
    let c = rect_center(r);
    &&& (t == RoomType::Treasure || t == RoomType::Shrine || t == RoomType::Secret) && c.0 < m.width && c.1 < m.height
        ==> cell(m.deco_objects@, c.0 as int, c.1 as int) is Some
    &&& (t == RoomType::Normal || t == RoomType::Trap || t == RoomType::Shrine) ==> forall|x: int, y: int|
        0 <= x < m.width && 0 <= y < m.height && pillar_spot(r, x, y) ==> (#[trigger] cell(m.deco_objects@, x, y)) is Some
}

/// Decorations placed in `a` are still there in `b`.
pub open spec fn decos_kept(a: DungeonMap, b: DungeonMap) -> bool {
    forall|x: int, y: int| 0 <= x < a.width && 0 <= y < a.height && (#[trigger] cell(a.deco_objects@, x, y)) is Some
        ==> cell(b.deco_objects@, x, y) is Some
}

/// A room's fixed decorations stay in place while decorations are only added.
pub proof fn lemma_room_decorated_kept(a: DungeonMap, b: DungeonMap, r: Rect, t: RoomType)
    requires
        room_decorated(a, r, t),
        decos_kept(a, b),
        b.width == a.width && b.height == a.height,
    ensures
        room_decorated(b, r, t),
{
    let c = rect_center(r);
    if (t == RoomType::Treasure || t == RoomType::Shrine || t == RoomType::Secret) && c.0 < b.width && c.1 < b.height {
        assert(cell(a.deco_objects@, c.0 as int, c.1 as int) is Some);
    }
    if t == RoomType::Normal || t == RoomType::Trap || t == RoomType::Shrine {
        assert forall|x: int, y: int| 0 <= x < b.width && 0 <= y < b.height && pillar_spot(r, x, y)
            implies (#[trigger] cell(b.deco_objects@, x, y)) is Some by {
            assert(cell(a.deco_objects@, x, y) is Some);
        }
    }
}

/// Decorations kept from `a` to `b` and from `b` to `c` are kept from `a` to `c`.
pub proof fn lemma_decos_kept_trans(a: DungeonMap, b: DungeonMap, c: DungeonMap)
    requires
        decos_kept(a, b),
        decos_kept(b, c),
        b.width == a.width && b.height == a.height,
    ensures
        decos_kept(a, c),
{
    assert forall|x: int, y: int| 0 <= x < a.width && 0 <= y < a.height && (#[trigger] cell(a.deco_objects@, x, y)) is Some
        implies cell(c.deco_objects@, x, y) is Some by {
        assert(cell(b.deco_objects@, x, y) is Some);
    }
}

impl DungeonMap {
    /// Puts decoration `d` at (x, y), when on the map, as room `i` allows.
    fn put_deco(&mut self, x: usize, y: usize, d: DecoObject, Ghost(a): Ghost<DungeonMap>, Ghost(i): Ghost<int>)
        requires
            map_wf(*old(self)),
            map_wf(a),
            decorated(a, *old(self)),
            0 <= i < a.rooms@.len(),
            deco_fits(a, a.rooms@[i], a.room_types@[i], x as int, y as int, d),
        ensures
            map_wf(*final(self)),
            decorated(a, *final(self)),
            only_decos_changed(*old(self), *final(self)),
            forall|px: int, py: int| 0 <= px < old(self).width && 0 <= py < old(self).height ==>
                #[trigger] cell(final(self).deco_objects@, px, py)
                    == (if px == x && py == y { Some(d) } else { cell(old(self).deco_objects@, px, py) }),
            decos_kept(*old(self), *final(self)),
    {
        if x < self.width && y < self.height {
            let ghost before = *self;
            set_cell(&mut self.deco_objects, x, y, Some(d));
            proof {
                assert forall|px: int, py: int| 0 <= px < a.width && 0 <= py < a.height implies {
                    ||| #[trigger] cell(self.deco_objects@, px, py) == cell(a.deco_objects@, px, py)
                    ||| cell(self.deco_objects@, px, py) is Some && deco_explained(a, px, py, cell(self.deco_objects@, px, py)->0)
                } by {
                    if px == x && py == y {
                        assert(deco_fits(a, a.rooms@[i], a.room_types@[i], px, py, d));
                    } else {
                        assert(cell(before.deco_objects@, px, py) == cell(a.deco_objects@, px, py)
                            || cell(before.deco_objects@, px, py) is Some && deco_explained(a, px, py, cell(before.deco_objects@, px, py)->0));
                    }
                }
            }
        }
    }

    /// Pillars on the four pillar cells of a big room.
    fn put_pillars(&mut self, room: Rect, Ghost(a): Ghost<DungeonMap>, Ghost(i): Ghost<int>)
        requires
            map_wf(*old(self)),
            map_wf(a),
            decorated(a, *old(self)),
            0 <= i < a.rooms@.len(),
            room == a.rooms@[i],
            a.room_types@[i] == RoomType::Normal || a.room_types@[i] == RoomType::Trap || a.room_types@[i] == RoomType::Shrine,
            big_room(room),
            room.x2 >= 3 && room.y2 >= 3,
            room.x2 < usize::MAX && room.y2 < usize::MAX,
        ensures
            map_wf(*final(self)),
            decorated(a, *final(self)),
            only_decos_changed(*old(self), *final(self)),
            forall|px: int, py: int| 0 <= px < old(self).width && 0 <= py < old(self).height ==>
                #[trigger] cell(final(self).deco_objects@, px, py)
                    == (if pillar_spot(room, px, py) { Some(DecoObject::Pillar) } else { cell(old(self).deco_objects@, px, py) }),
            decos_kept(*old(self), *final(self)),
    {
        self.put_deco(room.x1 + 2, room.y1 + 2, DecoObject::Pillar, Ghost(a), Ghost(i));
        self.put_deco(room.x2 - 3, room.y1 + 2, DecoObject::Pillar, Ghost(a), Ghost(i));
        self.put_deco(room.x1 + 2, room.y2 - 3, DecoObject::Pillar, Ghost(a), Ghost(i));
        self.put_deco(room.x2 - 3, room.y2 - 3, DecoObject::Pillar, Ghost(a), Ghost(i));
    }

    /// Torches: 1 or 2 sweeps over the inner rows of the room; on each row
    /// the first inner floor cell beside a wall that wins a 3 in 10 roll
    /// gets a torch.
    fn put_torches(&mut self, room: Rect, Ghost(a): Ghost<DungeonMap>, Ghost(i): Ghost<int>)
        requires
            map_wf(*old(self)),
            map_wf(a),
            decorated(a, *old(self)),
            0 <= i < a.rooms@.len(),
            room == a.rooms@[i],
            a.room_types@[i] == RoomType::Normal || a.room_types@[i] == RoomType::Trap,
            room.y2 >= 1 && (room.y1 + 1 < room.y2 - 1 ==> room.x2 >= 1),
        ensures
            map_wf(*final(self)),
            decorated(a, *final(self)),
            only_decos_changed(*old(self), *final(self)),
            decos_within(*old(self), *final(self),
                (|px: int, py: int| inner_cell(room, px, py) && by_wall(*old(self), px, py)), DecoObject::Torch),
            decos_kept(*old(self), *final(self)),
    {
        proof { assert(rect_inside(a.rooms@[i], a.width as int, a.height as int)); }
        let ghost s0 = *self;
        let ghost at = |px: int, py: int| inner_cell(room, px, py) && by_wall(s0, px, py);
        let torch_count = 1 + random_below(2);
        let mut k: usize = 0;
        while k < torch_count
            invariant
                map_wf(*self),
                map_wf(a),
                decorated(a, *self),
                0 <= i < a.rooms@.len(),
                room == a.rooms@[i],
                rect_inside(room, a.width as int, a.height as int),
                a.room_types@[i] == RoomType::Normal || a.room_types@[i] == RoomType::Trap,
                room.y2 >= 1 && (room.y1 + 1 < room.y2 - 1 ==> room.x2 >= 1),
                only_decos_changed(s0, *self),
                decos_within(s0, *self, at, DecoObject::Torch),
                at == (|px: int, py: int| inner_cell(room, px, py) && by_wall(s0, px, py)),
            decreases torch_count - k,
        {
            let mut y = room.y1 + 1;
            while y < room.y2 - 1
                invariant
                    map_wf(*self),
                    map_wf(a),
                    decorated(a, *self),
                    0 <= i < a.rooms@.len(),
                    room == a.rooms@[i],
                    rect_inside(room, a.width as int, a.height as int),
                    a.room_types@[i] == RoomType::Normal || a.room_types@[i] == RoomType::Trap,
                    room.y2 >= 1 && (room.y1 + 1 < room.y2 - 1 ==> room.x2 >= 1),
                    room.y1 + 1 <= y,
                    only_decos_changed(s0, *self),
                    decos_within(s0, *self, at, DecoObject::Torch),
                    at == (|px: int, py: int| inner_cell(room, px, py) && by_wall(s0, px, py)),
                decreases room.y2 - y,
            {
                let mut x = room.x1 + 1;
                while x < room.x2 - 1
                    invariant
                        map_wf(*self),
                        map_wf(a),
                        decorated(a, *self),
                        0 <= i < a.rooms@.len(),
                        room == a.rooms@[i],
                        rect_inside(room, a.width as int, a.height as int),
                        a.room_types@[i] == RoomType::Normal || a.room_types@[i] == RoomType::Trap,
                        room.x2 >= 1,
                        room.y1 + 1 <= y < room.y2 - 1,
                        room.x1 + 1 <= x,
                        only_decos_changed(s0, *self),
                        decos_within(s0, *self, at, DecoObject::Torch),
                        at == (|px: int, py: int| inner_cell(room, px, py) && by_wall(s0, px, py)),
                    decreases room.x2 - x,
                {
                    if self.tiles[x][y] == Tile::Floor {
                        let w = self.width;
                        let h = self.height;
                        let has_wall_neighbor = (x > 0 && self.tiles[x - 1][y] == Tile::Wall)
                            || (x < w - 1 && self.tiles[x + 1][y] == Tile::Wall)
                            || (y > 0 && self.tiles[x][y - 1] == Tile::Wall)
                            || (y < h - 1 && self.tiles[x][y + 1] == Tile::Wall);
                        if has_wall_neighbor && random_ratio(3, 10) {
                            assert(deco_fits(a, a.rooms@[i], a.room_types@[i], x as int, y as int, DecoObject::Torch));
                            let ghost before = *self;
                            self.put_deco(x, y, DecoObject::Torch, Ghost(a), Ghost(i));
                            proof {
                                assert(at(x as int, y as int));
                                assert forall|px: int, py: int| 0 <= px < s0.width && 0 <= py < s0.height implies
                                    #[trigger] cell(self.deco_objects@, px, py) == cell(s0.deco_objects@, px, py)
                                        || (at(px, py) && cell(self.deco_objects@, px, py) == Some(DecoObject::Torch)) by {
                                    assert(cell(before.deco_objects@, px, py) == cell(s0.deco_objects@, px, py)
                                        || (at(px, py) && cell(before.deco_objects@, px, py) == Some(DecoObject::Torch)));
                                }
                            }
                            break;
                        }
                    }
                    x = x + 1;
                }
                y = y + 1;
            }
            k = k + 1;
        }
    }

    /// More chests in a secret room wider and higher than 6: each inner
    /// floor cell at least two in gets one a time in ten.
    fn put_secret_chests(&mut self, room: Rect, Ghost(a): Ghost<DungeonMap>, Ghost(i): Ghost<int>)
        requires
            map_wf(*old(self)),
            map_wf(a),
            decorated(a, *old(self)),
            0 <= i < a.rooms@.len(),
            room == a.rooms@[i],
            a.room_types@[i] == RoomType::Secret,
            room.x2 - room.x1 > 6 && room.y2 - room.y1 > 6,
        ensures
            map_wf(*final(self)),
            decorated(a, *final(self)),
            only_decos_changed(*old(self), *final(self)),
            decos_within(*old(self), *final(self), (|px: int, py: int| room.x1 + 2 <= px < room.x2 - 2
                && room.y1 + 2 <= py < room.y2 - 2 && tile_at(*old(self), px, py) == Tile::Floor), DecoObject::Chest),
            decos_kept(*old(self), *final(self)),
    {
        proof { assert(rect_inside(a.rooms@[i], a.width as int, a.height as int)); }
        let ghost s0 = *self;
        let ghost at = |px: int, py: int| room.x1 + 2 <= px < room.x2 - 2
                && room.y1 + 2 <= py < room.y2 - 2 && tile_at(s0, px, py) == Tile::Floor;
        let mut dy: usize = 2;
        while dy < room.y2 - room.y1 - 2
            invariant
                map_wf(*self),
                map_wf(a),
                decorated(a, *self),
                0 <= i < a.rooms@.len(),
                room == a.rooms@[i],
                rect_inside(room, a.width as int, a.height as int),
                a.room_types@[i] == RoomType::Secret,
                room.x2 - room.x1 > 6 && room.y2 - room.y1 > 6,
                dy >= 2,
                only_decos_changed(s0, *self),
                decos_within(s0, *self, at, DecoObject::Chest),
                at == (|px: int, py: int| room.x1 + 2 <= px < room.x2 - 2
                    && room.y1 + 2 <= py < room.y2 - 2 && tile_at(s0, px, py) == Tile::Floor),
            decreases room.y2 - room.y1 - dy,
        {
            let mut dx: usize = 2;
            while dx < room.x2 - room.x1 - 2
                invariant
                    map_wf(*self),
                    map_wf(a),
                    decorated(a, *self),
                    0 <= i < a.rooms@.len(),
                    room == a.rooms@[i],
                    rect_inside(room, a.width as int, a.height as int),
                    a.room_types@[i] == RoomType::Secret,
                    room.x2 - room.x1 > 6 && room.y2 - room.y1 > 6,
                    2 <= dy < room.y2 - room.y1 - 2,
                    dx >= 2,
                    only_decos_changed(s0, *self),
                    decos_within(s0, *self, at, DecoObject::Chest),
                    at == (|px: int, py: int| room.x1 + 2 <= px < room.x2 - 2
                        && room.y1 + 2 <= py < room.y2 - 2 && tile_at(s0, px, py) == Tile::Floor),
                decreases room.x2 - room.x1 - dx,
            {
                let rx = room.x1 + dx;
                let ry = room.y1 + dy;
                if self.tiles[rx][ry] == Tile::Floor && random_ratio(1, 10) {
                    assert(deco_fits(a, a.rooms@[i], a.room_types@[i], rx as int, ry as int, DecoObject::Chest));
                    let ghost before = *self;
                    self.put_deco(rx, ry, DecoObject::Chest, Ghost(a), Ghost(i));
                    proof {
                        assert(at(rx as int, ry as int));
                        assert forall|px: int, py: int| 0 <= px < s0.width && 0 <= py < s0.height implies
                            #[trigger] cell(self.deco_objects@, px, py) == cell(s0.deco_objects@, px, py)
                                || (at(px, py) && cell(self.deco_objects@, px, py) == Some(DecoObject::Chest)) by {
                            assert(cell(before.deco_objects@, px, py) == cell(s0.deco_objects@, px, py)
                                || (at(px, py) && cell(before.deco_objects@, px, py) == Some(DecoObject::Chest)));
                        }
                    }
                }
                dx = dx + 1;
            }
            dy = dy + 1;
        }
    }

    /// Decorates each room by its purpose (see `deco_fits`): a chest in a
    /// treasure room; an altar, and pillars when big, in a shrine; torches,
    /// and pillars when big, in normal and trap rooms; chests in a secret
    /// room. Nothing else changes; no trap is laid here.
    pub fn generate_decorations(&mut self)
        requires
            map_wf(*old(self)),
            deco_rooms_ok(*old(self)),
        ensures
            map_wf(*final(self)),
            decorated(*old(self), *final(self)),
            forall|i: int| 0 <= i < old(self).rooms@.len() ==>
                room_decorated(*final(self), #[trigger] old(self).rooms@[i], old(self).room_types@[i]),
    {
        let ghost a = *self;
        let n = self.room_types.len();
        let mut i: usize = 0;
        while i < n
            invariant
                map_wf(*self),
                map_wf(a),
                deco_rooms_ok(a),
                decorated(a, *self),
                n == a.rooms@.len(),
                i <= n,
                forall|j: int| 0 <= j < i ==> room_decorated(*self, #[trigger] a.rooms@[j], a.room_types@[j]),
            decreases n - i,
        {
            let ghost before = *self;
            let room = self.rooms[i];
            let t = self.room_types[i];
            assert(rect_inside(a.rooms@[i as int], a.width as int, a.height as int));
            assert(room == a.rooms@[i as int]);
            let (cx, cy) = room.center();
            match t {
                RoomType::Treasure => {
                    self.put_deco(cx, cy, DecoObject::Chest, Ghost(a), Ghost(i as int));
                },
                RoomType::Shrine => {
                    self.put_deco(cx, cy, DecoObject::Altar, Ghost(a), Ghost(i as int));
                    if room.x2 - room.x1 > 10 || room.y2 - room.y1 > 8 {
                        self.put_pillars(room, Ghost(a), Ghost(i as int));
                    }
                },
                RoomType::Normal | RoomType::Trap => {
                    self.put_torches(room, Ghost(a), Ghost(i as int));
                    if room.x2 - room.x1 > 10 || room.y2 - room.y1 > 8 {
                        self.put_pillars(room, Ghost(a), Ghost(i as int));
                    }
                },
                RoomType::Secret => {
                    self.put_deco(cx, cy, DecoObject::Chest, Ghost(a), Ghost(i as int));
                    if room.x2 - room.x1 > 6 && room.y2 - room.y1 > 6 {
                        self.put_secret_chests(room, Ghost(a), Ghost(i as int));
                    }
                },
                _ => {},
            }
            proof {
                assert(decos_kept(before, *self));
                assert forall|j: int| 0 <= j < i + 1 implies room_decorated(*self, #[trigger] a.rooms@[j], a.room_types@[j]) by {
                    if j < i {
                        lemma_room_decorated_kept(before, *self, a.rooms@[j], a.room_types@[j]);
                    }
                }
            }
            i = i + 1;
        }
    }
}

/// A floor cell with nothing placed on it.
pub open spec fn bare_floor(m: DungeonMap, x: int, y: int) -> bool {
    tile_at(m, x, y) == Tile::Floor && cell(m.deco_objects@, x, y) is None
}

/// A wall cell with floor beside it.
pub open spec fn wall_by_floor(m: DungeonMap, x: int, y: int) -> bool {
    tile_at(m, x, y) == Tile::Wall && (
        (x > 0 && tile_at(m, x - 1, y) == Tile::Floor) || (x < m.width - 1 && tile_at(m, x + 1, y) == Tile::Floor)
        || (y > 0 && tile_at(m, x, y - 1) == Tile::Floor) || (y < m.height - 1 && tile_at(m, x, y + 1) == Tile::Floor))
}

/// Feature `f` fits (x, y) on floor `floor`: cracks in walls beside floor;
/// on bare floor scorch marks (trap rooms), moss (shrines and treasure
/// rooms), blood (boss rooms, and around each room's spawn point), debris,
/// and puddles on floors 4 to 6.
pub open spec fn feature_fits(m: DungeonMap, floor: int, x: int, y: int, f: DungeonFeature) -> bool {
    ||| f == DungeonFeature::WallCrack && wall_by_floor(m, x, y)
    ||| bare_floor(m, x, y) && (f == DungeonFeature::ScorchMark || f == DungeonFeature::MossPatch
        || f == DungeonFeature::Bloodstain || f == DungeonFeature::FloorDebris
        || (f == DungeonFeature::WaterPuddle && 4 <= floor <= 6))
}

/// `b` is `a` with only features added, each one fitting its cell.
pub open spec fn featured(a: DungeonMap, b: DungeonMap, floor: int) -> bool {
    &&& b.width == a.width && b.height == a.height
    &&& b.tiles == a.tiles && b.rooms == a.rooms && b.room_types == a.room_types
    &&& b.deco_objects == a.deco_objects && b.trap_tiles == a.trap_tiles && b.shrine_used == a.shrine_used
    &&& b.machines == a.machines && b.visibility == a.visibility && b.current_visibility == a.current_visibility
    &&& grid_shape(b.features@, a.width as int, a.height as int)
    &&& forall|x: int, y: int| 0 <= x < a.width && 0 <= y < a.height ==> {
        ||| #[trigger] cell(b.features@, x, y) == cell(a.features@, x, y)
        ||| cell(b.features@, x, y) is Some && feature_fits(a, floor, x, y, cell(b.features@, x, y)->0)
    }
}

/// `b` is `a` with its features changed, and nothing else.
pub open spec fn only_features_changed(a: DungeonMap, b: DungeonMap) -> bool {
    b == (DungeonMap { features: b.features, ..a })
}

/// The feature the scattering can leave on (x, y): a crack in a wall beside
/// floor; on bare floor without a trap, by the room the cell lies in,
/// scorch marks (trap rooms), moss (shrines and treasure rooms), blood
/// (boss rooms), and elsewhere debris, or puddles on floors 4 to 6.
pub open spec fn feature_for(m: DungeonMap, floor: int, x: int, y: int, f: DungeonFeature) -> bool {
    ||| f == DungeonFeature::WallCrack && wall_by_floor(m, x, y)
    ||| bare_floor(m, x, y) && cell(m.trap_tiles@, x, y) is None && match room_type_from(m, x, y, 0) {
        RoomType::Trap => f == DungeonFeature::ScorchMark,
        RoomType::Shrine | RoomType::Treasure => f == DungeonFeature::MossPatch,
        RoomType::Boss => f == DungeonFeature::Bloodstain,
        _ => f == DungeonFeature::FloorDebris || (f == DungeonFeature::WaterPuddle && 4 <= floor <= 6),
    }
}

/// (x, y) lies in the 3 by 3 block around the spawn point (the center) of
/// room `r`.
pub open spec fn in_spawn_block(r: Rect, x: int, y: int) -> bool {
    let sx = (r.x1 + r.x2) / 2;
    let sy = (r.y1 + r.y2) / 2;
    sx - 1 <= x <= sx + 1 && sy - 1 <= y <= sy + 1
}

/// (x, y) lies around the spawn point of a normal or boss room of `m`.
pub open spec fn by_spawn(m: DungeonMap, x: int, y: int) -> bool {
    exists|i: int| 0 <= i < m.rooms@.len() && (m.room_types@[i] == RoomType::Normal || m.room_types@[i] == RoomType::Boss)
        && #[trigger] in_spawn_block(m.rooms@[i], x, y)
}

/// What scattering may leave on (x, y) of `a`: a feature fitting the cell
/// (see `feature_for`) off the border, or blood on bare floor around a
/// spawn point.
pub open spec fn scatter_fits(a: DungeonMap, floor: int, x: int, y: int, v: Option<DungeonFeature>) -> bool {
    v is Some && (
        (1 <= x < a.width - 1 && 1 <= y < a.height - 1 && feature_for(a, floor, x, y, v->0))
        || (v == Some(DungeonFeature::Bloodstain) && bare_floor(a, x, y) && by_spawn(a, x, y)))
}

/// `b` is `a` with features scattered over it: each changed cell holds
/// what `scatter_fits` allows.
pub open spec fn scattered(a: DungeonMap, b: DungeonMap, floor: int) -> bool {
    &&& only_features_changed(a, b)
    &&& forall|x: int, y: int| 0 <= x < a.width && 0 <= y < a.height ==>
        #[trigger] cell(b.features@, x, y) == cell(a.features@, x, y) || scatter_fits(a, floor, x, y, cell(b.features@, x, y))
}

/// The room a cell lies in depends on the rooms alone.
pub proof fn lemma_room_type_same(a: DungeonMap, b: DungeonMap, x: int, y: int, i: int)
    requires
        a.rooms == b.rooms,
        a.room_types == b.room_types,
    ensures
        room_type_from(a, x, y, i) == room_type_from(b, x, y, i),
    decreases a.rooms@.len() - i,
{
    if 0 <= i < a.rooms@.len() {
        lemma_room_type_same(a, b, x, y, i + 1);
    }
}

impl DungeonMap {
    /// Puts feature `f` at (x, y).
    fn put_feature(&mut self, x: usize, y: usize, f: DungeonFeature, floor: i32, Ghost(a): Ghost<DungeonMap>)
        requires
            map_wf(*old(self)),
            featured(a, *old(self), floor as int),
            x < a.width && y < a.height,
            feature_fits(a, floor as int, x as int, y as int, f),
        ensures
            map_wf(*final(self)),
            featured(a, *final(self), floor as int),
            only_features_changed(*old(self), *final(self)),
            forall|px: int, py: int| 0 <= px < old(self).width && 0 <= py < old(self).height ==>
                #[trigger] cell(final(self).features@, px, py)
                    == (if px == x && py == y { Some(f) } else { cell(old(self).features@, px, py) }),
    {
        let ghost before = *self;
        set_cell(&mut self.features, x, y, Some(f));
        proof {
            assert forall|px: int, py: int| 0 <= px < a.width && 0 <= py < a.height implies {
                ||| #[trigger] cell(self.features@, px, py) == cell(a.features@, px, py)
                ||| cell(self.features@, px, py) is Some && feature_fits(a, floor as int, px, py, cell(self.features@, px, py)->0)
            } by {
                if !(px == x && py == y) {
                    assert(cell(before.features@, px, py) == cell(a.features@, px, py)
                        || cell(before.features@, px, py) is Some && feature_fits(a, floor as int, px, py, cell(before.features@, px, py)->0));
                }
            }
        }
    }

    /// The features of the cell (x, y) off the border: a crack in a wall
    /// beside floor (2 in 100, 5 in 1000 more per floor, at most 8 in 100),
    /// and on floor with no decoration or trap one by the room it lies in.
    fn feature_cell(&mut self, x: usize, y: usize, floor: i32, Ghost(a): Ghost<DungeonMap>)
        requires
            map_wf(*old(self)),
            map_wf(a),
            featured(a, *old(self), floor as int),
            -4 <= floor,
            1 <= x < a.width - 1 && 1 <= y < a.height - 1,
        ensures
            map_wf(*final(self)),
            featured(a, *final(self), floor as int),
            only_features_changed(*old(self), *final(self)),
            forall|px: int, py: int| 0 <= px < old(self).width && 0 <= py < old(self).height && !(px == x && py == y) ==>
                #[trigger] cell(final(self).features@, px, py) == cell(old(self).features@, px, py),
            cell(final(self).features@, x as int, y as int) == cell(old(self).features@, x as int, y as int)
                || (cell(final(self).features@, x as int, y as int) is Some
                    && feature_for(a, floor as int, x as int, y as int, cell(final(self).features@, x as int, y as int)->0)),
    {
        proof { lemma_room_type_same(a, *self, x as int, y as int, 0); }
        let w = self.width;
        let h = self.height;
        if self.tiles[x][y] == Tile::Wall {
            let has_floor_neighbor = (x > 0 && self.tiles[x - 1][y] == Tile::Floor)
                || (x < w - 1 && self.tiles[x + 1][y] == Tile::Floor)
                || (y > 0 && self.tiles[x][y - 1] == Tile::Floor)
                || (y < h - 1 && self.tiles[x][y + 1] == Tile::Floor);
            if has_floor_neighbor {
                let chance: u32 = if floor >= 12 { 80 } else { (20 + 5 * floor) as u32 };
                if random_ratio(chance, 1000) {
                    self.put_feature(x, y, DungeonFeature::WallCrack, floor, Ghost(a));
                }
            }
        }
        if self.tiles[x][y] == Tile::Floor && self.deco_objects[x][y].is_none() && self.trap_tiles[x][y].is_none() {
            let room_type = self.get_room_type_at(x, y);
            match room_type {
                RoomType::Trap => {
                    if random_ratio(15, 100) {
                        self.put_feature(x, y, DungeonFeature::ScorchMark, floor, Ghost(a));
                    }
                },
                RoomType::Shrine | RoomType::Treasure => {
                    if random_ratio(12, 100) {
                        self.put_feature(x, y, DungeonFeature::MossPatch, floor, Ghost(a));
                    }
                },
                RoomType::Boss => {
                    if random_ratio(20, 100) {
                        self.put_feature(x, y, DungeonFeature::Bloodstain, floor, Ghost(a));
                    }
                },
                _ => {
                    if random_ratio(3, 100) {
                        self.put_feature(x, y, DungeonFeature::FloorDebris, floor, Ghost(a));
                    }
                    if floor >= 4 && floor <= 6 && random_ratio(5, 100) {
                        self.put_feature(x, y, DungeonFeature::WaterPuddle, floor, Ghost(a));
                    }
                },
            }
        }
    }

    /// Blood, a time in four each, on the bare floor cells of the 3 by 3
    /// block around the spawn point (the center) of a room.
    fn stain_spawn(&mut self, room: Rect, floor: i32, Ghost(a): Ghost<DungeonMap>)
        requires
            map_wf(*old(self)),
            map_wf(a),
            featured(a, *old(self), floor as int),
            rect_inside(room, a.width as int, a.height as int),
        ensures
            map_wf(*final(self)),
            featured(a, *final(self), floor as int),
            only_features_changed(*old(self), *final(self)),
            forall|px: int, py: int| 0 <= px < old(self).width && 0 <= py < old(self).height ==>
                #[trigger] cell(final(self).features@, px, py) == cell(old(self).features@, px, py)
                    || (cell(final(self).features@, px, py) == Some(DungeonFeature::Bloodstain)
                        && in_spawn_block(room, px, py) && bare_floor(*old(self), px, py)),
    {
        let ghost s0 = *self;
        let spawn_x = (room.x1 + room.x2) / 2;
        let spawn_y = (room.y1 + room.y2) / 2;
        let mut i: usize = 0;
        while i < 3
            invariant
                map_wf(*self),
                map_wf(a),
                featured(a, *self, floor as int),
                spawn_x <= a.width && spawn_y <= a.height,
                i <= 3,
                spawn_x == (room.x1 + room.x2) / 2 && spawn_y == (room.y1 + room.y2) / 2,
                only_features_changed(s0, *self),
                forall|px: int, py: int| 0 <= px < s0.width && 0 <= py < s0.height ==>
                    #[trigger] cell(self.features@, px, py) == cell(s0.features@, px, py)
                        || (cell(self.features@, px, py) == Some(DungeonFeature::Bloodstain)
                            && in_spawn_block(room, px, py) && bare_floor(s0, px, py)),
            decreases 3 - i,
        {
            let mut j: usize = 0;
            while j < 3
                invariant
                    map_wf(*self),
                    map_wf(a),
                    featured(a, *self, floor as int),
                    spawn_x <= a.width && spawn_y <= a.height,
                    i < 3,
                    j <= 3,
                    spawn_x == (room.x1 + room.x2) / 2 && spawn_y == (room.y1 + room.y2) / 2,
                    only_features_changed(s0, *self),
                    forall|px: int, py: int| 0 <= px < s0.width && 0 <= py < s0.height ==>
                        #[trigger] cell(self.features@, px, py) == cell(s0.features@, px, py)
                            || (cell(self.features@, px, py) == Some(DungeonFeature::Bloodstain)
                                && in_spawn_block(room, px, py) && bare_floor(s0, px, py)),
                decreases 3 - j,
            {
                if spawn_x + i >= 1 && spawn_y + j >= 1 {
                    let bx = spawn_x + i - 1;
                    let by = spawn_y + j - 1;
                    if bx < self.width && by < self.height && self.tiles[bx][by] == Tile::Floor
                        && self.deco_objects[bx][by].is_none() && random_ratio(1, 4) {
                        let ghost before = *self;
                        self.put_feature(bx, by, DungeonFeature::Bloodstain, floor, Ghost(a));
                        proof {
                            assert(in_spawn_block(room, bx as int, by as int));
                            assert forall|px: int, py: int| 0 <= px < s0.width && 0 <= py < s0.height implies
                                #[trigger] cell(self.features@, px, py) == cell(s0.features@, px, py)
                                    || (cell(self.features@, px, py) == Some(DungeonFeature::Bloodstain)
                                        && in_spawn_block(room, px, py) && bare_floor(s0, px, py)) by {
                                assert(cell(before.features@, px, py) == cell(s0.features@, px, py)
                                    || (cell(before.features@, px, py) == Some(DungeonFeature::Bloodstain)
                                        && in_spawn_block(room, px, py) && bare_floor(s0, px, py)));
                            }
                        }
                    }
                }
                j = j + 1;
            }
            i = i + 1;
        }
    }

    /// Scatters features (see `feature_fits`) over the cells off the
    /// border, then blood around the spawn points of normal and boss rooms.
    /// Nothing else changes.
    pub fn scatter_features(&mut self, floor: i32)
        requires
            map_wf(*old(self)),
            -4 <= floor,
        ensures
            map_wf(*final(self)),
            featured(*old(self), *final(self), floor as int),
            scattered(*old(self), *final(self), floor as int),
    {
        let ghost a = *self;
        proof {
            assert forall|x: int, y: int| 0 <= x < a.width && 0 <= y < a.height implies {
                ||| #[trigger] cell(a.features@, x, y) == cell(a.features@, x, y)
                ||| cell(a.features@, x, y) is Some && feature_fits(a, floor as int, x, y, cell(a.features@, x, y)->0)
            } by {}
        }
        let w = self.width;
        let h = self.height;
        let mut x: usize = 1;
        while x < w - 1
            invariant
                map_wf(*self),
                map_wf(a),
                featured(a, *self, floor as int),
                -4 <= floor,
                w == a.width && h == a.height,
                1 <= x,
                scattered(a, *self, floor as int),
            decreases w - x,
        {
            let mut y: usize = 1;
            while y < h - 1
                invariant
                    map_wf(*self),
                    map_wf(a),
                    featured(a, *self, floor as int),
                    -4 <= floor,
                    w == a.width && h == a.height,
                    1 <= x < w - 1,
                    1 <= y,
                    scattered(a, *self, floor as int),
                decreases h - y,
            {
                let ghost before = *self;
                self.feature_cell(x, y, floor, Ghost(a));
                proof {
                    assert forall|px: int, py: int| 0 <= px < a.width && 0 <= py < a.height implies
                        #[trigger] cell(self.features@, px, py) == cell(a.features@, px, py)
                            || scatter_fits(a, floor as int, px, py, cell(self.features@, px, py)) by {
                        if !(px == x && py == y) {
                            assert(cell(self.features@, px, py) == cell(before.features@, px, py));
                        }
                    }
                }
                y = y + 1;
            }
            x = x + 1;
        }
        let n = self.room_types.len();
        let mut i: usize = 0;
        while i < n
            invariant
                map_wf(*self),
                map_wf(a),
                featured(a, *self, floor as int),
                n == a.rooms@.len(),
                i <= n,
                scattered(a, *self, floor as int),
            decreases n - i,
        {
            let t = self.room_types[i];
            if t == RoomType::Normal || t == RoomType::Boss {
                let room = self.rooms[i];
                assert(rect_inside(a.rooms@[i as int], a.width as int, a.height as int));
                let ghost before = *self;
                self.stain_spawn(room, floor, Ghost(a));
                proof {
                    assert forall|px: int, py: int| 0 <= px < a.width && 0 <= py < a.height implies
                        #[trigger] cell(self.features@, px, py) == cell(a.features@, px, py)
                            || scatter_fits(a, floor as int, px, py, cell(self.features@, px, py)) by {
                        if cell(self.features@, px, py) != cell(before.features@, px, py) {
                            assert(in_spawn_block(a.rooms@[i as int], px, py));
                            assert(by_spawn(a, px, py));
                        }
                    }
                }
            }
            i = i + 1;
        }
    }
}

} // verus!
