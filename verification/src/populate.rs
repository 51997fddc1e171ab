//! Filling a new floor: the purpose of each room, loot on the ground and
//! the monsters that wait in the rooms.
use vstd::prelude::*;
use crate::items::{Item, is_loot_for, random_item, rarity_for};
use crate::map::{DungeonMap, Rect, RoomType, Tile, map_wf, rect_center, tile_at};
use crate::monster::{Monster, MonsterType, is_new_monster, spawn_kind};
use crate::rng::{random_below, random_ratio};

verus! {

/// The special purposes a middle room may get on a floor: treasure, trap
/// or shrine, and but on floors 1 to 3 also secret.
pub open spec fn special_for_floor(floor: int, t: RoomType) -> bool {
    ||| t == RoomType::Treasure
    ||| t == RoomType::Trap
    ||| t == RoomType::Shrine
    ||| (!(1 <= floor <= 3) && t == RoomType::Secret)
}

/// The purpose a roll of `r` (out of 100) gives a special room on a floor.
pub open spec fn special_room(floor: int, r: int) -> RoomType {
    if 1 <= floor <= 3 {
        if r < 50 { RoomType::Treasure } else if r < 80 { RoomType::Trap } else { RoomType::Shrine }
    } else if 4 <= floor <= 9 {
        if r < 30 { RoomType::Treasure } else if r < 65 { RoomType::Trap } else if r < 85 { RoomType::Shrine } else { RoomType::Secret }
    } else {
        if r < 20 { RoomType::Treasure } else if r < 50 { RoomType::Trap } else if r < 70 { RoomType::Shrine } else { RoomType::Secret }
    }
}

fn special_room_for_roll(floor: i32, r: usize) -> (t: RoomType)
    ensures
        t == special_room(floor as int, r as int),
{
    if 1 <= floor && floor <= 3 {
        if r < 50 { RoomType::Treasure } else if r < 80 { RoomType::Trap } else { RoomType::Shrine }
    } else if 4 <= floor && floor <= 9 {
        if r < 30 { RoomType::Treasure } else if r < 65 { RoomType::Trap } else if r < 85 { RoomType::Shrine } else { RoomType::Secret }
    } else {
        if r < 20 { RoomType::Treasure } else if r < 50 { RoomType::Trap } else if r < 70 { RoomType::Shrine } else { RoomType::Secret }
    }
}

/// A map that differs from `a` at most in its room types.
pub open spec fn same_but_room_types(a: DungeonMap, b: DungeonMap) -> bool {
    &&& b.width == a.width && b.height == a.height
    &&& b.tiles == a.tiles && b.rooms == a.rooms
    &&& b.deco_objects == a.deco_objects && b.trap_tiles == a.trap_tiles
    &&& b.features == a.features && b.shrine_used == a.shrine_used
    &&& b.machines == a.machines
    &&& b.visibility == a.visibility && b.current_visibility == a.current_visibility
    &&& b.room_types@.len() == a.room_types@.len()
}

/// The middle rooms (neither first nor last) still of the normal type.
fn normal_middle_rooms(types: &Vec<RoomType>) -> (c: Vec<usize>)
    requires
        types@.len() >= 2,
    ensures
        forall|k: int| 0 <= k < c@.len() ==> 1 <= #[trigger] c@[k] < types@.len() - 1 && types@[c@[k] as int] == RoomType::Normal,
        forall|i: int| 1 <= i < types@.len() - 1 && #[trigger] types@[i] == RoomType::Normal ==> c@.contains(i as usize),
        forall|a: int, b: int| 0 <= a < b < c@.len() ==> #[trigger] c@[a] < #[trigger] c@[b],
{
    let mut c: Vec<usize> = Vec::new();
    let mut i: usize = 1;
    while i < types.len() - 1
        invariant
            types@.len() >= 2,
            1 <= i <= types@.len() - 1,
            forall|k: int| 0 <= k < c@.len() ==> 1 <= #[trigger] c@[k] < i && types@[c@[k] as int] == RoomType::Normal,
            forall|j: int| 1 <= j < i && #[trigger] types@[j] == RoomType::Normal ==> c@.contains(j as usize),
            forall|a: int, b: int| 0 <= a < b < c@.len() ==> #[trigger] c@[a] < #[trigger] c@[b],
        decreases types@.len() - 1 - i,
    {
        if types[i] == RoomType::Normal {
            let ghost before = c@;
            c.push(i);
            proof {
                assert(c@[c@.len() - 1] == i);
                assert forall|j: int| 1 <= j < i + 1 && #[trigger] types@[j] == RoomType::Normal implies c@.contains(j as usize) by {
                    if j < i {
                        let k = choose|k: int| 0 <= k < before.len() && before[k] == j as usize;
                        assert(c@[k] == j as usize);
                    } else {
                        assert(c@[c@.len() - 1] == j as usize);
                    }
                }
            }
        }
        i = i + 1;
    }
    c
}

impl DungeonMap {
    /// Gives the rooms their purposes: the first is where the player starts,
    /// the last (of two or more) holds the boss. One time in three, with
    /// three rooms or more, one normal middle room gets a special purpose
    /// (see `special_room`); on every third floor, with four rooms or more,
    /// one normal middle room becomes a shop.
    pub fn assign_room_types(&mut self, floor: i32)
        requires
            map_wf(*old(self)),
        ensures
            map_wf(*final(self)),
            same_but_room_types(*old(self), *final(self)),
            old(self).rooms@.len() == 0 ==> final(self).room_types@ == old(self).room_types@,
            old(self).rooms@.len() > 0 ==> final(self).room_types@[0] == RoomType::Spawn,
            old(self).rooms@.len() > 1 ==> final(self).room_types@.last() == RoomType::Boss,
            forall|i: int| 1 <= i < old(self).rooms@.len() - 1 ==> {
                let t = #[trigger] final(self).room_types@[i];
                ||| t == old(self).room_types@[i]
                ||| old(self).room_types@[i] == RoomType::Normal && (special_for_floor(floor as int, t)
                    || (floor > 0 && floor % 3 == 0 && old(self).rooms@.len() > 3 && t == RoomType::Shop))
            },
            forall|i: int, j: int| 1 <= i < j < old(self).rooms@.len() - 1
                && #[trigger] final(self).room_types@[i] != old(self).room_types@[i]
                && #[trigger] final(self).room_types@[j] != old(self).room_types@[j]
                ==> (final(self).room_types@[i] == RoomType::Shop) != (final(self).room_types@[j] == RoomType::Shop),
            floor > 0 && floor % 3 == 0 && old(self).rooms@.len() > 3
                && (forall|i: int| 1 <= i < old(self).rooms@.len() - 1 ==> #[trigger] old(self).room_types@[i] == RoomType::Normal)
                ==> exists|i: int| 1 <= i < old(self).rooms@.len() - 1 && #[trigger] final(self).room_types@[i] == RoomType::Shop,
    {
        if self.rooms.len() == 0 {
            return;
        }
        let n = self.rooms.len();
        self.room_types.set(0, RoomType::Spawn);
        if n > 1 {
            self.room_types.set(n - 1, RoomType::Boss);
        }
        let ghost t0 = old(self).room_types@;
        let ghost ends = self.room_types@;
        let ghost mut si: int = -1;
        let special_chance = random_below(100);
        if special_chance < 33 && n > 2 {
            let candidates = normal_middle_rooms(&self.room_types);
            if candidates.len() > 0 {
                let room_idx = candidates[random_below(candidates.len())];
                let r = random_below(100);
                let room_type = special_room_for_roll(floor, r);
                self.room_types.set(room_idx, room_type);
                proof {
                    si = room_idx as int;
                }
            }
        }
        let ghost mid = self.room_types@;
        proof {
            assert forall|i: int| 1 <= i < n - 1 implies {
                let t = #[trigger] mid[i];
                &&& t == t0[i] || (t0[i] == RoomType::Normal && special_for_floor(floor as int, t))
                &&& t != t0[i] ==> i == si
            } by {
                assert(ends[i] == t0[i]);
            }
            assert(0 <= si < n ==> special_for_floor(floor as int, mid[si]) && mid[si] != RoomType::Normal);
        }
        let ghost mut hi: int = -1;
        if floor > 0 && floor % 3 == 0 && n > 3 {
            let candidates = normal_middle_rooms(&self.room_types);
            proof {
                if forall|i: int| 1 <= i < n - 1 ==> #[trigger] t0[i] == RoomType::Normal {
                    let k: int = if si == 1 { 2 } else { 1 };
                    assert(mid[k] == t0[k]);
                    assert(self.room_types@[k] == RoomType::Normal);
                    assert(candidates@.contains(k as usize));
                }
            }
            if candidates.len() > 0 {
                let room_idx = candidates[random_below(candidates.len())];
                self.room_types.set(room_idx, RoomType::Shop);
                proof {
                    hi = room_idx as int;
                }
            }
        }
        proof {
            assert forall|i: int| 1 <= i < n - 1 implies {
                let t = #[trigger] self.room_types@[i];
                &&& t == t0[i]
                    || t0[i] == RoomType::Normal && (special_for_floor(floor as int, t)
                        || (floor > 0 && floor % 3 == 0 && n > 3 && t == RoomType::Shop))
                &&& t != t0[i] ==> (i == si && t != RoomType::Shop) || (i == hi && t == RoomType::Shop)
            } by {
                assert(mid[i] == t0[i] || (t0[i] == RoomType::Normal && special_for_floor(floor as int, mid[i])));
                assert(mid[i] != t0[i] ==> i == si);
            }
            if floor > 0 && floor % 3 == 0 && n > 3 && (forall|i: int| 1 <= i < n - 1 ==> #[trigger] t0[i] == RoomType::Normal) {
                assert(1 <= hi < n - 1 && self.room_types@[hi] == RoomType::Shop);
            }
        }
    }
}

/// The cell an item may land on in a room: off the room's edge cells.
pub open spec fn loot_spot(r: Rect, x: int, y: int) -> bool {
    r.x1 + 1 <= x < r.x2 - 1 && r.y1 + 1 <= y < r.y2 - 1
}

/// Every room but the first is at least 3 cells wide and high, so that an
/// item has a cell off its edges.
pub open spec fn loot_rooms_ok(m: DungeonMap) -> bool {
    forall|i: int| 1 <= i < m.rooms@.len() ==> (#[trigger] m.rooms@[i]).x2 >= m.rooms@[i].x1 + 3 && m.rooms@[i].y2 >= m.rooms@[i].y1 + 3
}

/// The index of the entry at (x, y), if any.
fn find_spot(items: &Vec<(usize, usize, Item)>, x: usize, y: usize) -> (r: Option<usize>)
    ensures
        r is Some ==> r->0 < items@.len() && items@[r->0 as int].0 == x && items@[r->0 as int].1 == y,
        r is None ==> forall|k: int| 0 <= k < items@.len() ==> !(#[trigger] items@[k].0 == x && items@[k].1 == y),
{
    let mut k: usize = 0;
    while k < items.len()
        invariant
            k <= items@.len(),
            forall|j: int| 0 <= j < k ==> !(#[trigger] items@[j].0 == x && items@[j].1 == y),
        decreases items@.len() - k,
    {
        if items[k].0 == x && items[k].1 == y {
            return Some(k);
        }
        k = k + 1;
    }
    None
}

/// An item `random_item` can give for a floor: loot for the floor (40
/// potions, 30 weapons, 20 armor and 10 rings in 100) of a rarity rolled
/// for it.
pub open spec fn ground_loot(r: Item, floor: int) -> bool {
    exists|roll: int, b: bool, k: int, u: int|
        #![trigger is_loot_for(r, floor, rarity_for(floor, u), roll, 40, 70, 90, b, k)]
        0 <= roll < 100 && 0 <= k < 4 && 0 <= u < 20000
        && is_loot_for(r, floor, rarity_for(floor, u), roll, 40, 70, 90, b, k)
}

/// Where a list of ground items may lie on the map: each on a floor cell
/// off the edges of some room other than the first and off its center, no
/// two on one cell.
pub open spec fn items_placed(m: DungeonMap, items: Seq<(usize, usize, Item)>) -> bool {
    &&& forall|k: int| 0 <= k < items.len() ==> {
        let e = #[trigger] items[k];
        &&& tile_at(m, e.0 as int, e.1 as int) == Tile::Floor
        &&& exists|i: int| 1 <= i < m.rooms@.len() && #[trigger] loot_spot(m.rooms@[i], e.0 as int, e.1 as int)
            && (e.0, e.1) != rect_center(m.rooms@[i])
    }
    &&& forall|a: int, b: int| 0 <= a < b < items.len() ==> ((#[trigger] items[a]).0, items[a].1) != ((#[trigger] items[b]).0, items[b].1)
}

impl DungeonMap {
    /// Loot on the ground: each room but the first, one time in four, gets
    /// a random item for the floor on a random cell off its edges, when that
    /// cell is floor and not the room's center (a later item on the same
    /// cell replaces the earlier one).
    pub fn spawn_ground_items(&self, floor: i32) -> (items: Vec<(usize, usize, Item)>)
        requires
            map_wf(*self),
            loot_rooms_ok(*self),
        ensures
            items_placed(*self, items@),
            items@.len() == 0 || items@.len() < self.rooms@.len(),
            forall|k: int| 0 <= k < items@.len() ==> ground_loot((#[trigger] items@[k]).2, floor as int),
    {
        let mut items: Vec<(usize, usize, Item)> = Vec::new();
        let mut i: usize = 1;
        while i < self.rooms.len()
            invariant
                map_wf(*self),
                loot_rooms_ok(*self),
                1 <= i,
                i <= self.rooms@.len() || (self.rooms@.len() == 0 && i == 1),
                items_placed(*self, items@),
                items@.len() == 0 || items@.len() < i,
                forall|k: int| 0 <= k < items@.len() ==> ground_loot((#[trigger] items@[k]).2, floor as int),
            decreases self.rooms@.len() - i,
        {
            if random_ratio(1, 4) {
                let room = self.rooms[i];
                assert(crate::map::rect_inside(self.rooms@[i as int], self.width as int, self.height as int));
                let px = room.x1 + 1 + random_below(room.x2 - 1 - (room.x1 + 1));
                let py = room.y1 + 1 + random_below(room.y2 - 1 - (room.y1 + 1));
                let (cx, cy) = room.center();
                if self.tiles[px][py] == Tile::Floor && (px != cx || py != cy) {
                    let item = random_item(floor);
                    assert(loot_spot(self.rooms@[i as int], px as int, py as int));
                    match find_spot(&items, px, py) {
                        Some(k) => {
                            let ghost before = items@;
                            items.set(k, (px, py, item));
                            proof {
                                assert forall|a: int, b: int| 0 <= a < b < items@.len() implies
                                    ((#[trigger] items@[a]).0, items@[a].1) != ((#[trigger] items@[b]).0, items@[b].1) by {
                                    assert((before[a].0, before[a].1) != (before[b].0, before[b].1));
                                }
                            }
                        },
                        None => {
                            items.push((px, py, item));
                            proof {
                                assert forall|a: int, b: int| 0 <= a < b < items@.len() implies
                                    ((#[trigger] items@[a]).0, items@[a].1) != ((#[trigger] items@[b]).0, items@[b].1) by {
                                    if b == items@.len() - 1 {
                                        assert(!(items@[a].0 == px && items@[a].1 == py));
                                    }
                                }
                            }
                        },
                    }
                }
            }
            i = i + 1;
        }
        items
    }
}

/// The boss of a floor: the goblin king on floor 5, the bone dragon on
/// floor 10 and the shadow lord on every fifth floor from 15 on.
pub open spec fn boss_kind(floor: int) -> Option<MonsterType> {
    if floor == 5 { Some(MonsterType::GoblinKing) }
    else if floor == 10 { Some(MonsterType::BoneDragon) }
    else if floor >= 15 && floor % 5 == 0 { Some(MonsterType::ShadowLord) }
    else { None }
}

fn boss_kind_for(floor: i32) -> (b: Option<MonsterType>)
    ensures
        b == boss_kind(floor as int),
{
    if floor == 5 { Some(MonsterType::GoblinKing) }
    else if floor == 10 { Some(MonsterType::BoneDragon) }
    else if floor >= 15 && floor % 5 == 0 { Some(MonsterType::ShadowLord) }
    else { None }
}

/// Where the boss stands in the last room: one cell right of its center,
/// or one left when that is the room's edge.
pub open spec fn boss_spot(r: Rect) -> (usize, usize) {
    let c = rect_center(r);
    (if c.0 + 1 < r.x2 { (c.0 + 1) as usize } else if c.0 > 0 { (c.0 - 1) as usize } else { 0usize }, c.1)
}

/// A monster waiting in a room: a new monster of a kind for the floor on
/// the room's center, or a bat of a swarm within one cell of it (and left
/// of and above the room's far edges).
pub open spec fn waits_in(m: Monster, r: Rect, floor: int) -> bool {
    let c = rect_center(r);
    ||| exists|roll: int| 0 <= roll < 100 && #[trigger] is_new_monster(m, c.0, c.1, spawn_kind(floor, roll), floor)
    ||| {
        &&& is_new_monster(m, m.x, m.y, MonsterType::BatSwarm, floor)
        &&& c.0 <= m.x + 1 && m.x <= c.0 + 1 && m.x < r.x2
        &&& c.1 <= m.y + 1 && m.y <= c.1 + 1 && m.y < r.y2
    }
}

/// A monster waiting in one of the rooms but the first and the last.
pub open spec fn waits_somewhere(m: Monster, rooms: Seq<Rect>, floor: int) -> bool {
    exists|i: int| 1 <= i < rooms.len() - 1 && #[trigger] waits_in(m, rooms[i], floor)
}

/// The rooms that get monsters: all but the first and the last.
pub open spec fn middle_rooms(n: int) -> int {
    if n >= 2 { n - 2 } else { 0 }
}

impl DungeonMap {
    /// The monsters of a new floor: one random monster for the floor on the
    /// center of each room but the first and the last, except that a bat
    /// swarm comes as 2 or 3 bats (the second one cell right of the center
    /// when that is inside the room, the third one cell down likewise); on
    /// a boss floor the boss (see `boss_kind`) comes last, beside the
    /// center of the last room (see `boss_spot`).
    pub fn spawn_monsters_for_floor(&self, floor: i32) -> (ms: Vec<Monster>)
        requires
            map_wf(*self),
            forall|i: int| 0 <= i < self.rooms@.len() ==> (#[trigger] self.rooms@[i]).x2 >= 1 && self.rooms@[i].y2 >= 1,
        ensures
            ({
                let boss = if boss_kind(floor as int) is Some && self.rooms@.len() > 0 { 1int } else { 0 };
                &&& middle_rooms(self.rooms@.len() as int) + boss <= ms@.len() <= 3 * middle_rooms(self.rooms@.len() as int) + boss
                &&& forall|k: int| 0 <= k < ms@.len() - boss ==> waits_somewhere(#[trigger] ms@[k], self.rooms@, floor as int)
                &&& boss == 1 ==> is_new_monster(ms@.last(), boss_spot(self.rooms@.last()).0, boss_spot(self.rooms@.last()).1,
                    boss_kind(floor as int)->0, floor as int)
            }),
    {
        let mut monsters: Vec<Monster> = Vec::new();
        let n = self.rooms.len();
        let last_middle: usize = if n >= 1 { n - 1 } else { 0 };
        let mut i: usize = 1;
        while i < last_middle
            invariant
                map_wf(*self),
                n == self.rooms@.len(),
                last_middle == (if n >= 1 { n - 1 } else { 0 }),
                forall|j: int| 0 <= j < self.rooms@.len() ==> (#[trigger] self.rooms@[j]).x2 >= 1 && self.rooms@[j].y2 >= 1,
                1 <= i,
                i <= last_middle || (last_middle == 0 && i == 1),
                i - 1 <= monsters@.len() <= 3 * (i - 1),
                forall|k: int| 0 <= k < monsters@.len() ==> waits_somewhere(#[trigger] monsters@[k], self.rooms@, floor as int),
            decreases last_middle - i,
        {
            let room = self.rooms[i];
            let (cx, cy) = room.center();
            let m = Monster::random_monster(cx, cy, floor);
            let ghost before = monsters@;
            proof {
                assert(crate::map::rect_inside(self.rooms@[i as int], self.width as int, self.height as int));
            }
            if m.monster_type == MonsterType::BatSwarm {
                let count = 2 + random_below(2);
                let mut j: usize = 0;
                while j < count
                    invariant
                        map_wf(*self),
                        1 <= i < self.rooms@.len() - 1,
                        room == self.rooms@[i as int],
                        (cx, cy) == rect_center(room),
                        room.x2 >= 1 && room.y2 >= 1,
                        room.x1 <= room.x2 <= self.width && room.y1 <= room.y2 <= self.height,
                        count <= 3,
                        j <= count,
                        monsters@.len() == before.len() + j,
                        forall|k: int| 0 <= k < monsters@.len() ==> waits_somewhere(#[trigger] monsters@[k], self.rooms@, floor as int),
                    decreases count - j,
                {
                    let ox: usize = if j == 1 && cx + 1 < room.x2 { 1 } else { 0 };
                    let oy: usize = if j >= 2 && cy + 1 < room.y2 { 1 } else { 0 };
                    let bx = if cx + ox < room.x2 - 1 { cx + ox } else { room.x2 - 1 };
                    let by = if cy + oy < room.y2 - 1 { cy + oy } else { room.y2 - 1 };
                    let bat = Monster::new(bx, by, MonsterType::BatSwarm, floor);
                    monsters.push(bat);
                    proof {
                        assert(waits_in(bat, self.rooms@[i as int], floor as int));
                        assert forall|k: int| 0 <= k < monsters@.len() implies waits_somewhere(#[trigger] monsters@[k], self.rooms@, floor as int) by {
                            if k < monsters@.len() - 1 {
                                assert(monsters@[k] == monsters@.drop_last()[k]);
                            } else {
                                assert(waits_in(monsters@[k], self.rooms@[i as int], floor as int));
                            }
                        }
                    }
                    j = j + 1;
                }
            } else {
                monsters.push(m);
                proof {
                    assert(waits_in(m, self.rooms@[i as int], floor as int));
                    assert forall|k: int| 0 <= k < monsters@.len() implies waits_somewhere(#[trigger] monsters@[k], self.rooms@, floor as int) by {
                        if k < monsters@.len() - 1 {
                            assert(monsters@[k] == monsters@.drop_last()[k]);
                        } else {
                            assert(waits_in(monsters@[k], self.rooms@[i as int], floor as int));
                        }
                    }
                }
            }
            i = i + 1;
        }
        let ghost body = monsters@;
        match boss_kind_for(floor) {
            Some(bt) => {
                if n > 0 {
                    let last_room = self.rooms[n - 1];
                    let (cx, cy) = last_room.center();
                    let bx = if cx + 1 < last_room.x2 { cx + 1 } else if cx > 0 { cx - 1 } else { 0 };
                    monsters.push(Monster::new(bx, cy, bt, floor));
                    proof {
                        assert forall|k: int| 0 <= k < monsters@.len() - 1 implies waits_somewhere(#[trigger] monsters@[k], self.rooms@, floor as int) by {
                            assert(monsters@[k] == body[k]);
                        }
                    }
                }
            },
            None => {},
        }
        monsters
    }
}

} // verus!
