//! Machines: a shrine that, once touched, sets fire to a far room, and the
//! hazard pools of a boss's lair.
use vstd::prelude::*;
use crate::map::{DungeonMap, Machine, MachineType, Rect, RoomType, Tile, TrapType, grid_shape, map_wf, rect_center,
    rect_inside, set_cell, tile_at, MAX_SIDE};
use crate::mapgen::cell;
use crate::rng::random_ratio;

verus! {

/// A machine set off by stepping on `p`, not yet spent.
pub open spec fn armed(m: Machine, p: (usize, usize)) -> bool {
    m.trigger_pos == p && !m.activated
}

/// What a call of `activate_machine` may do to the machines: each stays as
/// it was, or an unspent one is spent; none comes back.
pub open spec fn machines_step(a: Seq<Machine>, b: Seq<Machine>) -> bool {
    &&& b.len() == a.len()
    &&& forall|i: int| 0 <= i < a.len() ==> #[trigger] b[i] == a[i] || (!a[i].activated && b[i] == Machine { activated: true, ..a[i] })
}

/// The machines through a run of calls: each one's result is the next.
pub open spec fn machines_run(run: Seq<Seq<Machine>>) -> bool {
    forall|k: int| 0 <= k < run.len() - 1 ==> machines_step(#[trigger] run[k], run[k + 1])
}

/// Through a run, a spent machine stays spent.
proof fn lemma_spent_stays(run: Seq<Seq<Machine>>, i: int, k1: int, k2: int)
    requires
        machines_run(run),
        0 <= k1 <= k2 < run.len(),
        0 <= i < run[k1].len(),
        run[k1][i].activated,
    ensures
        i < run[k2].len() && run[k2][i].activated,
    decreases k2 - k1,
{
    if k1 < k2 {
        assert(machines_step(run[k1], run[k1 + 1]));
        lemma_spent_stays(run, i, k1 + 1, k2);
    }
}

/// Each machine goes off at most once: in a run of calls of
/// `activate_machine`, a machine spent by one call is not set off by any
/// later call, and stays spent.
pub proof fn lemma_machine_fires_once(run: Seq<Seq<Machine>>, i: int, k1: int, k2: int)
    requires
        machines_run(run),
        0 <= k1 < k2 < run.len() - 1,
        0 <= i < run[k1].len(),
        !run[k1][i].activated && run[k1 + 1][i].activated,
    ensures
        run[k2][i].activated && run[k2 + 1][i] == run[k2][i],
{
    assert(machines_step(run[k1], run[k1 + 1]));
    lemma_spent_stays(run, i, k1 + 1, k2);
    assert(machines_step(run[k2], run[k2 + 1]));
}

/// (x, y) is the cell `e` or one of its eight neighbours.
pub open spec fn near(e: (usize, usize), x: int, y: int) -> bool {
    e.0 - 1 <= x <= e.0 + 1 && e.1 - 1 <= y <= e.1 + 1
}

/// The traps of `b` are those of `a`, with fire on the cell `e` and on
/// some floor cells around it.
pub open spec fn fire_spread(a: DungeonMap, b: DungeonMap, e: (usize, usize)) -> bool {
    &&& grid_shape(b.trap_tiles@, a.width as int, a.height as int)
    &&& cell(b.trap_tiles@, e.0 as int, e.1 as int) == Some(TrapType::Fire)
    &&& forall|x: int, y: int| 0 <= x < a.width && 0 <= y < a.height ==> {
        ||| #[trigger] cell(b.trap_tiles@, x, y) == cell(a.trap_tiles@, x, y)
        ||| near(e, x, y) && cell(b.trap_tiles@, x, y) == Some(TrapType::Fire)
            && (tile_at(a, x, y) == Tile::Floor || (x, y) == (e.0 as int, e.1 as int))
    }
}

/// A map that differs from `a` at most in its machines and traps.
pub open spec fn same_but_machines_traps(a: DungeonMap, b: DungeonMap) -> bool {
    &&& b.width == a.width && b.height == a.height
    &&& b.tiles == a.tiles && b.rooms == a.rooms && b.room_types == a.room_types
    &&& b.deco_objects == a.deco_objects && b.features == a.features && b.shrine_used == a.shrine_used
    &&& b.visibility == a.visibility && b.current_visibility == a.current_visibility
}

/// Among the machines `ms` from index `lo` on is a spent boss hazard
/// machine at `c`.
pub open spec fn boss_hazard_at(ms: Seq<Machine>, lo: int, c: (usize, usize)) -> bool {
    exists|k: int| lo <= k < ms.len() && #[trigger] ms[k]
        == (Machine { machine_type: MachineType::BossHazard, trigger_pos: c, effect_pos: c, activated: true })
}

/// A boss room of 8 by 8 or more, which gets hazard pools from floor 5 on.
pub open spec fn hazard_lair(m: DungeonMap, b: int) -> bool {
    &&& 0 <= b < m.rooms@.len()
    &&& m.room_types@[b] == RoomType::Boss
    &&& m.rooms@[b].x2 - m.rooms@[b].x1 >= 8 && m.rooms@[b].y2 - m.rooms@[b].y1 >= 8
}

impl DungeonMap {
    /// Sets fire on the cell `e` and, three times in ten each, on the floor
    /// cells around it.
    fn spread_fire(&mut self, e: (usize, usize))
        requires
            map_wf(*old(self)),
            e.0 < old(self).width && e.1 < old(self).height,
        ensures
            map_wf(*final(self)),
            same_but_machines_traps(*old(self), *final(self)),
            final(self).machines == old(self).machines,
            fire_spread(*old(self), *final(self), e),
    {
        let ghost a = *self;
        let (ex, ey) = e;
        set_cell(&mut self.trap_tiles, ex, ey, Some(TrapType::Fire));
        let mut i: usize = 0;
        while i < 3
            invariant
                map_wf(*self),
                same_but_machines_traps(a, *self),
                self.machines == a.machines,
                map_wf(a),
                e.0 < a.width && e.1 < a.height,
                (ex, ey) == e,
                i <= 3,
                fire_spread(a, *self, e),
            decreases 3 - i,
        {
            let mut j: usize = 0;
            while j < 3
                invariant
                    map_wf(*self),
                    same_but_machines_traps(a, *self),
                    self.machines == a.machines,
                    map_wf(a),
                    e.0 < a.width && e.1 < a.height,
                    (ex, ey) == e,
                    i < 3,
                    j <= 3,
                    fire_spread(a, *self, e),
                decreases 3 - j,
            {
                if ex + i >= 1 && ey + j >= 1 {
                    let nx = ex + i - 1;
                    let ny = ey + j - 1;
                    if nx < self.width && ny < self.height && self.tiles[nx][ny] == Tile::Floor {
                        if random_ratio(3, 10) {
                            let ghost before = *self;
                            set_cell(&mut self.trap_tiles, nx, ny, Some(TrapType::Fire));
                            proof {
                                assert forall|x: int, y: int| 0 <= x < a.width && 0 <= y < a.height implies {
                                    ||| #[trigger] cell(self.trap_tiles@, x, y) == cell(a.trap_tiles@, x, y)
                                    ||| near(e, x, y) && cell(self.trap_tiles@, x, y) == Some(TrapType::Fire)
                                        && (tile_at(a, x, y) == Tile::Floor || (x, y) == (e.0 as int, e.1 as int))
                                } by {
                                    assert(cell(before.trap_tiles@, x, y) == cell(a.trap_tiles@, x, y)
                                        || near(e, x, y) && cell(before.trap_tiles@, x, y) == Some(TrapType::Fire)
                                        && (tile_at(a, x, y) == Tile::Floor || (x, y) == (e.0 as int, e.1 as int)));
                                }
                            }
                        }
                    }
                }
                j = j + 1;
            }
            i = i + 1;
        }
    }

    /// Sets off the first unspent machine whose trigger is at `trigger_pos`:
    /// it is spent, and a shrine trap sets fire to its far room (see
    /// `spread_fire`) when that cell is on the map. Returns the machine's
    /// kind and the cell it acts on; `None`, with nothing changed, when no
    /// unspent machine is triggered there.
    pub fn activate_machine(&mut self, trigger_pos: (usize, usize)) -> (r: Option<(MachineType, (usize, usize))>)
        requires
            map_wf(*old(self)),
        ensures
            map_wf(*final(self)),
            r is None <==> forall|k: int| 0 <= k < old(self).machines@.len() ==> !armed(#[trigger] old(self).machines@[k], trigger_pos),
            r is None ==> *final(self) == *old(self),
            machines_step(old(self).machines@, final(self).machines@),
            r is Some ==> exists|i: int| 0 <= i < old(self).machines@.len() && #[trigger] armed(old(self).machines@[i], trigger_pos) && ({
                let m = old(self).machines@[i];
                &&& forall|k: int| 0 <= k < i ==> !armed(#[trigger] old(self).machines@[k], trigger_pos)
                &&& r == Some((m.machine_type, m.effect_pos))
                &&& final(self).machines@ == old(self).machines@.update(i, Machine { activated: true, ..m })
                &&& same_but_machines_traps(*old(self), *final(self))
                &&& if m.machine_type == MachineType::ShrineTrap && m.effect_pos.0 < old(self).width && m.effect_pos.1 < old(self).height {
                        fire_spread(*old(self), *final(self), m.effect_pos)
                    } else {
                        final(self).trap_tiles == old(self).trap_tiles
                    }
            }),
    {
        let mut i: usize = 0;
        while i < self.machines.len()
            invariant
                map_wf(*self),
                *self == *old(self),
                i <= self.machines@.len(),
                forall|k: int| 0 <= k < i ==> !armed(#[trigger] self.machines@[k], trigger_pos),
            decreases self.machines@.len() - i,
        {
            let m = self.machines[i];
            if m.trigger_pos.0 == trigger_pos.0 && m.trigger_pos.1 == trigger_pos.1 && !m.activated {
                self.machines.set(i, Machine { activated: true, ..m });
                let ghost mid = *self;
                if m.machine_type == MachineType::ShrineTrap {
                    let (ex, ey) = m.effect_pos;
                    if ex < self.width && ey < self.height {
                        self.spread_fire((ex, ey));
                    }
                }
                assert(armed(old(self).machines@[i as int], trigger_pos));
                assert(machines_step(old(self).machines@, self.machines@)) by {
                    assert forall|k: int| 0 <= k < old(self).machines@.len() implies #[trigger] self.machines@[k] == old(self).machines@[k]
                        || (!old(self).machines@[k].activated && self.machines@[k] == Machine { activated: true, ..old(self).machines@[k] }) by {
                        if k == i { assert(self.machines@[k] == mid.machines@[k]); }
                    }
                }
                return Some((m.machine_type, m.effect_pos));
            }
            i = i + 1;
        }
        None
    }
}

/// The squared distance between two cells.
pub open spec fn dist2(a: (usize, usize), b: (usize, usize)) -> int {
    (a.0 - b.0) * (a.0 - b.0) + (a.1 - b.1) * (a.1 - b.1)
}

/// A room the trap of the shrine in room `s` may go off in: another room,
/// neither where the player starts nor the boss's.
pub open spec fn trap_room_ok(rooms: Seq<Rect>, types: Seq<RoomType>, s: int, i: int) -> bool {
    &&& 0 <= i < rooms.len()
    &&& i != s
    &&& types[i] != RoomType::Spawn
    &&& types[i] != RoomType::Boss
}

/// Room `t` is the room, among those the trap of the shrine in room `s`
/// may go off in, whose center is farthest from `from` (the last such one
/// when several are equally far).
pub open spec fn farthest_trap_room(rooms: Seq<Rect>, types: Seq<RoomType>, s: int, from: (usize, usize), t: int) -> bool {
    &&& trap_room_ok(rooms, types, s, t)
    &&& forall|i: int| #[trigger] trap_room_ok(rooms, types, s, i) ==>
        dist2(rect_center(rooms[i]), from) <= dist2(rect_center(rooms[t]), from)
            && (i > t ==> dist2(rect_center(rooms[i]), from) < dist2(rect_center(rooms[t]), from))
}

/// A machine that `place_machines` may add to the map `m`: a shrine trap
/// from the center of a shrine room to the center of its farthest room
/// (see `farthest_trap_room`), or, from floor 5 on, the spent hazard of a
/// boss room of 8 by 8 or more, at its center.
pub open spec fn new_machine_ok(m: DungeonMap, floor: int, mc: Machine) -> bool {
    ||| exists|s: int, t: int| 0 <= s < m.rooms@.len() && m.room_types@[s] == RoomType::Shrine
        && #[trigger] farthest_trap_room(m.rooms@, m.room_types@, s, rect_center(m.rooms@[s]), t) && mc == (Machine {
            machine_type: MachineType::ShrineTrap, trigger_pos: rect_center(m.rooms@[s]),
            effect_pos: rect_center(m.rooms@[t]), activated: false })
    ||| floor >= 5 && exists|b: int| 0 <= b < m.rooms@.len() && #[trigger] m.room_types@[b] == RoomType::Boss
        && m.rooms@[b].x2 - m.rooms@[b].x1 >= 8 && m.rooms@[b].y2 - m.rooms@[b].y1 >= 8 && mc == (Machine {
            machine_type: MachineType::BossHazard, trigger_pos: rect_center(m.rooms@[b]),
            effect_pos: rect_center(m.rooms@[b]), activated: true })
}

/// What a hazard pool may turn a floor cell into: lava (from floor 7 on)
/// or deep water in a pool's middle, shallow water around it.
pub open spec fn hazard_tile(floor: int, t: Tile) -> bool {
    ||| t == (if floor >= 7 { Tile::Lava } else { Tile::DeepWater })
    ||| t == Tile::ShallowWater
}

/// `b`'s tiles are `a`'s, with some floor cells turned into hazards.
pub open spec fn hazards_only(a: DungeonMap, b: DungeonMap, floor: int) -> bool {
    &&& grid_shape(b.tiles@, a.width as int, a.height as int)
    &&& forall|x: int, y: int| 0 <= x < a.width && 0 <= y < a.height ==>
        #[trigger] cell(b.tiles@, x, y) == cell(a.tiles@, x, y)
            || (cell(a.tiles@, x, y) == Tile::Floor && floor >= 5 && hazard_tile(floor, cell(b.tiles@, x, y)))
}

/// A map that differs from `a` at most in its machines and tiles.
pub open spec fn same_but_machines_tiles(a: DungeonMap, b: DungeonMap) -> bool {
    &&& b.width == a.width && b.height == a.height
    &&& b.rooms == a.rooms && b.room_types == a.room_types
    &&& b.deco_objects == a.deco_objects && b.trap_tiles == a.trap_tiles
    &&& b.features == a.features && b.shrine_used == a.shrine_used
    &&& b.visibility == a.visibility && b.current_visibility == a.current_visibility
}

impl DungeonMap {
    /// The room the trap of the shrine in room `s` goes off in (see
    /// `farthest_trap_room`), if there is one.
    fn farthest_room(&self, s: usize, from: (usize, usize)) -> (r: Option<usize>)
        requires
            map_wf(*self),
            from.0 <= MAX_SIDE && from.1 <= MAX_SIDE,
        ensures
            r is None ==> forall|i: int| !(#[trigger] trap_room_ok(self.rooms@, self.room_types@, s as int, i)),
            r is Some ==> farthest_trap_room(self.rooms@, self.room_types@, s as int, from, r->0 as int),
    {
        let mut best: Option<usize> = None;
        let mut best_d: i32 = 0;
        let mut i: usize = 0;
        while i < self.rooms.len()
            invariant
                map_wf(*self),
                from.0 <= MAX_SIDE && from.1 <= MAX_SIDE,
                i <= self.rooms@.len(),
                best is None ==> forall|k: int| 0 <= k < i ==> !(#[trigger] trap_room_ok(self.rooms@, self.room_types@, s as int, k)),
                best is Some ==> {
                    let b = best->0 as int;
                    &&& b < i && trap_room_ok(self.rooms@, self.room_types@, s as int, b)
                    &&& best_d == dist2(rect_center(self.rooms@[b]), from)
                    &&& forall|k: int| 0 <= k < i && #[trigger] trap_room_ok(self.rooms@, self.room_types@, s as int, k) ==>
                        dist2(rect_center(self.rooms@[k]), from) <= best_d
                            && (k > b ==> dist2(rect_center(self.rooms@[k]), from) < best_d)
                },
            decreases self.rooms@.len() - i,
        {
            if i != s && self.room_types[i] != RoomType::Spawn && self.room_types[i] != RoomType::Boss {
                assert(rect_inside(self.rooms@[i as int], self.width as int, self.height as int));
                let c = self.rooms[i].center();
                let dx = c.0 as i32 - from.0 as i32;
                let dy = c.1 as i32 - from.1 as i32;
                assert(dx * dx <= 100_000_000) by (nonlinear_arith)
                    requires -10_000 <= dx <= 10_000;
                assert(dy * dy <= 100_000_000) by (nonlinear_arith)
                    requires -10_000 <= dy <= 10_000;
                assert(dx * dx >= 0 && dy * dy >= 0) by (nonlinear_arith);
                let d = dx * dx + dy * dy;
                let better = match best {
                    None => true,
                    Some(_) => d >= best_d,
                };
                if better {
                    best = Some(i);
                    best_d = d;
                }
            }
            i = i + 1;
        }
        proof {
            if best is Some {
                let b = best->0 as int;
                assert forall|k: int| #[trigger] trap_room_ok(self.rooms@, self.room_types@, s as int, k) implies
                    dist2(rect_center(self.rooms@[k]), from) <= dist2(rect_center(self.rooms@[b]), from)
                        && (k > b ==> dist2(rect_center(self.rooms@[k]), from) < dist2(rect_center(self.rooms@[b]), from)) by {
                    assert(0 <= k < i);
                }
            }
        }
        best
    }

    /// Turns the cell into a hazard pool's middle and the floor cells around
    /// it into shallow water.
    fn pour_hazard(&mut self, hx: usize, hy: usize, floor: i32, Ghost(a): Ghost<DungeonMap>)
        requires
            map_wf(*old(self)),
            floor >= 5,
            hx < old(self).width && hy < old(self).height,
            cell(old(self).tiles@, hx as int, hy as int) == Tile::Floor,
            same_but_machines_tiles(a, *old(self)),
            hazards_only(a, *old(self), floor as int),
        ensures
            map_wf(*final(self)),
            same_but_machines_tiles(a, *final(self)),
            final(self).machines == old(self).machines,
            hazards_only(a, *final(self), floor as int),
            *final(self) == (DungeonMap { tiles: final(self).tiles, ..*old(self) }),
            forall|x: int, y: int| 0 <= x < old(self).width && 0 <= y < old(self).height ==>
                #[trigger] cell(final(self).tiles@, x, y) == (if x == hx && y == hy {
                    if floor >= 7 { Tile::Lava } else { Tile::DeepWater }
                } else if near((hx, hy), x, y) && cell(old(self).tiles@, x, y) == Tile::Floor {
                    Tile::ShallowWater
                } else {
                    cell(old(self).tiles@, x, y)
                }),
    {
        let ghost s0 = *self;
        let pool = if floor >= 7 { Tile::Lava } else { Tile::DeepWater };
        let ghost b0 = *self;
        set_cell(&mut self.tiles, hx, hy, pool);
        proof {
            assert forall|x: int, y: int| 0 <= x < a.width && 0 <= y < a.height implies
                #[trigger] cell(self.tiles@, x, y) == cell(a.tiles@, x, y)
                    || (cell(a.tiles@, x, y) == Tile::Floor && floor >= 5 && hazard_tile(floor as int, cell(self.tiles@, x, y))) by {
                assert(cell(b0.tiles@, x, y) == cell(a.tiles@, x, y)
                    || (cell(a.tiles@, x, y) == Tile::Floor && floor >= 5 && hazard_tile(floor as int, cell(b0.tiles@, x, y))));
            }
        }
        let mut i: usize = 0;
        while i < 3
            invariant
                map_wf(*self),
                floor >= 5,
                hx < self.width && hy < self.height,
                same_but_machines_tiles(a, *self),
                self.machines == old(self).machines,
                hazards_only(a, *self, floor as int),
                i <= 3,
                *self == (DungeonMap { tiles: self.tiles, ..s0 }),
                pool == (if floor >= 7 { Tile::Lava } else { Tile::DeepWater }),
                forall|x: int, y: int| 0 <= x < s0.width && 0 <= y < s0.height ==>
                    #[trigger] cell(self.tiles@, x, y) == (if x == hx && y == hy { pool }
                    else if near((hx, hy), x, y) && x - hx + 1 < i && cell(s0.tiles@, x, y) == Tile::Floor { Tile::ShallowWater }
                    else { cell(s0.tiles@, x, y) }),
            decreases 3 - i,
        {
            let mut j: usize = 0;
            while j < 3
                invariant
                    map_wf(*self),
                    floor >= 5,
                    hx < self.width && hy < self.height,
                    same_but_machines_tiles(a, *self),
                    self.machines == old(self).machines,
                    hazards_only(a, *self, floor as int),
                    i < 3,
                    j <= 3,
                    *self == (DungeonMap { tiles: self.tiles, ..s0 }),
                    pool == (if floor >= 7 { Tile::Lava } else { Tile::DeepWater }),
                    forall|x: int, y: int| 0 <= x < s0.width && 0 <= y < s0.height ==>
                        #[trigger] cell(self.tiles@, x, y) == (if x == hx && y == hy { pool }
                        else if near((hx, hy), x, y) && (x - hx + 1 < i || (x - hx + 1 == i && y - hy + 1 < j))
                            && cell(s0.tiles@, x, y) == Tile::Floor { Tile::ShallowWater }
                        else { cell(s0.tiles@, x, y) }),
                decreases 3 - j,
            {
                if !(i == 1 && j == 1) && hx + i >= 1 && hy + j >= 1 {
                    let nx = hx + i - 1;
                    let ny = hy + j - 1;
                    if nx < self.width && ny < self.height && self.tiles[nx][ny] == Tile::Floor {
                        let ghost b1 = *self;
                        set_cell(&mut self.tiles, nx, ny, Tile::ShallowWater);
                        proof {
                            assert forall|x: int, y: int| 0 <= x < a.width && 0 <= y < a.height implies
                                #[trigger] cell(self.tiles@, x, y) == cell(a.tiles@, x, y)
                                    || (cell(a.tiles@, x, y) == Tile::Floor && floor >= 5 && hazard_tile(floor as int, cell(self.tiles@, x, y))) by {
                                assert(cell(b1.tiles@, x, y) == cell(a.tiles@, x, y)
                                    || (cell(a.tiles@, x, y) == Tile::Floor && floor >= 5 && hazard_tile(floor as int, cell(b1.tiles@, x, y))));
                            }
                            assert(cell(b1.tiles@, nx as int, ny as int) == cell(s0.tiles@, nx as int, ny as int));
                            assert forall|x: int, y: int| 0 <= x < s0.width && 0 <= y < s0.height implies
                                #[trigger] cell(self.tiles@, x, y) == (if x == hx && y == hy { pool }
                                else if near((hx, hy), x, y) && (x - hx + 1 < i || (x - hx + 1 == i && y - hy + 1 < j + 1))
                                    && cell(s0.tiles@, x, y) == Tile::Floor { Tile::ShallowWater }
                                else { cell(s0.tiles@, x, y) }) by {
                                assert(cell(b1.tiles@, x, y) == (if x == hx && y == hy { pool }
                                    else if near((hx, hy), x, y) && (x - hx + 1 < i || (x - hx + 1 == i && y - hy + 1 < j))
                                        && cell(s0.tiles@, x, y) == Tile::Floor { Tile::ShallowWater }
                                    else { cell(s0.tiles@, x, y) }));
                            }
                        }
                    } else {
                        proof {
                            if hx + i >= 1 && hy + j >= 1 && !(i == 1 && j == 1) && hx + i - 1 < s0.width && hy + j - 1 < s0.height {
                                let nx = hx + i - 1;
                                let ny = hy + j - 1;
                                assert(cell(self.tiles@, nx as int, ny as int) == cell(s0.tiles@, nx as int, ny as int));
                            }
                        }
                    }
                }
                j = j + 1;
            }
            i = i + 1;
        }
    }

    /// Machines for floors 3 and up. Each shrine room, at even odds, gets a
    /// shrine trap that goes off in its farthest room (see
    /// `farthest_trap_room`). From floor 5 on each boss room of 8 by 8 or
    /// more gets, four times in ten at each of the four cells two in from
    /// its corners that are floor, a pool of lava (floor 7 on) or deep water
    /// ringed by shallow water, and a spent boss hazard machine at its
    /// center.
    pub fn place_machines(&mut self, floor: i32)
        requires
            map_wf(*old(self)),
        ensures
            map_wf(*final(self)),
            floor < 3 ==> *final(self) == *old(self),
            same_but_machines_tiles(*old(self), *final(self)),
            hazards_only(*old(self), *final(self), floor as int),
            final(self).machines@.len() >= old(self).machines@.len(),
            final(self).machines@.subrange(0, old(self).machines@.len() as int) == old(self).machines@,
            forall|k: int| old(self).machines@.len() <= k < final(self).machines@.len() ==>
                new_machine_ok(*old(self), floor as int, #[trigger] final(self).machines@[k]),
            floor >= 5 ==> forall|b: int| #[trigger] hazard_lair(*old(self), b) ==>
                boss_hazard_at(final(self).machines@, old(self).machines@.len() as int, rect_center(old(self).rooms@[b])),
    {
        let ghost a = *self;
        proof {
            assert forall|x: int, y: int| 0 <= x < a.width && 0 <= y < a.height implies
                #[trigger] cell(a.tiles@, x, y) == cell(a.tiles@, x, y)
                    || (cell(a.tiles@, x, y) == Tile::Floor && floor >= 5 && hazard_tile(floor as int, cell(a.tiles@, x, y))) by {}
            assert(a.machines@.subrange(0, a.machines@.len() as int) =~= a.machines@);
        }
        if floor < 3 {
            return;
        }
        let n = self.rooms.len();
        let mut s: usize = 0;
        while s < n
            invariant
                map_wf(*self),
                map_wf(a),
                n == a.rooms@.len(),
                same_but_machines_tiles(a, *self),
                self.tiles == a.tiles,
                s <= n,
                self.machines@.len() >= a.machines@.len(),
                self.machines@.subrange(0, a.machines@.len() as int) == a.machines@,
                forall|k: int| a.machines@.len() <= k < self.machines@.len() ==>
                    new_machine_ok(a, floor as int, #[trigger] self.machines@[k]),
            decreases n - s,
        {
            if self.room_types[s] == RoomType::Shrine && random_ratio(1, 2) {
                assert(rect_inside(self.rooms@[s as int], self.width as int, self.height as int));
                let trigger_pos = self.rooms[s].center();
                match self.farthest_room(s, trigger_pos) {
                    Some(t) => {
                        let effect_pos = self.rooms[t].center();
                        let mc = Machine { machine_type: MachineType::ShrineTrap, trigger_pos, effect_pos, activated: false };
                        assert(farthest_trap_room(a.rooms@, a.room_types@, s as int, rect_center(a.rooms@[s as int]), t as int));
                        assert(new_machine_ok(a, floor as int, mc));
                        let ghost before = self.machines@;
                        self.machines.push(mc);
                        proof {
                            assert forall|k: int| a.machines@.len() <= k < self.machines@.len() implies
                                new_machine_ok(a, floor as int, #[trigger] self.machines@[k]) by {
                                if k < self.machines@.len() - 1 {
                                    assert(self.machines@[k] == before[k]);
                                }
                            }
                            assert(self.machines@.subrange(0, a.machines@.len() as int) =~= before.subrange(0, a.machines@.len() as int));
                        }
                    },
                    None => {},
                }
            }
            s = s + 1;
        }
        if floor >= 5 {
            let mut b: usize = 0;
            while b < n
                invariant
                    map_wf(*self),
                    map_wf(a),
                    floor >= 5,
                    n == a.rooms@.len(),
                    same_but_machines_tiles(a, *self),
                    hazards_only(a, *self, floor as int),
                    b <= n,
                    self.machines@.len() >= a.machines@.len(),
                    self.machines@.subrange(0, a.machines@.len() as int) == a.machines@,
                    forall|k: int| a.machines@.len() <= k < self.machines@.len() ==>
                        new_machine_ok(a, floor as int, #[trigger] self.machines@[k]),
                    forall|b2: int| #[trigger] hazard_lair(a, b2) && b2 < b ==>
                        boss_hazard_at(self.machines@, a.machines@.len() as int, rect_center(a.rooms@[b2])),
                decreases n - b,
            {
                if self.room_types[b] == RoomType::Boss {
                    let room = self.rooms[b];
                    assert(rect_inside(self.rooms@[b as int], self.width as int, self.height as int));
                    if room.x2 - room.x1 >= 8 && room.y2 - room.y1 >= 8 {
                        let spots = [(room.x1 + 2, room.y1 + 2), (room.x2 - 3, room.y1 + 2), (room.x1 + 2, room.y2 - 3), (room.x2 - 3, room.y2 - 3)];
                        let mut q: usize = 0;
                        while q < 4
                            invariant
                                map_wf(*self),
                                floor >= 5,
                                same_but_machines_tiles(a, *self),
                                hazards_only(a, *self, floor as int),
                                self.machines@.len() >= a.machines@.len(),
                                self.machines@.subrange(0, a.machines@.len() as int) == a.machines@,
                                forall|k: int| a.machines@.len() <= k < self.machines@.len() ==>
                                    new_machine_ok(a, floor as int, #[trigger] self.machines@[k]),
                                self.rooms@[b as int] == room,
                                b < n,
                                n == a.rooms@.len(),
                                a.room_types@[b as int] == RoomType::Boss,
                                room.x2 - room.x1 >= 8 && room.y2 - room.y1 >= 8,
                                q <= 4,
                                forall|b2: int| #[trigger] hazard_lair(a, b2) && b2 < b ==>
                                    boss_hazard_at(self.machines@, a.machines@.len() as int, rect_center(a.rooms@[b2])),
                            decreases 4 - q,
                        {
                            let (hx, hy) = spots[q];
                            if hx < self.width && hy < self.height && self.tiles[hx][hy] == Tile::Floor && random_ratio(2, 5) {
                                self.pour_hazard(hx, hy, floor, Ghost(a));
                            }
                            q = q + 1;
                        }
                        let c = room.center();
                        let mc = Machine { machine_type: MachineType::BossHazard, trigger_pos: c, effect_pos: c, activated: true };
                        assert(new_machine_ok(a, floor as int, mc));
                        let ghost before = self.machines@;
                        self.machines.push(mc);
                        proof {
                            assert(self.machines@[self.machines@.len() - 1] == mc);
                            assert forall|b2: int| #[trigger] hazard_lair(a, b2) && b2 < b + 1 implies
                                boss_hazard_at(self.machines@, a.machines@.len() as int, rect_center(a.rooms@[b2])) by {
                                if b2 < b {
                                    let k = choose|k: int| a.machines@.len() <= k < before.len() && #[trigger] before[k]
                                        == (Machine { machine_type: MachineType::BossHazard, trigger_pos: rect_center(a.rooms@[b2]),
                                            effect_pos: rect_center(a.rooms@[b2]), activated: true });
                                    assert(self.machines@[k] == before[k]);
                                } else {
                                    assert(self.machines@[self.machines@.len() - 1] == mc);
                                }
                            }
                        }
                        proof {
                            assert forall|k: int| a.machines@.len() <= k < self.machines@.len() implies
                                new_machine_ok(a, floor as int, #[trigger] self.machines@[k]) by {
                                if k < self.machines@.len() - 1 {
                                    assert(self.machines@[k] == before[k]);
                                }
                            }
                            assert(self.machines@.subrange(0, a.machines@.len() as int) =~= before.subrange(0, a.machines@.len() as int));
                        }
                    }
                }
                b = b + 1;
            }
        }
    }
}

} // verus!
