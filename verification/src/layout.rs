//! A new dungeon floor: its layout (rooms or caves), a few extra loops cut
//! through thin walls, a clean-up of awkward wall bits, and empty layers.
use vstd::prelude::*;
use crate::map::{DungeonMap, Machine, Rect, RoomType, Tile, DecoObject, TrapType, DungeonFeature,
    grid_shape, map_wf, rect_center, rect_inside, room_holds, MAX_SIDE};
use crate::mapgen::{boss_floor, cell, center_of, filled_grid, lemma_chain_kept, lemma_chain_reaches, rects_inside, arena_fits};
use crate::paths::{joined, open_at};
use crate::caves::{interior, plain_tiles};
use crate::rng::random_below;

verus! {

/// Every cell of `b` is the cell of `a`, or a wall of `a` opened to floor.
pub open spec fn only_opened(a: Seq<Vec<Tile>>, b: Seq<Vec<Tile>>, w: int, h: int) -> bool {
    &&& grid_shape(b, w, h)
    &&& forall|x: int, y: int| 0 <= x < w && 0 <= y < h ==>
        #[trigger] cell(b, x, y) == cell(a, x, y) || (cell(a, x, y) == Tile::Wall && cell(b, x, y) == Tile::Floor)
}

/// A wall off the border with floor on both sides, left and right or above
/// and below: a place where a loop may be cut.
pub open spec fn thin_wall(t: Seq<Vec<Tile>>, w: int, h: int, x: int, y: int) -> bool {
    &&& interior(x, y, w, h)
    &&& cell(t, x, y) == Tile::Wall
    &&& ((cell(t, x - 1, y) == Tile::Floor && cell(t, x + 1, y) == Tile::Floor)
        || (cell(t, x, y - 1) == Tile::Floor && cell(t, x, y + 1) == Tile::Floor))
}

/// The indices (x * h + y) of the cells where `b` differs from `a`.
pub open spec fn changed_set(a: Seq<Vec<Tile>>, b: Seq<Vec<Tile>>, w: int, h: int) -> Set<int> {
    Set::new(|k: int| 0 <= k < w * h && cell(b, k / h, k % h) != cell(a, k / h, k % h))
}

/// The changed cells are finitely many.
proof fn lemma_changed_finite(a: Seq<Vec<Tile>>, b: Seq<Vec<Tile>>, w: int, h: int)
    requires
        1 <= w && 1 <= h,
    ensures
        changed_set(a, b, w, h).finite(),
{
    assert(w * h >= 0) by (nonlinear_arith)
        requires 1 <= w, 1 <= h;
    vstd::set_lib::lemma_int_range(0, w * h);
    assert(changed_set(a, b, w, h).subset_of(vstd::set_lib::set_int_range(0, w * h)));
    vstd::set_lib::lemma_len_subset(changed_set(a, b, w, h), vstd::set_lib::set_int_range(0, w * h));
}

/// Changing one cell that still agreed with `a` adds exactly its index.
proof fn lemma_changed_grows(a: Seq<Vec<Tile>>, b: Seq<Vec<Tile>>, b2: Seq<Vec<Tile>>, w: int, h: int, x: int, y: int)
    requires
        1 <= w && 1 <= h,
        0 <= x < w && 0 <= y < h,
        cell(b, x, y) == cell(a, x, y),
        cell(b2, x, y) != cell(a, x, y),
        forall|i: int, j: int| 0 <= i < w && 0 <= j < h && !(i == x && j == y) ==>
            #[trigger] cell(b2, i, j) == cell(b, i, j),
    ensures
        changed_set(a, b2, w, h).len() == changed_set(a, b, w, h).len() + 1,
{
    crate::map::lemma_cell_index(x, y, h);
    assert(x * h + y < w * h) by (nonlinear_arith)
        requires 0 <= x < w, 0 <= y < h;
    assert(0 <= x * h + y) by (nonlinear_arith)
        requires 0 <= x, 0 <= y, 1 <= h;
    let k0 = x * h + y;
    assert forall|k: int| changed_set(a, b2, w, h).contains(k) <==> #[trigger] changed_set(a, b, w, h).insert(k0).contains(k) by {
        if 0 <= k < w * h {
            crate::map::lemma_cell_index_of(k, h, w);
            if k / h == x && k % h == y {
                assert(k == k0);
            }
        }
    }
    assert(changed_set(a, b2, w, h) =~= changed_set(a, b, w, h).insert(k0));
    lemma_changed_finite(a, b, w, h);
}

/// A copy of a layer.
fn copy_grid<T: Copy>(g: &Vec<Vec<T>>, Ghost(w): Ghost<int>, Ghost(h): Ghost<int>) -> (c: Vec<Vec<T>>)
    requires
        grid_shape(g@, w, h),
    ensures
        grid_shape(c@, w, h),
        forall|x: int, y: int| 0 <= x < w && 0 <= y < h ==> #[trigger] cell(c@, x, y) == cell(g@, x, y),
{
    let mut c: Vec<Vec<T>> = Vec::new();
    let mut x: usize = 0;
    while x < g.len()
        invariant
            grid_shape(g@, w, h),
            x <= w,
            c@.len() == x,
            forall|i: int| 0 <= i < x ==> (#[trigger] c@[i])@.len() == h,
            forall|i: int, j: int| 0 <= i < x && 0 <= j < h ==> #[trigger] cell(c@, i, j) == cell(g@, i, j),
        decreases w - x,
    {
        let mut col: Vec<T> = Vec::new();
        let mut y: usize = 0;
        assert(g@[x as int]@.len() == h);
        while y < g[x].len()
            invariant
                grid_shape(g@, w, h),
                x < w,
                y <= h,
                c@.len() == x,
                forall|i: int| 0 <= i < x ==> (#[trigger] c@[i])@.len() == h,
                forall|i: int, j: int| 0 <= i < x && 0 <= j < h ==> #[trigger] cell(c@, i, j) == cell(g@, i, j),
                col@.len() == y,
                forall|j: int| 0 <= j < y ==> #[trigger] col@[j] == cell(g@, x as int, j),
            decreases h - y,
        {
            col.push(g[x][y]);
            y = y + 1;
        }
        let ghost prev = c@;
        c.push(col);
        proof {
            assert forall|i: int, j: int| 0 <= i < x + 1 && 0 <= j < h implies #[trigger] cell(c@, i, j) == cell(g@, i, j) by {
                if i < x {
                    assert(c@[i] == prev[i]);
                    assert(cell(prev, i, j) == cell(c@, i, j));
                } else {
                    assert(c@[i]@[j] == col@[j]);
                }
            }
        }
        x = x + 1;
    }
    c
}

impl DungeonMap {
    /// A map of the given tiles and rooms, every room of the normal type,
    /// nothing placed on it, nothing seen yet.
    pub(crate) fn bare(width: usize, height: usize, tiles: Vec<Vec<Tile>>, rooms: Vec<Rect>) -> (m: DungeonMap)
        requires
            1 <= width <= MAX_SIDE && 1 <= height <= MAX_SIDE,
            grid_shape(tiles@, width as int, height as int),
            rects_inside(rooms@, width as int, height as int),
        ensures
            map_wf(m),
            m.width == width && m.height == height,
            m.tiles == tiles && m.rooms == rooms,
            forall|i: int| 0 <= i < m.room_types@.len() ==> #[trigger] m.room_types@[i] == RoomType::Normal,
            empty_layers(m),
    {
        let mut room_types: Vec<RoomType> = Vec::new();
        let mut i: usize = 0;
        while i < rooms.len()
            invariant
                i <= rooms@.len(),
                room_types@.len() == i,
                forall|j: int| 0 <= j < i ==> #[trigger] room_types@[j] == RoomType::Normal,
            decreases rooms@.len() - i,
        {
            room_types.push(RoomType::Normal);
            i = i + 1;
        }
        let none_deco: Option<DecoObject> = None;
        let none_trap: Option<TrapType> = None;
        let none_feature: Option<DungeonFeature> = None;
        DungeonMap {
            width,
            height,
            tiles,
            rooms,
            room_types,
            deco_objects: filled_grid(width, height, none_deco),
            trap_tiles: filled_grid(width, height, none_trap),
            features: filled_grid(width, height, none_feature),
            shrine_used: filled_grid(width, height, false),
            machines: Vec::new(),
            visibility: filled_grid(width, height, false),
            current_visibility: filled_grid(width, height, false),
        }
    }
}

/// Nothing is placed on the map (no decoration, trap, feature, used shrine
/// or machine) and nothing has been seen.
pub open spec fn empty_layers(m: DungeonMap) -> bool {
    &&& m.machines@.len() == 0
    &&& forall|x: int, y: int| 0 <= x < m.width && 0 <= y < m.height ==> {
        &&& (#[trigger] cell(m.deco_objects@, x, y)) is None
        &&& cell(m.trap_tiles@, x, y) is None
        &&& cell(m.features@, x, y) is None
        &&& !cell(m.shrine_used@, x, y)
        &&& !cell(m.visibility@, x, y)
        &&& !cell(m.current_visibility@, x, y)
    }
}

/// A candidate for a loop: the wall at (x, y) and the length `d` of the way
/// around it.
pub open spec fn loop_candidate(t: Seq<Vec<Tile>>, w: int, h: int, c: (usize, usize, i32)) -> bool {
    thin_wall(t, w, h, c.0 as int, c.1 as int)
}

/// Inserts `c` after every entry whose way around is at least as long: the
/// list stays ordered longest first, and equal ones keep their order.
fn insert_by_length(sorted: &mut Vec<(usize, usize, i32)>, c: (usize, usize, i32), Ghost(t): Ghost<Seq<Vec<Tile>>>,
    Ghost(w): Ghost<int>, Ghost(h): Ghost<int>)
    requires
        forall|i: int| 0 <= i < old(sorted)@.len() ==> loop_candidate(t, w, h, #[trigger] old(sorted)@[i]),
        loop_candidate(t, w, h, c),
        forall|i: int, j: int| 0 <= i < j < old(sorted)@.len() ==> (#[trigger] old(sorted)@[i]).2 >= (#[trigger] old(sorted)@[j]).2,
    ensures
        forall|i: int| 0 <= i < final(sorted)@.len() ==> loop_candidate(t, w, h, #[trigger] final(sorted)@[i]),
        forall|i: int, j: int| 0 <= i < j < final(sorted)@.len() ==> (#[trigger] final(sorted)@[i]).2 >= (#[trigger] final(sorted)@[j]).2,
        final(sorted)@.len() == old(sorted)@.len() + 1,
{
    let mut p: usize = 0;
    while p < sorted.len() && sorted[p].2 >= c.2
        invariant
            p <= sorted@.len(),
            forall|i: int| 0 <= i < p ==> (#[trigger] sorted@[i]).2 >= c.2,
        decreases sorted@.len() - p,
    {
        p = p + 1;
    }
    let ghost s0 = sorted@;
    sorted.insert(p, c);
    proof {
        assert forall|i: int| 0 <= i < sorted@.len() implies loop_candidate(t, w, h, #[trigger] sorted@[i]) by {
            if i < p {
                assert(sorted@[i] == s0[i]);
            } else if i > p {
                assert(sorted@[i] == s0[i - 1]);
            }
        }
        assert forall|i: int, j: int| 0 <= i < j < sorted@.len() implies (#[trigger] sorted@[i]).2 >= (#[trigger] sorted@[j]).2 by {
            if p < s0.len() {
                assert(s0[p as int].2 < c.2);
            }
            if i < p && j < p {
                assert(sorted@[i] == s0[i] && sorted@[j] == s0[j]);
            } else if i < p && j == p {
                assert(sorted@[i] == s0[i]);
            } else if i < p {
                assert(sorted@[i] == s0[i] && sorted@[j] == s0[j - 1]);
            } else if i == p {
                assert(sorted@[j] == s0[j - 1]);
                assert(s0[p as int].2 >= s0[j - 1].2);
            } else {
                assert(sorted@[i] == s0[i - 1] && sorted@[j] == s0[j - 1]);
            }
        }
    }
}

impl DungeonMap {
    /// Cuts up to `target_loops` loops through thin walls (see `thin_wall`)
    /// whose two sides are at least 15 steps apart around it (by A* over
    /// the map as it was), the longest ways around first.
    fn create_loops(tiles: &mut Vec<Vec<Tile>>, width: usize, height: usize, target_loops: usize)
        requires
            1 <= width <= MAX_SIDE && 1 <= height <= MAX_SIDE,
            grid_shape(old(tiles)@, width as int, height as int),
        ensures
            only_opened(old(tiles)@, final(tiles)@, width as int, height as int),
            forall|x: int, y: int| 0 <= x < width && 0 <= y < height && #[trigger] cell(final(tiles)@, x, y) != cell(old(tiles)@, x, y)
                ==> thin_wall(old(tiles)@, width as int, height as int, x, y),
            changed_set(old(tiles)@, final(tiles)@, width as int, height as int).len() <= target_loops,
    {
        let ghost w = width as int;
        let ghost h = height as int;
        let ghost t0 = tiles@;
        let temp_map = DungeonMap::bare(width, height, copy_grid(tiles, Ghost(w), Ghost(h)), Vec::new());
        let mut candidates: Vec<(usize, usize, i32)> = Vec::new();
        let mut x: usize = 1;
        while x < width - 1
            invariant
                1 <= width <= MAX_SIDE && 1 <= height <= MAX_SIDE,
                w == width && h == height,
                tiles@ == t0,
                grid_shape(t0, w, h),
                map_wf(temp_map),
                temp_map.width == width && temp_map.height == height,
                forall|i: int, j: int| 0 <= i < w && 0 <= j < h ==> #[trigger] cell(temp_map.tiles@, i, j) == cell(t0, i, j),
                forall|i: int| 0 <= i < candidates@.len() ==> loop_candidate(t0, w, h, #[trigger] candidates@[i]),
                forall|i: int, j: int| 0 <= i < j < candidates@.len() ==> (#[trigger] candidates@[i]).2 >= (#[trigger] candidates@[j]).2,
                1 <= x <= width,
            decreases width - 1 - x,
        {
            let mut y: usize = 1;
            while y < height - 1
                invariant
                    1 <= width <= MAX_SIDE && 1 <= height <= MAX_SIDE,
                    w == width && h == height,
                    tiles@ == t0,
                    grid_shape(t0, w, h),
                    map_wf(temp_map),
                    temp_map.width == width && temp_map.height == height,
                    forall|i: int, j: int| 0 <= i < w && 0 <= j < h ==> #[trigger] cell(temp_map.tiles@, i, j) == cell(t0, i, j),
                    forall|i: int| 0 <= i < candidates@.len() ==> loop_candidate(t0, w, h, #[trigger] candidates@[i]),
                    forall|i: int, j: int| 0 <= i < j < candidates@.len() ==> (#[trigger] candidates@[i]).2 >= (#[trigger] candidates@[j]).2,
                    1 <= x < width - 1,
                    1 <= y <= height,
                decreases height - 1 - y,
            {
                if tiles[x][y] == Tile::Wall {
                    let floor_left = tiles[x - 1][y] == Tile::Floor;
                    let floor_right = tiles[x + 1][y] == Tile::Floor;
                    if floor_left && floor_right {
                        match temp_map.astar_distance((x - 1, y), (x + 1, y)) {
                            Some(d) => {
                                if d >= 15 {
                                    insert_by_length(&mut candidates, (x, y, d), Ghost(t0), Ghost(w), Ghost(h));
                                }
                            },
                            None => {},
                        }
                    }
                    let floor_up = tiles[x][y - 1] == Tile::Floor;
                    let floor_down = tiles[x][y + 1] == Tile::Floor;
                    if floor_up && floor_down {
                        match temp_map.astar_distance((x, y - 1), (x, y + 1)) {
                            Some(d) => {
                                if d >= 15 {
                                    insert_by_length(&mut candidates, (x, y, d), Ghost(t0), Ghost(w), Ghost(h));
                                }
                            },
                            None => {},
                        }
                    }
                }
                y = y + 1;
            }
            x = x + 1;
        }
        let mut loops_created: usize = 0;
        let mut k: usize = 0;
        proof {
            assert(changed_set(t0, tiles@, w, h) =~= Set::empty());
        }
        while k < candidates.len()
            invariant
                1 <= width <= MAX_SIDE && 1 <= height <= MAX_SIDE,
                w == width && h == height,
                grid_shape(t0, w, h),
                only_opened(t0, tiles@, w, h),
                forall|x: int, y: int| 0 <= x < w && 0 <= y < h && #[trigger] cell(tiles@, x, y) != cell(t0, x, y)
                    ==> thin_wall(t0, w, h, x, y),
                forall|i: int| 0 <= i < candidates@.len() ==> loop_candidate(t0, w, h, #[trigger] candidates@[i]),
                k <= candidates@.len(),
                loops_created <= k,
                loops_created <= target_loops,
                changed_set(t0, tiles@, w, h).len() == loops_created,
            decreases candidates@.len() - k,
        {
            if loops_created >= target_loops {
                break;
            }
            let (wx, wy, _d) = candidates[k];
            assert(loop_candidate(t0, w, h, candidates@[k as int]));
            if tiles[wx][wy] == Tile::Wall {
                let ghost before = tiles@;
                crate::map::set_cell(tiles, wx, wy, Tile::Floor);
                proof {
                    assert forall|x: int, y: int| 0 <= x < w && 0 <= y < h implies
                        #[trigger] cell(tiles@, x, y) == cell(t0, x, y) || (cell(t0, x, y) == Tile::Wall && cell(tiles@, x, y) == Tile::Floor) by {
                        assert(cell(before, x, y) == cell(t0, x, y) || (cell(t0, x, y) == Tile::Wall && cell(before, x, y) == Tile::Floor));
                    }
                    assert forall|x: int, y: int| 0 <= x < w && 0 <= y < h && #[trigger] cell(tiles@, x, y) != cell(t0, x, y)
                        implies thin_wall(t0, w, h, x, y) by {
                        if cell(before, x, y) == cell(t0, x, y) {
                            assert(x == wx && y == wy);
                        }
                    }
                    assert(cell(before, wx as int, wy as int) == cell(t0, wx as int, wy as int));
                    lemma_changed_grows(t0, before, tiles@, w, h, wx as int, wy as int);
                }
                loops_created = loops_created + 1;
            }
            k = k + 1;
        }
    }
}

impl DungeonMap {
    /// A new floor: rooms by binary space partitioning 4 deep on floors 1
    /// to 3, caves on floors 4 to 6, rooms 6 deep from floor 7 on (see
    /// `generate_bsp` and `generate_cave`); then 3 to 5 loops (see
    /// `create_loops`) and the clean-up (see `cleanup_dungeon`). Every room
    /// is of the normal type, nothing is placed and nothing seen yet. On a
    /// floor of rooms, every room's center can be walked to from the first
    /// room's center (see `joined`).
    pub fn new(width: usize, height: usize, floor: i32) -> (m: DungeonMap)
        requires
            1 <= width <= MAX_SIDE && 1 <= height <= MAX_SIDE,
            !(4 <= floor <= 6) ==> width >= 4 && height >= 4,
            floor > 6 && boss_floor(floor as int) ==> arena_fits(width as int, height as int),
        ensures
            map_wf(m),
            m.width == width && m.height == height,
            forall|i: int| 0 <= i < m.room_types@.len() ==> #[trigger] m.room_types@[i] == RoomType::Normal,
            empty_layers(m),
            plain_tiles(m.tiles@, width as int, height as int),
            m.rooms@.len() > 0 ==> cell(m.tiles@, rect_center(m.rooms@.last()).0 as int, rect_center(m.rooms@.last()).1 as int) == Tile::Stairs,
            !(4 <= floor <= 6) ==> forall|i: int, x: int, y: int| 0 <= i < m.rooms@.len() && #[trigger] room_holds(m.rooms@[i], x, y) ==>
                cell(m.tiles@, x, y) == Tile::Floor || cell(m.tiles@, x, y) == Tile::Stairs,
            !(4 <= floor <= 6) ==> forall|k: int| 0 <= k < m.rooms@.len() ==>
                joined(m.tiles@, width as int, height as int, center_of(m.rooms@[0]), center_of(#[trigger] m.rooms@[k])),
            !(4 <= floor <= 6) ==> forall|k: int| 0 <= k < m.rooms@.len() ==> (#[trigger] m.rooms@[k]).x2 >= 3 && m.rooms@[k].y2 >= 3,
            forall|x: int, y: int| 0 <= x < width && 0 <= y < height && #[trigger] cell(m.tiles@, x, y) == Tile::Stairs ==>
                m.rooms@.len() > 0 && x == rect_center(m.rooms@.last()).0 && y == rect_center(m.rooms@.last()).1,
    {
        let ghost w = width as int;
        let ghost h = height as int;
        let mut tiles = filled_grid(width, height, Tile::Wall);
        let ghost t0 = tiles@;
        let rooms = if floor <= 3 {
            DungeonMap::generate_bsp(&mut tiles, width, height, 4, floor)
        } else if floor <= 6 {
            DungeonMap::generate_cave(&mut tiles, width, height)
        } else {
            DungeonMap::generate_bsp(&mut tiles, width, height, 6, floor)
        };
        proof {
            assert forall|x: int, y: int| 0 <= x < w && 0 <= y < h implies {
                let c = #[trigger] cell(tiles@, x, y);
                c == Tile::Wall || c == Tile::Floor || c == Tile::Stairs
            } by {
                assert(cell(t0, x, y) == Tile::Wall);
            }
        }
        let ghost t1 = tiles@;
        let target_loops = 3 + random_below(3);
        DungeonMap::create_loops(&mut tiles, width, height, target_loops);
        let ghost t2 = tiles@;
        DungeonMap::cleanup_dungeon(&mut tiles, width, height);
        proof {
            assert forall|x: int, y: int| 0 <= x < w && 0 <= y < h implies {
                let c = #[trigger] cell(tiles@, x, y);
                &&& c == Tile::Wall || c == Tile::Floor || c == Tile::Stairs
                &&& (cell(t1, x, y) == Tile::Floor || cell(t1, x, y) == Tile::Stairs) ==> c == cell(t1, x, y)
            } by {
                assert(cell(t2, x, y) == cell(t1, x, y) || (cell(t1, x, y) == Tile::Wall && cell(t2, x, y) == Tile::Floor));
                assert(cell(tiles@, x, y) == cell(t2, x, y) || (cell(t2, x, y) == Tile::Wall && cell(tiles@, x, y) == Tile::Floor));
            }
            if rooms@.len() > 0 {
                let c = rect_center(rooms@.last());
                assert(rect_inside(rooms@[rooms@.len() - 1], w, h));
            }
            if !(4 <= floor <= 6) {
                assert forall|i: int, j: int| open_at(t1, w, h, i, j) implies #[trigger] open_at(tiles@, w, h, i, j) by {
                    assert(cell(tiles@, i, j) == Tile::Wall || cell(tiles@, i, j) == Tile::Floor || cell(tiles@, i, j) == Tile::Stairs);
                }
                lemma_chain_kept(t1, tiles@, w, h, rooms@);
                assert forall|k: int| 0 <= k < rooms@.len() implies
                    joined(tiles@, w, h, center_of(rooms@[0]), center_of(#[trigger] rooms@[k])) by {
                    lemma_chain_reaches(tiles@, w, h, rooms@, k);
                }
            }
        }
        DungeonMap::bare(width, height, tiles, rooms)
    }
}

} // verus!
