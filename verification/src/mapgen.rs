//! Building a dungeon floor: rooms split off by binary space partitioning
//! or caves grown by a cellular automaton, corridors between them, extra
//! loops, and a clean-up of awkward wall bits.
use vstd::prelude::*;
use crate::paths::{joined, lemma_joined_kept, lemma_joined_trans, lemma_walk_column, lemma_walk_join, lemma_walk_row, open_at, walk};
use crate::map::{DungeonMap, Rect, RoomType, Tile, grid_shape, map_wf, rect_center, rect_inside, room_holds, set_cell};
use vstd::arithmetic::power2::pow2;
use crate::rng::{random_below, random_ratio};

verus! {

/// Cell (x, y) of a layer.
pub open spec fn cell<T>(g: Seq<Vec<T>>, x: int, y: int) -> T {
    g[x]@[y]
}

/// `v` lies on the walk from `a` toward `b`, `b` itself left out.
pub open spec fn span(a: int, b: int, v: int) -> bool {
    if a <= b { a <= v < b } else { b < v <= a }
}

/// The cells a straight corridor `w` wide carves: along x from `from`
/// toward `to` at rows `fixed..fixed + w` (`horizontal`), or along y at
/// columns `fixed..fixed + w`.
pub open spec fn segment_cell(fixed: int, from: int, to: int, w: int, horizontal: bool, x: int, y: int) -> bool {
    if horizontal {
        span(from, to, x) && fixed <= y < fixed + w
    } else {
        span(from, to, y) && fixed <= x < fixed + w
    }
}

/// The L-shaped corridor from (x1, y1) to (x2, y2), `w` wide, along x first
/// or along y first.
pub open spec fn corridor_cell(x1: int, y1: int, x2: int, y2: int, w: int, horizontal_first: bool, x: int, y: int) -> bool {
    if horizontal_first {
        segment_cell(y1, x1, x2, w, true, x, y) || segment_cell(x2, y1, y2, w, false, x, y)
    } else {
        segment_cell(x1, y1, y2, w, false, x, y) || segment_cell(y2, x1, x2, w, true, x, y)
    }
}

/// Carving only ever turns cells into floor: every cell of `b` is the
/// cell of `a` or floor.
pub open spec fn only_floored(a: Seq<Vec<Tile>>, b: Seq<Vec<Tile>>, w: int, h: int) -> bool {
    &&& grid_shape(b, w, h)
    &&& forall|x: int, y: int| 0 <= x < w && 0 <= y < h ==>
        (#[trigger] cell(b, x, y) == cell(a, x, y) || cell(b, x, y) == Tile::Floor)
}

/// A `w` by `h` layer with `v` in every cell.
pub(crate) fn filled_grid<T: Copy>(w: usize, h: usize, v: T) -> (g: Vec<Vec<T>>)
    ensures
        grid_shape(g@, w as int, h as int),
        forall|x: int, y: int| 0 <= x < w && 0 <= y < h ==> #[trigger] cell(g@, x, y) == v,
{
    let mut g: Vec<Vec<T>> = Vec::new();
    let mut x: usize = 0;
    while x < w
        invariant
            x <= w,
            g@.len() == x,
            forall|i: int| 0 <= i < x ==> (#[trigger] g@[i])@.len() == h,
            forall|i: int, j: int| 0 <= i < x && 0 <= j < h ==> #[trigger] cell(g@, i, j) == v,
        decreases w - x,
    {
        let mut col: Vec<T> = Vec::new();
        let mut y: usize = 0;
        while y < h
            invariant
                y <= h,
                x < w,
                g@.len() == x,
                forall|i: int| 0 <= i < x ==> (#[trigger] g@[i])@.len() == h,
                forall|i: int, j: int| 0 <= i < x && 0 <= j < h ==> #[trigger] cell(g@, i, j) == v,
                col@.len() == y,
                forall|j: int| 0 <= j < y ==> #[trigger] col@[j] == v,
            decreases h - y,
        {
            col.push(v);
            y = y + 1;
        }
        let ghost prev = g@;
        g.push(col);
        proof {
            assert forall|i: int, j: int| 0 <= i < x + 1 && 0 <= j < h implies #[trigger] cell(g@, i, j) == v by {
                if i < x {
                    assert(g@[i] == prev[i]);
                    assert(cell(prev, i, j) == cell(g@, i, j));
                } else {
                    assert(g@[i]@[j] == col@[j]);
                }
            }
        }
        x = x + 1;
    }
    g
}

/// Fills the room with floor.
fn apply_room_to_map(tiles: &mut Vec<Vec<Tile>>, room: &Rect, Ghost(w): Ghost<int>, Ghost(h): Ghost<int>)
    requires
        grid_shape(old(tiles)@, w, h),
        rect_inside(*room, w, h),
    ensures
        grid_shape(final(tiles)@, w, h),
        forall|x: int, y: int| 0 <= x < w && 0 <= y < h ==>
            #[trigger] cell(final(tiles)@, x, y) == (if room_holds(*room, x, y) { Tile::Floor } else { cell(old(tiles)@, x, y) }),
{
    let ghost t0 = tiles@;
    let mut x = room.x1;
    while x < room.x2
        invariant
            grid_shape(tiles@, w, h),
            rect_inside(*room, w, h),
            room.x1 <= x <= room.x2,
            forall|i: int, j: int| 0 <= i < w && 0 <= j < h ==>
                #[trigger] cell(tiles@, i, j) == (if room.x1 <= i < x && room.y1 <= j < room.y2 { Tile::Floor } else { cell(t0, i, j) }),
        decreases room.x2 - x,
    {
        let mut y = room.y1;
        while y < room.y2
            invariant
                grid_shape(tiles@, w, h),
                rect_inside(*room, w, h),
                room.x1 <= x < room.x2,
                room.y1 <= y <= room.y2,
                forall|i: int, j: int| 0 <= i < w && 0 <= j < h ==>
                    #[trigger] cell(tiles@, i, j) == (if (room.x1 <= i < x && room.y1 <= j < room.y2) || (i == x && room.y1 <= j < y) { Tile::Floor } else { cell(t0, i, j) }),
            decreases room.y2 - y,
        {
            let ghost t1 = tiles@;
            set_cell(tiles, x, y, Tile::Floor);
            proof {
                assert forall|i: int, j: int| 0 <= i < w && 0 <= j < h implies #[trigger] cell(tiles@, i, j)
                    == (if (room.x1 <= i < x && room.y1 <= j < room.y2) || (i == x && room.y1 <= j < y + 1) { Tile::Floor } else { cell(t0, i, j) }) by {
                    assert(tiles@[i]@[j] == (if i == x && j == y { Tile::Floor } else { t1[i]@[j] }));
                    assert(cell(t1, i, j) == (if (room.x1 <= i < x && room.y1 <= j < room.y2) || (i == x && room.y1 <= j < y) { Tile::Floor } else { cell(t0, i, j) }));
                }
            }
            y = y + 1;
        }
        x = x + 1;
    }
}

/// Carves a straight corridor `w` wide (see `segment_cell`), skipping the
/// top row, the left column and anything off the map.
fn carve_segment(tiles: &mut Vec<Vec<Tile>>, fixed: i32, from: i32, to: i32, w: i32, horizontal: bool,
    Ghost(gw): Ghost<int>, Ghost(gh): Ghost<int>)
    requires
        1 <= gw <= 10_000 && 1 <= gh <= 10_000,
        grid_shape(old(tiles)@, gw, gh),
        -10 <= fixed <= 20_000 && -10 <= from <= 20_000 && -10 <= to <= 20_000,
        1 <= w <= 2,
    ensures
        grid_shape(final(tiles)@, gw, gh),
        forall|x: int, y: int| 0 <= x < gw && 0 <= y < gh ==>
            #[trigger] cell(final(tiles)@, x, y) == (if x > 0 && y > 0 && segment_cell(fixed as int, from as int, to as int, w as int, horizontal, x, y) {
                Tile::Floor
            } else {
                cell(old(tiles)@, x, y)
            }),
{
    let ghost t0 = tiles@;
    let mut c = from;
    while c != to
        invariant
            1 <= gw <= 10_000 && 1 <= gh <= 10_000,
            grid_shape(tiles@, gw, gh),
            -10 <= fixed <= 20_000 && -10 <= from <= 20_000 && -10 <= to <= 20_000,
            1 <= w <= 2,
            from <= to ==> from <= c <= to,
            from > to ==> to <= c <= from,
            forall|x: int, y: int| 0 <= x < gw && 0 <= y < gh ==>
                #[trigger] cell(tiles@, x, y) == (if x > 0 && y > 0 && segment_cell(fixed as int, from as int, c as int, w as int, horizontal, x, y) {
                    Tile::Floor
                } else {
                    cell(t0, x, y)
                }),
        decreases (if from <= to { to - c } else { c - to }),
    {
        let mut d: i32 = 0;
        while d < w
            invariant
                1 <= gw <= 10_000 && 1 <= gh <= 10_000,
                grid_shape(tiles@, gw, gh),
                -10 <= fixed <= 20_000 && -10 <= from <= 20_000 && -10 <= to <= 20_000,
                1 <= w <= 2,
                0 <= d <= w,
                from <= to ==> from <= c < to,
                from > to ==> to < c <= from,
                forall|x: int, y: int| 0 <= x < gw && 0 <= y < gh ==>
                    #[trigger] cell(tiles@, x, y) == (if x > 0 && y > 0 && (segment_cell(fixed as int, from as int, c as int, w as int, horizontal, x, y)
                        || (horizontal && x == c && fixed <= y < fixed + d) || (!horizontal && y == c && fixed <= x < fixed + d)) {
                        Tile::Floor
                    } else {
                        cell(t0, x, y)
                    }),
            decreases w - d,
        {
            let (tx, ty) = if horizontal { (c, fixed + d) } else { (fixed + d, c) };
            if tx > 0 && ty > 0 && (tx as usize) < tiles.len() && (ty as usize) < tiles[0].len() {
                set_cell(tiles, tx as usize, ty as usize, Tile::Floor);
            }
            d = d + 1;
        }
        c = if c < to { c + 1 } else { c - 1 };
    }
}

impl DungeonMap {
    /// Carves an L-shaped corridor between two room centers: 2 cells wide
    /// three times in ten, else 1, along x or along y first at even odds
    /// (see `corridor_cell`); the top row and left column stay as they are.
    fn connect_rooms(tiles: &mut Vec<Vec<Tile>>, x1: usize, y1: usize, x2: usize, y2: usize, Ghost(gw): Ghost<int>, Ghost(gh): Ghost<int>)
        requires
            1 <= gw <= 10_000 && 1 <= gh <= 10_000,
            grid_shape(old(tiles)@, gw, gh),
            x1 <= 10_000 && y1 <= 10_000 && x2 <= 10_000 && y2 <= 10_000,
        ensures
            grid_shape(final(tiles)@, gw, gh),
            exists|w: int, hf: bool| (w == 1 || w == 2) && #[trigger] corridor_done(old(tiles)@, final(tiles)@, gw, gh,
                x1 as int, y1 as int, x2 as int, y2 as int, w, hf),
    {
        let corridor_width: i32 = if random_ratio(3, 10) { 2 } else { 1 };
        let horizontal_first = random_ratio(1, 2);
        let ghost t0 = tiles@;
        if horizontal_first {
            carve_segment(tiles, y1 as i32, x1 as i32, x2 as i32, corridor_width, true, Ghost(gw), Ghost(gh));
            carve_segment(tiles, x2 as i32, y1 as i32, y2 as i32, corridor_width, false, Ghost(gw), Ghost(gh));
        } else {
            carve_segment(tiles, x1 as i32, y1 as i32, y2 as i32, corridor_width, false, Ghost(gw), Ghost(gh));
            carve_segment(tiles, y2 as i32, x1 as i32, x2 as i32, corridor_width, true, Ghost(gw), Ghost(gh));
        }
        assert(corridor_done(t0, tiles@, gw, gh, x1 as int, y1 as int, x2 as int, y2 as int, corridor_width as int, horizontal_first));
    }
}

/// `b` is `a` with the corridor carved.
pub open spec fn corridor_done(a: Seq<Vec<Tile>>, b: Seq<Vec<Tile>>, w: int, h: int,
    x1: int, y1: int, x2: int, y2: int, cw: int, hf: bool) -> bool {
    forall|x: int, y: int| 0 <= x < w && 0 <= y < h ==>
        #[trigger] cell(b, x, y) == (if x > 0 && y > 0 && corridor_cell(x1, y1, x2, y2, cw, hf, x, y) { Tile::Floor } else { cell(a, x, y) })
}


/// The room's center as a pair of integers.
pub open spec fn center_of(r: Rect) -> (int, int) {
    (rect_center(r).0 as int, rect_center(r).1 as int)
}

/// A room off the top row and the left column, at least one cell each way.
pub open spec fn room_fit(r: Rect) -> bool {
    r.x1 >= 1 && r.y1 >= 1 && r.x1 < r.x2 && r.y1 < r.y2
}

/// Each room's center is joined to the next room's by a walk over open
/// cells.
pub open spec fn chain_joined(t: Seq<Vec<Tile>>, w: int, h: int, rs: Seq<Rect>) -> bool {
    forall|k: int| 0 <= k < rs.len() - 1 ==> joined(t, w, h, center_of(#[trigger] rs[k]), center_of(rs[k + 1]))
}

/// Carving keeps open cells open.
pub proof fn lemma_open_kept(a: Seq<Vec<Tile>>, b: Seq<Vec<Tile>>, w: int, h: int)
    requires
        only_floored(a, b, w, h),
    ensures
        forall|i: int, j: int| open_at(a, w, h, i, j) ==> #[trigger] open_at(b, w, h, i, j),
{
    assert forall|i: int, j: int| open_at(a, w, h, i, j) implies #[trigger] open_at(b, w, h, i, j) by {
        assert(cell(b, i, j) == cell(a, i, j) || cell(b, i, j) == Tile::Floor);
    }
}

/// The chain stays joined under carving.
pub proof fn lemma_chain_kept(a: Seq<Vec<Tile>>, b: Seq<Vec<Tile>>, w: int, h: int, rs: Seq<Rect>)
    requires
        chain_joined(a, w, h, rs),
        forall|i: int, j: int| open_at(a, w, h, i, j) ==> #[trigger] open_at(b, w, h, i, j),
    ensures
        chain_joined(b, w, h, rs),
{
    assert forall|k: int| 0 <= k < rs.len() - 1 implies joined(b, w, h, center_of(#[trigger] rs[k]), center_of(rs[k + 1])) by {
        lemma_joined_kept(a, b, w, h, center_of(rs[k]), center_of(rs[k + 1]));
    }
}

/// Along a joined chain every room's center is joined to the first room's.
pub proof fn lemma_chain_reaches(t: Seq<Vec<Tile>>, w: int, h: int, rs: Seq<Rect>, k: int)
    requires
        chain_joined(t, w, h, rs),
        0 <= k < rs.len(),
    ensures
        joined(t, w, h, center_of(rs[0]), center_of(rs[k])),
    decreases k,
{
    if k == 0 {
        assert(walk(t, w, h, 0, center_of(rs[0]).0, center_of(rs[0]).1, center_of(rs[0]).0, center_of(rs[0]).1));
    } else {
        lemma_chain_reaches(t, w, h, rs, k - 1);
        assert(joined(t, w, h, center_of(rs[k - 1]), center_of(rs[k - 1 + 1])));
        lemma_joined_trans(t, w, h, center_of(rs[0]), center_of(rs[k - 1]), center_of(rs[k]));
    }
}

/// A room's center lies in the room, and off the top row and left column
/// when the room fits.
pub proof fn lemma_center_in(r: Rect)
    requires
        room_fit(r),
    ensures
        room_holds(r, center_of(r).0, center_of(r).1),
        center_of(r).0 >= 1 && center_of(r).1 >= 1,
{
}

/// An L-shaped corridor joins its two ends, the far end being open.
proof fn lemma_corridor_joins(a: Seq<Vec<Tile>>, b: Seq<Vec<Tile>>, w: int, h: int,
    x1: int, y1: int, x2: int, y2: int, cw: int, hf: bool)
    requires
        corridor_done(a, b, w, h, x1, y1, x2, y2, cw, hf),
        cw >= 1,
        1 <= x1 < w && 1 <= y1 < h && 1 <= x2 < w && 1 <= y2 < h,
        open_at(b, w, h, x2, y2),
    ensures
        joined(b, w, h, (x1, y1), (x2, y2)),
{
    if hf {
        assert forall|c: int| (if x1 <= x2 { x1 < c <= x2 } else { x2 <= c < x1 }) implies #[trigger] open_at(b, w, h, c, y1) by {
            if c == x2 && y1 != y2 {
                assert(corridor_cell(x1, y1, x2, y2, cw, hf, c, y1));
            } else if c != x2 {
                assert(corridor_cell(x1, y1, x2, y2, cw, hf, c, y1));
            }
        }
        lemma_walk_row(b, w, h, x1, y1, x2);
        assert forall|c: int| (if y1 <= y2 { y1 < c <= y2 } else { y2 <= c < y1 }) implies #[trigger] open_at(b, w, h, x2, c) by {
            if c != y2 {
                assert(corridor_cell(x1, y1, x2, y2, cw, hf, x2, c));
            }
        }
        lemma_walk_column(b, w, h, x2, y1, y2);
        let n = (if x1 <= x2 { x2 - x1 } else { x1 - x2 }) as nat;
        let m = (if y1 <= y2 { y2 - y1 } else { y1 - y2 }) as nat;
        lemma_walk_join(b, w, h, n, m, x1, y1, x2, y1, x2, y2);
        assert(walk(b, w, h, n + m, (x1, y1).0, (x1, y1).1, (x2, y2).0, (x2, y2).1));
    } else {
        assert forall|c: int| (if y1 <= y2 { y1 < c <= y2 } else { y2 <= c < y1 }) implies #[trigger] open_at(b, w, h, x1, c) by {
            if c == y2 && x1 != x2 {
                assert(corridor_cell(x1, y1, x2, y2, cw, hf, x1, c));
            } else if c != y2 {
                assert(corridor_cell(x1, y1, x2, y2, cw, hf, x1, c));
            }
        }
        lemma_walk_column(b, w, h, x1, y1, y2);
        assert forall|c: int| (if x1 <= x2 { x1 < c <= x2 } else { x2 <= c < x1 }) implies #[trigger] open_at(b, w, h, c, y2) by {
            if c != x2 {
                assert(corridor_cell(x1, y1, x2, y2, cw, hf, c, y2));
            }
        }
        lemma_walk_row(b, w, h, x1, y2, x2);
        let n = (if y1 <= y2 { y2 - y1 } else { y1 - y2 }) as nat;
        let m = (if x1 <= x2 { x2 - x1 } else { x1 - x2 }) as nat;
        lemma_walk_join(b, w, h, n, m, x1, y1, x1, y2, x2, y2);
        assert(walk(b, w, h, n + m, (x1, y1).0, (x1, y1).1, (x2, y2).0, (x2, y2).1));
    }
}

/// Every rectangle lies in the `w` by `h` map.
pub open spec fn rects_inside(rs: Seq<Rect>, w: int, h: int) -> bool {
    forall|i: int| 0 <= i < rs.len() ==> rect_inside(#[trigger] rs[i], w, h)
}

/// Every cell of every room is floor.
pub open spec fn rooms_floored(t: Seq<Vec<Tile>>, rs: Seq<Rect>) -> bool {
    forall|i: int, x: int, y: int| 0 <= i < rs.len() && #[trigger] room_holds(rs[i], x, y) ==> cell(t, x, y) == Tile::Floor
}

pub proof fn lemma_only_floored_trans(a: Seq<Vec<Tile>>, b: Seq<Vec<Tile>>, c: Seq<Vec<Tile>>, w: int, h: int)
    requires
        only_floored(a, b, w, h),
        only_floored(b, c, w, h),
    ensures
        only_floored(a, c, w, h),
{
    assert forall|x: int, y: int| 0 <= x < w && 0 <= y < h implies
        (#[trigger] cell(c, x, y) == cell(a, x, y) || cell(c, x, y) == Tile::Floor) by {
        assert(cell(b, x, y) == cell(a, x, y) || cell(b, x, y) == Tile::Floor);
    }
}

/// Carving floor keeps the rooms floored.
pub proof fn lemma_floored_kept(a: Seq<Vec<Tile>>, b: Seq<Vec<Tile>>, rs: Seq<Rect>, w: int, h: int)
    requires
        only_floored(a, b, w, h),
        rooms_floored(a, rs),
        rects_inside(rs, w, h),
    ensures
        rooms_floored(b, rs),
{
    assert forall|i: int, x: int, y: int| 0 <= i < rs.len() && #[trigger] room_holds(rs[i], x, y) implies cell(b, x, y) == Tile::Floor by {
        assert(rect_inside(rs[i], w, h));
        assert(cell(b, x, y) == cell(a, x, y) || cell(b, x, y) == Tile::Floor);
    }
}

/// A random number in `lo..=hi`.
fn random_between(lo: usize, hi: usize) -> (r: usize)
    requires
        lo <= hi < usize::MAX,
    ensures
        lo <= r <= hi,
{
    lo + random_below(hi - lo + 1)
}

/// The smaller of two sizes.
fn min_usize(a: usize, b: usize) -> (r: usize)
    ensures
        r == (if a < b { a } else { b }),
{
    if a < b { a } else { b }
}

/// The larger of two sizes.
fn max_usize(a: usize, b: usize) -> (r: usize)
    ensures
        r == (if a > b { a } else { b }),
{
    if a > b { a } else { b }
}

/// `a` and `b` are `r` cut at `at`: across (rows `y1..at` and `at..y2`)
/// when `horizontal`, else along (columns `x1..at` and `at..x2`), with at
/// least 5 cells on one side and more than 5 on the other.
pub open spec fn cut_into(r: Rect, a: Rect, b: Rect, horizontal: bool, at: int) -> bool {
    if horizontal {
        &&& r.y1 + 5 <= at < r.y2 - 5
        &&& a == (Rect { x1: r.x1, y1: r.y1, x2: r.x2, y2: at as usize })
        &&& b == (Rect { x1: r.x1, y1: at as usize, x2: r.x2, y2: r.y2 })
    } else {
        &&& r.x1 + 5 <= at < r.x2 - 5
        &&& a == (Rect { x1: r.x1, y1: r.y1, x2: at as usize, y2: r.y2 })
        &&& b == (Rect { x1: at as usize, y1: r.y1, x2: r.x2, y2: r.y2 })
    }
}

/// The way `r`, at least 10 by 10, may be cut: across unless it is more
/// than twice as wide as high, along unless it is more than twice as high
/// as wide.
pub open spec fn cut_allowed(r: Rect, horizontal: bool) -> bool {
    let rw = r.x2 - r.x1;
    let rh = r.y2 - r.y1;
    &&& rw >= 10 && rh >= 10
    &&& if horizontal { !(rw > rh * 2) } else { !(rh > rw * 2) }
}

/// `r` is always cut: at least 10 by 10, and more than 10 along each side
/// it may be cut across.
pub open spec fn must_cut(r: Rect) -> bool {
    let rw = r.x2 - r.x1;
    let rh = r.y2 - r.y1;
    &&& rw >= 10 && rh >= 10
    &&& if rw > rh * 2 { rw > 10 } else if rh > rw * 2 { rh > 10 } else { rw > 10 && rh > 10 }
}

/// `out` is `rs` after one round of partitioning, in order: each rectangle
/// either stays whole (never one that must be cut) or is replaced by its
/// two halves.
pub open spec fn split_result(rs: Seq<Rect>, out: Seq<Rect>) -> bool
    decreases rs.len(),
{
    if rs.len() == 0 {
        out.len() == 0
    } else {
        let r = rs.last();
        ||| !must_cut(r) && out.len() >= 1 && out.last() == r && split_result(rs.drop_last(), out.drop_last())
        ||| out.len() >= 2 && (exists|hz: bool, at: int| cut_allowed(r, hz) && #[trigger] cut_into(r, out[out.len() - 2], out.last(), hz, at))
            && split_result(rs.drop_last(), out.subrange(0, out.len() - 2))
    }
}

/// One round of binary space partitioning: each rectangle at least 10 by 10
/// is cut in two along its longer side (when one side is more than twice
/// the other; otherwise along a random one), at a random place at least 5
/// cells from each end. A rectangle too small to cut that way stays whole.
fn split_rects(rects: &Vec<Rect>, Ghost(w): Ghost<int>, Ghost(h): Ghost<int>) -> (r: Vec<Rect>)
    requires
        w <= 10_000 && h <= 10_000,
        rects_inside(rects@, w, h),
        rects@.len() <= 1_000_000,
    ensures
        rects_inside(r@, w, h),
        r@.len() <= 2 * rects@.len(),
        split_result(rects@, r@),
{
    let mut out: Vec<Rect> = Vec::new();
    let mut i: usize = 0;
    while i < rects.len()
        invariant
            w <= 10_000 && h <= 10_000,
            rects_inside(rects@, w, h),
            rects@.len() <= 1_000_000,
            i <= rects@.len(),
            rects_inside(out@, w, h),
            out@.len() <= 2 * i,
            split_result(rects@.subrange(0, i as int), out@),
        decreases rects@.len() - i,
    {
        let ghost o0 = out@;
        let ghost rs1 = rects@.subrange(0, i + 1);
        proof {
            assert(rs1.drop_last() =~= rects@.subrange(0, i as int));
            assert(rs1.last() == rects@[i as int]);
        }
        let r = rects[i];
        assert(rect_inside(rects@[i as int], w, h));
        let rw = r.x2 - r.x1;
        let rh = r.y2 - r.y1;
        if rw < 10 || rh < 10 {
            out.push(r);
            proof {
                assert(!must_cut(rs1.last()));
                assert(out@.drop_last() =~= o0);
                assert(split_result(rs1, out@));
            }
        } else {
            let split_horizontal = if rw > rh * 2 { false } else if rh > rw * 2 { true } else { random_ratio(1, 2) };
            if split_horizontal {
                if r.y1 + 5 < r.y2 - 5 {
                    let split = r.y1 + 5 + random_below(r.y2 - 5 - (r.y1 + 5));
                    if split <= r.y1 + 3 || split >= r.y2 - 3 {
                        out.push(r);
                    } else {
                        out.push(Rect { x1: r.x1, y1: r.y1, x2: r.x2, y2: split });
                        out.push(Rect { x1: r.x1, y1: split, x2: r.x2, y2: r.y2 });
                        proof {
                            assert(out@.subrange(0, out@.len() - 2) =~= o0);
                            assert(cut_allowed(rs1.last(), true));
                            assert(cut_into(rs1.last(), out@[out@.len() - 2], out@.last(), true, split as int));
                            assert(split_result(rs1, out@));
                        }
                    }
                } else {
                    out.push(r);
                proof {
                assert(!must_cut(rs1.last()));
                assert(out@.drop_last() =~= o0);
                assert(split_result(rs1, out@));
            }
                }
            } else {
                if r.x1 + 5 < r.x2 - 5 {
                    let split = r.x1 + 5 + random_below(r.x2 - 5 - (r.x1 + 5));
                    if split <= r.x1 + 3 || split >= r.x2 - 3 {
                        out.push(r);
                    } else {
                        out.push(Rect { x1: r.x1, y1: r.y1, x2: split, y2: r.y2 });
                        out.push(Rect { x1: split, y1: r.y1, x2: r.x2, y2: r.y2 });
                        proof {
                            assert(out@.subrange(0, out@.len() - 2) =~= o0);
                            assert(cut_allowed(rs1.last(), false));
                            assert(cut_into(rs1.last(), out@[out@.len() - 2], out@.last(), false, split as int));
                            assert(split_result(rs1, out@));
                        }
                    }
                } else {
                    out.push(r);
                proof {
                assert(!must_cut(rs1.last()));
                assert(out@.drop_last() =~= o0);
                assert(split_result(rs1, out@));
            }
                }
            }
        }
        i = i + 1;
    }
    proof { assert(rects@.subrange(0, rects@.len() as int) =~= rects@); }
    out
}

/// The larger of two integers.
pub open spec fn max_int(a: int, b: int) -> int {
    if a > b { a } else { b }
}

/// The least and greatest room sizes on a map `width` wide: 6 to 18 wide
/// and 5 to 14 high per 120 columns, at least 6 to 10 wide and 5 to 8 high.
pub open spec fn room_sizes(width: int) -> (int, int, int, int) {
    (max_int(6 * width / 120, 6), max_int(5 * width / 120, 5), max_int(18 * width / 120, 10), max_int(14 * width / 120, 8))
}

/// A rectangle with room for a room: the least room size and a cell on
/// each side.
pub open spec fn fits_room(r: Rect, width: int) -> bool {
    r.x2 - r.x1 >= room_sizes(width).0 + 2 && r.y2 - r.y1 >= room_sizes(width).1 + 2
}

/// `room` is a room placed in rectangle `r`: between the least and the
/// greatest room size and at least one cell inside `r` all round.
pub open spec fn room_in_rect(room: Rect, r: Rect, width: int) -> bool {
    let sz = room_sizes(width);
    &&& sz.0 <= room.x2 - room.x1 <= sz.2 && sz.1 <= room.y2 - room.y1 <= sz.3
    &&& r.x1 + 1 <= room.x1 && room.x2 + 1 <= r.x2
    &&& r.y1 + 1 <= room.y1 && room.y2 + 1 <= r.y2
}

/// `rooms` holds one room for each rectangle of `rs` that has room for
/// one, in order, each placed in its rectangle.
pub open spec fn rooms_from(rs: Seq<Rect>, rooms: Seq<Rect>, width: int) -> bool
    decreases rs.len(),
{
    if rs.len() == 0 {
        rooms.len() == 0
    } else if fits_room(rs.last(), width) {
        rooms.len() >= 1 && room_in_rect(rooms.last(), rs.last(), width) && rooms_from(rs.drop_last(), rooms.drop_last(), width)
    } else {
        rooms_from(rs.drop_last(), rooms, width)
    }
}

/// (x, y) lies in one of the rooms.
pub open spec fn in_some_room(rs: Seq<Rect>, x: int, y: int) -> bool {
    exists|i: int| 0 <= i < rs.len() && #[trigger] room_holds(rs[i], x, y)
}

/// `r` lies within `b`.
pub open spec fn rect_within(r: Rect, b: Rect) -> bool {
    b.x1 <= r.x1 && r.x2 <= b.x2 && b.y1 <= r.y1 && r.y2 <= b.y2
}

/// Partitioning keeps the rectangles within any box that held them.
pub proof fn lemma_split_within(rs: Seq<Rect>, out: Seq<Rect>, b: Rect)
    requires
        split_result(rs, out),
        forall|i: int| 0 <= i < rs.len() ==> rect_within(#[trigger] rs[i], b),
    ensures
        forall|i: int| 0 <= i < out.len() ==> rect_within(#[trigger] out[i], b),
    decreases rs.len(),
{
    if rs.len() > 0 {
        let r = rs.last();
        assert(rect_within(rs[rs.len() - 1], b));
        assert forall|i: int| 0 <= i < rs.drop_last().len() implies rect_within(#[trigger] rs.drop_last()[i], b) by {
            assert(rs.drop_last()[i] == rs[i]);
        }
        if !must_cut(r) && out.len() >= 1 && out.last() == r && split_result(rs.drop_last(), out.drop_last()) {
            lemma_split_within(rs.drop_last(), out.drop_last(), b);
            assert forall|i: int| 0 <= i < out.len() implies rect_within(#[trigger] out[i], b) by {
                if i < out.len() - 1 {
                    assert(out[i] == out.drop_last()[i]);
                }
            }
        } else {
            let pre = out.subrange(0, out.len() - 2);
            lemma_split_within(rs.drop_last(), pre, b);
            let (hz, at) = choose|hz: bool, at: int| cut_allowed(r, hz) && #[trigger] cut_into(r, out[out.len() - 2], out.last(), hz, at);
            assert forall|i: int| 0 <= i < out.len() implies rect_within(#[trigger] out[i], b) by {
                if i < out.len() - 2 {
                    assert(out[i] == pre[i]);
                }
            }
        }
    }
}

/// Rooms placed in rectangles within a box lie within the box.
pub proof fn lemma_rooms_within(rs: Seq<Rect>, rooms: Seq<Rect>, width: int, b: Rect)
    requires
        rooms_from(rs, rooms, width),
        forall|i: int| 0 <= i < rs.len() ==> rect_within(#[trigger] rs[i], b),
    ensures
        forall|i: int| 0 <= i < rooms.len() ==> rect_within(#[trigger] rooms[i], b),
    decreases rs.len(),
{
    if rs.len() > 0 {
        assert(rect_within(rs[rs.len() - 1], b));
        assert forall|i: int| 0 <= i < rs.drop_last().len() implies rect_within(#[trigger] rs.drop_last()[i], b) by {
            assert(rs.drop_last()[i] == rs[i]);
        }
        if fits_room(rs.last(), width) {
            lemma_rooms_within(rs.drop_last(), rooms.drop_last(), width, b);
            assert forall|i: int| 0 <= i < rooms.len() implies rect_within(#[trigger] rooms[i], b) by {
                if i < rooms.len() - 1 {
                    assert(rooms[i] == rooms.drop_last()[i]);
                }
            }
        } else {
            lemma_rooms_within(rs.drop_last(), rooms, width, b);
        }
    }
}

/// A random room in each rectangle big enough for one: between the least
/// and the greatest room size (scaled to the map's width), one cell inside
/// the rectangle, and carved as floor.
fn place_rooms(tiles: &mut Vec<Vec<Tile>>, rects: &Vec<Rect>, width: usize, Ghost(h): Ghost<int>) -> (rooms: Vec<Rect>)
    requires
        1 <= width <= 10_000 && 1 <= h <= 10_000,
        grid_shape(old(tiles)@, width as int, h),
        rects_inside(rects@, width as int, h),
    ensures
        grid_shape(final(tiles)@, width as int, h),
        only_floored(old(tiles)@, final(tiles)@, width as int, h),
        rects_inside(rooms@, width as int, h),
        rooms_floored(final(tiles)@, rooms@),
        forall|i: int| 0 <= i < rooms@.len() ==> (#[trigger] rooms@[i]).x2 - rooms@[i].x1 >= 6 && rooms@[i].y2 - rooms@[i].y1 >= 5,
        forall|i: int| 0 <= i < rooms@.len() ==> (#[trigger] rooms@[i]).x1 >= 1 && rooms@[i].y1 >= 1,
        rooms@.len() <= rects@.len(),
        rooms_from(rects@, rooms@, width as int),
        forall|x: int, y: int| 0 <= x < width && 0 <= y < h && !in_some_room(rooms@, x, y) ==>
            #[trigger] cell(final(tiles)@, x, y) == cell(old(tiles)@, x, y),
{
    let ghost t0 = tiles@;
    let min_room_w = max_usize(6 * width / 120, 6);
    let min_room_h = max_usize(5 * width / 120, 5);
    let max_room_w = max_usize(18 * width / 120, 10);
    let max_room_h = max_usize(14 * width / 120, 8);
    let mut rooms: Vec<Rect> = Vec::new();
    proof {
        assert(t0.subrange(0, t0.len() as int) =~= t0);
    }
    let mut i: usize = 0;
    while i < rects.len()
        invariant
            1 <= width <= 10_000 && 1 <= h <= 10_000,
            6 <= min_room_w <= max_room_w <= 1_500,
            5 <= min_room_h <= max_room_h <= 1_200,
            grid_shape(tiles@, width as int, h),
            only_floored(t0, tiles@, width as int, h),
            rects_inside(rects@, width as int, h),
            rects_inside(rooms@, width as int, h),
            rooms_floored(tiles@, rooms@),
            forall|j: int| 0 <= j < rooms@.len() ==> (#[trigger] rooms@[j]).x2 - rooms@[j].x1 >= 6 && rooms@[j].y2 - rooms@[j].y1 >= 5,
            forall|j: int| 0 <= j < rooms@.len() ==> (#[trigger] rooms@[j]).x1 >= 1 && rooms@[j].y1 >= 1,
            i <= rects@.len(),
            rooms@.len() <= i,
            min_room_w == room_sizes(width as int).0 && min_room_h == room_sizes(width as int).1,
            max_room_w == room_sizes(width as int).2 && max_room_h == room_sizes(width as int).3,
            rooms_from(rects@.subrange(0, i as int), rooms@, width as int),
            forall|x: int, y: int| 0 <= x < width && 0 <= y < h && !in_some_room(rooms@, x, y) ==>
                #[trigger] cell(tiles@, x, y) == cell(t0, x, y),
        decreases rects@.len() - i,
    {
        let ghost rs1 = rects@.subrange(0, i + 1);
        let ghost r0 = rooms@;
        proof {
            assert(rs1.drop_last() =~= rects@.subrange(0, i as int));
            assert(rs1.last() == rects@[i as int]);
        }
        let rect = rects[i];
        assert(rect_inside(rects@[i as int], width as int, h));
        let rw = rect.x2 - rect.x1;
        let rh = rect.y2 - rect.y1;
        if !(rw < min_room_w + 2 || rh < min_room_h + 2) {
            let room_w = random_between(min_room_w, min_usize(max_room_w, rw - 2));
            let room_h = random_between(min_room_h, min_usize(max_room_h, rh - 2));
            let room_x = random_between(rect.x1 + 1, rect.x2 - (room_w + 1));
            let room_y = random_between(rect.y1 + 1, rect.y2 - (room_h + 1));
            let room = Rect::new(room_x, room_y, room_w, room_h);
            let ghost t1 = tiles@;
            apply_room_to_map(tiles, &room, Ghost(width as int), Ghost(h));
            proof {
                assert(only_floored(t1, tiles@, width as int, h));
                lemma_only_floored_trans(t0, t1, tiles@, width as int, h);
                lemma_floored_kept(t1, tiles@, rooms@, width as int, h);
            }
            rooms.push(room);
            proof {
                assert forall|j: int, x: int, y: int| 0 <= j < rooms@.len() && #[trigger] room_holds(rooms@[j], x, y)
                    implies cell(tiles@, x, y) == Tile::Floor by {
                    if j < rooms@.len() - 1 {
                        assert(rooms@[j] == rooms@.drop_last()[j]);
                    }
                }
                assert(rooms@.drop_last() =~= r0);
                assert(fits_room(rs1.last(), width as int));
                assert(room_in_rect(rooms@.last(), rs1.last(), width as int));
                assert(rooms_from(rs1, rooms@, width as int));
                assert forall|x: int, y: int| 0 <= x < width && 0 <= y < h && !in_some_room(rooms@, x, y) implies
                    #[trigger] cell(tiles@, x, y) == cell(t0, x, y) by {
                    assert(!room_holds(rooms@[rooms@.len() - 1], x, y));
                    if in_some_room(r0, x, y) {
                        let j = choose|j: int| 0 <= j < r0.len() && #[trigger] room_holds(r0[j], x, y);
                        assert(rooms@[j] == r0[j]);
                    }
                    assert(cell(t1, x, y) == cell(t0, x, y));
                }
            }
        } else {
            proof {
                assert(!fits_room(rs1.last(), width as int));
                assert(rooms_from(rs1, rooms@, width as int));
            }
        }
        i = i + 1;
    }
    proof { assert(rects@.subrange(0, rects@.len() as int) =~= rects@); }
    rooms
}


/// A carved corridor only turns cells into floor.
pub proof fn lemma_corridor_floored(a: Seq<Vec<Tile>>, b: Seq<Vec<Tile>>, w: int, h: int,
    x1: int, y1: int, x2: int, y2: int, cw: int, hf: bool)
    requires
        grid_shape(b, w, h),
        corridor_done(a, b, w, h, x1, y1, x2, y2, cw, hf),
    ensures
        only_floored(a, b, w, h),
{
}

/// Connects (x1, y1) to (x2, y2) by a corridor; the rooms stay floored.
fn join(tiles: &mut Vec<Vec<Tile>>, x1: usize, y1: usize, x2: usize, y2: usize, Ghost(w): Ghost<int>, Ghost(h): Ghost<int>,
    Ghost(rooms): Ghost<Seq<Rect>>)
    requires
        1 <= w <= 10_000 && 1 <= h <= 10_000,
        grid_shape(old(tiles)@, w, h),
        x1 <= 10_000 && y1 <= 10_000 && x2 <= 10_000 && y2 <= 10_000,
        rects_inside(rooms, w, h),
        rooms_floored(old(tiles)@, rooms),
    ensures
        grid_shape(final(tiles)@, w, h),
        only_floored(old(tiles)@, final(tiles)@, w, h),
        rooms_floored(final(tiles)@, rooms),
        1 <= x1 < w && 1 <= y1 < h && 1 <= x2 < w && 1 <= y2 < h && open_at(final(tiles)@, w, h, x2 as int, y2 as int)
            ==> joined(final(tiles)@, w, h, (x1 as int, y1 as int), (x2 as int, y2 as int)),
{
    let ghost t0 = tiles@;
    DungeonMap::connect_rooms(tiles, x1, y1, x2, y2, Ghost(w), Ghost(h));
    proof {
        let (cw, hf) = choose|cw: int, hf: bool| (cw == 1 || cw == 2) && #[trigger] corridor_done(t0, tiles@, w, h,
            x1 as int, y1 as int, x2 as int, y2 as int, cw, hf);
        lemma_corridor_floored(t0, tiles@, w, h, x1 as int, y1 as int, x2 as int, y2 as int, cw, hf);
        lemma_floored_kept(t0, tiles@, rooms, w, h);
        if 1 <= x1 < w && 1 <= y1 < h && 1 <= x2 < w && 1 <= y2 < h && open_at(tiles@, w, h, x2 as int, y2 as int) {
            lemma_corridor_joins(t0, tiles@, w, h, x1 as int, y1 as int, x2 as int, y2 as int, cw, hf);
        }
    }
}

/// Corridors between each room and the next (room centers joined in
/// order); the rooms of `kept` stay floored.
pub(crate) fn connect_chain(tiles: &mut Vec<Vec<Tile>>, rooms: &Vec<Rect>, Ghost(w): Ghost<int>, Ghost(h): Ghost<int>,
    Ghost(kept): Ghost<Seq<Rect>>)
    requires
        1 <= w <= 10_000 && 1 <= h <= 10_000,
        grid_shape(old(tiles)@, w, h),
        rects_inside(rooms@, w, h),
        rects_inside(kept, w, h),
        rooms_floored(old(tiles)@, kept),
    ensures
        grid_shape(final(tiles)@, w, h),
        only_floored(old(tiles)@, final(tiles)@, w, h),
        rooms_floored(final(tiles)@, kept),
        (forall|i: int| 0 <= i < rooms@.len() ==> room_fit(#[trigger] rooms@[i])
            && open_at(old(tiles)@, w, h, center_of(rooms@[i]).0, center_of(rooms@[i]).1))
            ==> chain_joined(final(tiles)@, w, h, rooms@),
{
    let ghost t0 = tiles@;
    let ghost fit = forall|i: int| 0 <= i < rooms@.len() ==> room_fit(#[trigger] rooms@[i])
        && open_at(t0, w, h, center_of(rooms@[i]).0, center_of(rooms@[i]).1);
    proof { assert forall|x: int, y: int| 0 <= x < w && 0 <= y < h implies
        (#[trigger] cell(t0, x, y) == cell(t0, x, y) || cell(t0, x, y) == Tile::Floor) by {} }
    if rooms.len() > 1 {
        let mut i: usize = 0;
        while i < rooms.len() - 1
            invariant
                1 <= w <= 10_000 && 1 <= h <= 10_000,
                grid_shape(tiles@, w, h),
                rects_inside(rooms@, w, h),
                rects_inside(kept, w, h),
                rooms_floored(tiles@, kept),
                only_floored(t0, tiles@, w, h),
                rooms@.len() > 1,
                i <= rooms@.len() - 1,
                fit == (forall|i: int| 0 <= i < rooms@.len() ==> room_fit(#[trigger] rooms@[i])
                    && open_at(t0, w, h, center_of(rooms@[i]).0, center_of(rooms@[i]).1)),
                fit ==> forall|k: int| 0 <= k < i ==> joined(tiles@, w, h, center_of(#[trigger] rooms@[k]), center_of(rooms@[k + 1])),
            decreases rooms@.len() - 1 - i,
        {
            assert(rect_inside(rooms@[i as int], w, h) && rect_inside(rooms@[i + 1], w, h));
            let (x1, y1) = rooms[i].center();
            let (x2, y2) = rooms[i + 1].center();
            let ghost t1 = tiles@;
            join(tiles, x1, y1, x2, y2, Ghost(w), Ghost(h), Ghost(kept));
            proof {
                lemma_only_floored_trans(t0, t1, tiles@, w, h);
                if fit {
                    lemma_open_kept(t1, tiles@, w, h);
                    lemma_open_kept(t0, tiles@, w, h);
                    assert(room_fit(rooms@[i as int]) && room_fit(rooms@[i + 1]));
                    lemma_center_in(rooms@[i as int]);
                    lemma_center_in(rooms@[i + 1]);
                    assert(open_at(t0, w, h, center_of(rooms@[i + 1]).0, center_of(rooms@[i + 1]).1));
                    assert forall|k: int| 0 <= k < i + 1 implies joined(tiles@, w, h, center_of(#[trigger] rooms@[k]), center_of(rooms@[k + 1])) by {
                        if k < i {
                            lemma_joined_kept(t1, tiles@, w, h, center_of(rooms@[k]), center_of(rooms@[k + 1]));
                        }
                    }
                }
            }
            i = i + 1;
        }
    }
}

/// Corridors between each room and the next; then, among four rooms or
/// more, each pair of rooms at least two apart whose corners are less than
/// 30 steps apart is joined one time in five.
fn connect_all(tiles: &mut Vec<Vec<Tile>>, rooms: &Vec<Rect>, Ghost(w): Ghost<int>, Ghost(h): Ghost<int>)
    requires
        1 <= w <= 10_000 && 1 <= h <= 10_000,
        grid_shape(old(tiles)@, w, h),
        rects_inside(rooms@, w, h),
        rooms_floored(old(tiles)@, rooms@),
        rooms@.len() <= 1_000_000,
    ensures
        grid_shape(final(tiles)@, w, h),
        only_floored(old(tiles)@, final(tiles)@, w, h),
        rooms_floored(final(tiles)@, rooms@),
        (forall|i: int| 0 <= i < rooms@.len() ==> room_fit(#[trigger] rooms@[i])) ==> chain_joined(final(tiles)@, w, h, rooms@),
{
    let ghost t0 = tiles@;
    let ghost fit = forall|i: int| 0 <= i < rooms@.len() ==> room_fit(#[trigger] rooms@[i]);
    proof {
        if fit {
            assert forall|i: int| 0 <= i < rooms@.len() implies room_fit(#[trigger] rooms@[i])
                && open_at(t0, w, h, center_of(rooms@[i]).0, center_of(rooms@[i]).1) by {
                lemma_center_in(rooms@[i]);
                assert(rect_inside(rooms@[i], w, h));
            }
        }
    }
    connect_chain(tiles, rooms, Ghost(w), Ghost(h), Ghost(rooms@));
    let ghost tc = tiles@;
    if rooms.len() > 3 {
        let mut i: usize = 0;
        while i < rooms.len()
            invariant
                1 <= w <= 10_000 && 1 <= h <= 10_000,
                grid_shape(tiles@, w, h),
                rects_inside(rooms@, w, h),
                rooms_floored(tiles@, rooms@),
                only_floored(t0, tiles@, w, h),
                i <= rooms@.len(),
                rooms@.len() <= 1_000_000,
                fit ==> chain_joined(tiles@, w, h, rooms@),
            decreases rooms@.len() - i,
        {
            let mut j: usize = i + 2;
            while j < rooms.len()
                invariant
                    1 <= w <= 10_000 && 1 <= h <= 10_000,
                    grid_shape(tiles@, w, h),
                    rects_inside(rooms@, w, h),
                    rooms_floored(tiles@, rooms@),
                    only_floored(t0, tiles@, w, h),
                    i < rooms@.len(),
                    rooms@.len() <= 1_000_000,
                    i + 2 <= j,
                    fit ==> chain_joined(tiles@, w, h, rooms@),
                decreases rooms@.len() - j,
            {
                assert(rect_inside(rooms@[i as int], w, h) && rect_inside(rooms@[j as int], w, h));
                let d = DungeonMap::distance(rooms[i].x1, rooms[i].y1, rooms[j].x1, rooms[j].y1);
                if d < 30 && random_ratio(1, 5) {
                    let (x1, y1) = rooms[i].center();
                    let (x2, y2) = rooms[j].center();
                    let ghost t1 = tiles@;
                    join(tiles, x1, y1, x2, y2, Ghost(w), Ghost(h), Ghost(rooms@));
                    proof {
                        lemma_only_floored_trans(t0, t1, tiles@, w, h);
                        if fit {
                            lemma_open_kept(t1, tiles@, w, h);
                            lemma_chain_kept(t1, tiles@, w, h, rooms@);
                        }
                    }
                }
                j = j + 1;
            }
            i = i + 1;
        }
    }
}

/// `x` kept between `lo` and `hi`.
pub open spec fn clamp_int(x: int, lo: int, hi: int) -> int {
    if x < lo { lo } else if x > hi { hi } else { x }
}

/// The boss arena (18 to 24 by 12 to 16 cells, scaled to the width) fits
/// with 2 cells to spare on each side.
pub open spec fn arena_fits(width: int, height: int) -> bool {
    &&& width >= clamp_int(20 * width / 120, 18, 24) + 4
    &&& height >= clamp_int(14 * width / 120, 12, 16) + 4
}

/// Whether a floor has a boss: floors 5 and 10, and every fifth floor from
/// 15 on.
pub open spec fn boss_floor(floor: int) -> bool {
    floor == 5 || floor == 10 || (floor >= 15 && floor % 5 == 0)
}

/// `x` kept between `lo` and `hi`.
fn clamp_i32(x: i32, lo: i32, hi: i32) -> (r: i32)
    requires
        lo <= hi,
    ensures
        r == (if x < lo { lo } else if x > hi { hi } else { x }),
{
    if x < lo { lo } else if x > hi { hi } else { x }
}

/// A random offset of `lo..hi` cells in a random direction (+ or -).
fn random_offset(lo: usize, hi: usize) -> (r: i32)
    requires
        lo < hi <= 100,
    ensures
        lo <= r <= hi || -(hi as int) <= r <= -(lo as int),
{
    let v = (lo + random_below(hi - lo)) as i32;
    if random_ratio(1, 2) { v } else { -v }
}

/// The partition behind a floor of rooms: `chain` holds the rectangles
/// before each round, from the padded map `pad` alone through `depth`
/// rounds of cutting (see `split_result`), and `placed` holds one room for
/// each final rectangle that has room for one (see `rooms_from`).
pub open spec fn bsp_history(chain: Seq<Seq<Rect>>, placed: Seq<Rect>, pad: Rect, depth: int, width: int) -> bool {
    &&& chain.len() == depth + 1
    &&& chain[0] == seq![pad]
    &&& forall|k: int| 0 <= k < depth ==> #[trigger] split_result(chain[k], chain[k + 1])
    &&& rooms_from(chain[depth], placed, width)
}

impl DungeonMap {
    /// Rooms by binary space partitioning (see `split_rects` and
    /// `place_rooms`), joined by corridors (see `connect_all`). On a boss
    /// floor with more than two rooms a boss arena (18 to 24 by 12 to 16
    /// cells, scaled to the map's width) is carved 8 to 14 cells across and
    /// 6 to 11 down (either way) from the last room, kept 2 cells from the
    /// edges, and joined to it. The stairs go in the middle of the last
    /// room (the arena, when there is one).
    #[verifier::rlimit(80)]
    #[verifier::spinoff_prover]
    pub(crate) fn generate_bsp(tiles: &mut Vec<Vec<Tile>>, width: usize, height: usize, split_depth: i32, floor: i32) -> (rooms: Vec<Rect>)
        requires
            4 <= width <= 10_000 && 4 <= height <= 10_000,
            grid_shape(old(tiles)@, width as int, height as int),
            0 <= split_depth <= 10,
            boss_floor(floor as int) ==> arena_fits(width as int, height as int),
        ensures
            grid_shape(final(tiles)@, width as int, height as int),
            rects_inside(rooms@, width as int, height as int),
            forall|x: int, y: int| 0 <= x < width && 0 <= y < height ==>
                (#[trigger] cell(final(tiles)@, x, y) == cell(old(tiles)@, x, y) || cell(final(tiles)@, x, y) == Tile::Floor
                    || cell(final(tiles)@, x, y) == Tile::Stairs),
            forall|i: int, x: int, y: int| 0 <= i < rooms@.len() && #[trigger] room_holds(rooms@[i], x, y) ==>
                cell(final(tiles)@, x, y) == Tile::Floor || cell(final(tiles)@, x, y) == Tile::Stairs,
            rooms@.len() > 0 ==> cell(final(tiles)@, rect_center(rooms@.last()).0 as int, rect_center(rooms@.last()).1 as int) == Tile::Stairs,
            rooms@.len() > 0 ==> rect_center(rooms@.last()).0 < width && rect_center(rooms@.last()).1 < height,
            forall|i: int| 0 <= i < rooms@.len() ==> room_fit(#[trigger] rooms@[i]),
            forall|i: int| 0 <= i < rooms@.len() ==> (#[trigger] rooms@[i]).x2 >= 3 && rooms@[i].y2 >= 3,
            chain_joined(final(tiles)@, width as int, height as int, rooms@),
            forall|i: int| 0 <= i < rooms@.len() ==> rect_within(#[trigger] rooms@[i],
                Rect { x1: 2, y1: 2, x2: (width - 2) as usize, y2: (height - 2) as usize }),
            split_depth == 0 && fits_room(Rect { x1: 2, y1: 2, x2: (width - 2) as usize, y2: (height - 2) as usize }, width as int)
                ==> rooms@.len() >= 1,
            forall|x: int, y: int| 0 <= x < width && 0 <= y < height && #[trigger] cell(final(tiles)@, x, y) == Tile::Stairs ==>
                cell(old(tiles)@, x, y) == Tile::Stairs
                    || (rooms@.len() > 0 && x == rect_center(rooms@.last()).0 && y == rect_center(rooms@.last()).1),
            exists|chain: Seq<Seq<Rect>>, placed: Seq<Rect>|
                #[trigger] bsp_history(chain, placed, Rect { x1: 2, y1: 2, x2: (width - 2) as usize, y2: (height - 2) as usize },
                    split_depth as int, width as int)
                && rooms@.subrange(0, placed.len() as int) == placed
                && (rooms@.len() == placed.len() || (rooms@.len() == placed.len() + 1 && boss_floor(floor as int) && placed.len() > 2)),
    {
        let ghost w = width as int;
        let ghost h = height as int;
        let ghost t0 = tiles@;
        let padding: usize = 2;
        let mut rects: Vec<Rect> = Vec::new();
        rects.push(Rect::new(padding, padding, width - padding * 2, height - padding * 2));
        let ghost pad = Rect { x1: 2, y1: 2, x2: (width - 2) as usize, y2: (height - 2) as usize };
        proof { assert(rects@ =~= seq![pad]); }
        let ghost mut chain: Seq<Seq<Rect>> = seq![seq![pad]];
        let mut depth: i32 = 0;
        proof { vstd::arithmetic::power2::lemma2_to64(); }
        while depth < split_depth
            invariant
                width <= 10_000 && height <= 10_000,
                w == width && h == height,
                rects_inside(rects@, w, h),
                rects@.len() <= 1024 * 1024,
                0 <= depth <= split_depth <= 10,
                rects@.len() <= pow2(depth as nat),
                forall|i: int| 0 <= i < rects@.len() ==> rect_within(#[trigger] rects@[i], pad),
                depth == 0 ==> rects@ == seq![pad],
                chain.len() == depth + 1 && chain[0] == seq![pad] && chain.last() == rects@,
                forall|k: int| 0 <= k < depth ==> #[trigger] split_result(chain[k], chain[k + 1]),
            decreases split_depth - depth,
        {
            proof { vstd::arithmetic::power2::lemma2_to64(); }
            let ghost before = rects@;
            rects = split_rects(&rects, Ghost(w), Ghost(h));
            proof {
                lemma_split_within(before, rects@, pad);
                let c0 = chain;
                chain = chain.push(rects@);
                assert forall|k: int| 0 <= k < depth + 1 implies #[trigger] split_result(chain[k], chain[k + 1]) by {
                    if k < depth {
                        assert(chain[k] == c0[k] && chain[k + 1] == c0[k + 1]);
                    } else {
                        assert(chain[k] == before);
                    }
                }
            }
            depth = depth + 1;
        }
        proof {
            if depth < 10 {
                vstd::arithmetic::power2::lemma_pow2_strictly_increases(depth as nat, 10);
            }
            assert(pow2(10) == 1024) by { vstd::arithmetic::power2::lemma2_to64(); }
        }
        let mut rooms = place_rooms(tiles, &rects, width, Ghost(h));
        let ghost placed = rooms@;
        proof {
            assert(bsp_history(chain, placed, pad, split_depth as int, width as int));
            assert(rooms@.subrange(0, placed.len() as int) =~= placed);
        }
        proof {
            lemma_rooms_within(rects@, rooms@, width as int, pad);
            if split_depth == 0 && fits_room(pad, width as int) {
                assert(rects@ == seq![pad]);
                assert(rects@.last() == pad);
                assert(rooms@.len() >= 1);
            }
        }
        let ghost t1 = tiles@;
        connect_all(tiles, &rooms, Ghost(w), Ghost(h));
        proof {
            lemma_only_floored_trans(t0, t1, tiles@, w, h);
            assert forall|i: int| 0 <= i < rooms@.len() implies room_fit(#[trigger] rooms@[i]) by {}
        }
        let is_boss_floor = floor == 5 || floor == 10 || (floor >= 15 && floor % 5 == 0);
        if is_boss_floor && rooms.len() > 2 {
            let arena_w = clamp_i32((20 * width / 120) as i32, 18, 24) as usize;
            let arena_h = clamp_i32((14 * width / 120) as i32, 12, 16) as usize;
            let last = rooms.len() - 1;
            assert(rect_inside(rooms@[last as int], w, h));
            let (px, py) = rooms[last].center();
            let off_x = random_offset(8, 15);
            let arena_x = clamp_i32(px as i32 + off_x, 2, (width - arena_w - 2) as i32) as usize;
            let off_y = random_offset(6, 12);
            let arena_y = clamp_i32(py as i32 + off_y, 2, (height - arena_h - 2) as i32) as usize;
            let boss_room = Rect::new(arena_x, arena_y, arena_w, arena_h);
            let ghost t2 = tiles@;
            apply_room_to_map(tiles, &boss_room, Ghost(w), Ghost(h));
            proof {
                assert(only_floored(t2, tiles@, w, h));
                lemma_only_floored_trans(t0, t2, tiles@, w, h);
                lemma_floored_kept(t2, tiles@, rooms@, w, h);
                lemma_open_kept(t2, tiles@, w, h);
                lemma_chain_kept(t2, tiles@, w, h, rooms@);
                assert(room_fit(boss_room));
                lemma_center_in(boss_room);
            }
            let (bx, by) = boss_room.center();
            let ghost t3 = tiles@;
            proof {
                assert(room_fit(rooms@[last as int]));
                lemma_center_in(rooms@[last as int]);
                assert(cell(t3, bx as int, by as int) == Tile::Floor);
            }
            join(tiles, px, py, bx, by, Ghost(w), Ghost(h), Ghost(rooms@));
            proof {
                lemma_only_floored_trans(t0, t3, tiles@, w, h);
                lemma_open_kept(t3, tiles@, w, h);
                lemma_chain_kept(t3, tiles@, w, h, rooms@);
                assert(open_at(tiles@, w, h, bx as int, by as int));
                assert(joined(tiles@, w, h, center_of(rooms@[last as int]), center_of(boss_room)));
            }
            let ghost r0 = rooms@;
            rooms.push(boss_room);
            proof {
                assert forall|k: int| 0 <= k < rooms@.len() - 1 implies
                    joined(tiles@, w, h, center_of(#[trigger] rooms@[k]), center_of(rooms@[k + 1])) by {
                    if k < r0.len() - 1 {
                        assert(rooms@[k] == r0[k] && rooms@[k + 1] == r0[k + 1]);
                    } else {
                        assert(rooms@[k] == r0[last as int] && rooms@[k + 1] == boss_room);
                    }
                }
                assert forall|i: int| 0 <= i < rooms@.len() implies room_fit(#[trigger] rooms@[i])
                    && rooms@[i].x2 >= 3 && rooms@[i].y2 >= 3 && rect_within(rooms@[i], pad) by {
                    if i < r0.len() {
                        assert(rooms@[i] == r0[i]);
                    }
                }
                assert forall|j: int, x: int, y: int| 0 <= j < rooms@.len() && #[trigger] room_holds(rooms@[j], x, y)
                    implies cell(tiles@, x, y) == Tile::Floor by {
                    if j < rooms@.len() - 1 {
                        assert(rooms@[j] == rooms@.drop_last()[j]);
                    } else {
                        assert(cell(t3, x, y) == Tile::Floor);
                    }
                }
            }
        }
        let ghost t4 = tiles@;
        if rooms.len() > 0 {
            let last = rooms.len() - 1;
            assert(rect_inside(rooms@[last as int], w, h));
            let (sx, sy) = rooms[last].center();
            if sx < width && sy < height {
                set_cell(tiles, sx, sy, Tile::Stairs);
            }
        }
        proof {
            assert forall|i: int, j: int| open_at(t4, w, h, i, j) implies #[trigger] open_at(tiles@, w, h, i, j) by {}
            lemma_chain_kept(t4, tiles@, w, h, rooms@);
        }
        proof {
            assert forall|x: int, y: int| 0 <= x < width && 0 <= y < height implies
                (#[trigger] cell(tiles@, x, y) == cell(t0, x, y) || cell(tiles@, x, y) == Tile::Floor
                    || cell(tiles@, x, y) == Tile::Stairs) by {
                assert(cell(t4, x, y) == cell(t0, x, y) || cell(t4, x, y) == Tile::Floor);
            }
            assert forall|x: int, y: int| 0 <= x < width && 0 <= y < height && #[trigger] cell(tiles@, x, y) == Tile::Stairs implies
                cell(t0, x, y) == Tile::Stairs
                    || (rooms@.len() > 0 && x == rect_center(rooms@.last()).0 && y == rect_center(rooms@.last()).1) by {
                assert(cell(t4, x, y) == cell(t0, x, y) || cell(t4, x, y) == Tile::Floor);
            }
        }
        rooms
    }
}

} // verus!
