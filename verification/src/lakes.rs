//! Lakes: blobs of deep water, lava or chasm grown by a cellular automaton
//! and placed in rooms only where a flood over the floor left outside the
//! blob still reaches as many cells as lie open off the map's border.
use vstd::prelude::*;
use crate::map::{DungeonMap, Tile, grid_shape, in_bounds, map_wf, rect_inside, set_cell, tile_at, MAX_SIDE};
use crate::mapgen::{cell, filled_grid};
use crate::caves::{lemma_mark_grows, lemma_seen_bounded, seen_set};
use crate::rng::{random_below, random_ratio};

verus! {

/// 1 for a live cell of the blob or a cell off its edge, 0 otherwise.
pub open spec fn live_bit(g: Seq<Vec<bool>>, w: int, h: int, x: int, y: int) -> int {
    if !(0 <= x < w && 0 <= y < h) || cell(g, x, y) { 1 } else { 0 }
}

/// The live neighbours of a blob cell, cells off the edge counted live.
pub open spec fn live_around(g: Seq<Vec<bool>>, w: int, h: int, x: int, y: int) -> int {
    live_bit(g, w, h, x - 1, y - 1) + live_bit(g, w, h, x, y - 1) + live_bit(g, w, h, x + 1, y - 1)
        + live_bit(g, w, h, x - 1, y) + live_bit(g, w, h, x + 1, y)
        + live_bit(g, w, h, x - 1, y + 1) + live_bit(g, w, h, x, y + 1) + live_bit(g, w, h, x + 1, y + 1)
}

/// One step of the blob automaton: a cell lives with five live neighbours
/// or more, or with four when it was alive.
pub open spec fn blob_next(g: Seq<Vec<bool>>, w: int, h: int, x: int, y: int) -> bool {
    live_around(g, w, h, x, y) >= 5 || (cell(g, x, y) && live_around(g, w, h, x, y) >= 4)
}

/// Whether the neighbour (x + dx - 1, y + dy - 1) counts as live, as 1 or 0.
fn live_at(g: &Vec<Vec<bool>>, w: usize, h: usize, x: usize, y: usize, dx: usize, dy: usize) -> (b: u32)
    requires
        grid_shape(g@, w as int, h as int),
        x < w && y < h && w <= MAX_SIDE && h <= MAX_SIDE,
        dx <= 2 && dy <= 2,
    ensures
        b == live_bit(g@, w as int, h as int, x + dx - 1, y + dy - 1),
{
    if x + dx < 1 || y + dy < 1 || x + dx - 1 >= w || y + dy - 1 >= h {
        1
    } else if g[x + dx - 1][y + dy - 1] {
        1
    } else {
        0
    }
}

/// One step of the blob automaton over the whole blob (see `blob_next`).
fn blob_step(g: &Vec<Vec<bool>>, w: usize, h: usize) -> (out: Vec<Vec<bool>>)
    requires
        grid_shape(g@, w as int, h as int),
        w <= MAX_SIDE && h <= MAX_SIDE,
    ensures
        grid_shape(out@, w as int, h as int),
        forall|x: int, y: int| 0 <= x < w && 0 <= y < h ==> #[trigger] cell(out@, x, y) == blob_next(g@, w as int, h as int, x, y),
{
    let mut out: Vec<Vec<bool>> = Vec::new();
    let mut x: usize = 0;
    while x < w
        invariant
            grid_shape(g@, w as int, h as int),
            w <= MAX_SIDE && h <= MAX_SIDE,
            x <= w,
            out@.len() == x,
            forall|i: int| 0 <= i < x ==> (#[trigger] out@[i])@.len() == h,
            forall|i: int, j: int| 0 <= i < x && 0 <= j < h ==> #[trigger] cell(out@, i, j) == blob_next(g@, w as int, h as int, i, j),
        decreases w - x,
    {
        let mut col: Vec<bool> = Vec::new();
        let mut y: usize = 0;
        while y < h
            invariant
                grid_shape(g@, w as int, h as int),
                w <= MAX_SIDE && h <= MAX_SIDE,
                x < w,
                y <= h,
                out@.len() == x,
                forall|i: int| 0 <= i < x ==> (#[trigger] out@[i])@.len() == h,
                forall|i: int, j: int| 0 <= i < x && 0 <= j < h ==> #[trigger] cell(out@, i, j) == blob_next(g@, w as int, h as int, i, j),
                col@.len() == y,
                forall|j: int| 0 <= j < y ==> #[trigger] col@[j] == blob_next(g@, w as int, h as int, x as int, j),
            decreases h - y,
        {
            let n = live_at(g, w, h, x, y, 0, 0) + live_at(g, w, h, x, y, 1, 0) + live_at(g, w, h, x, y, 2, 0)
                + live_at(g, w, h, x, y, 0, 1) + live_at(g, w, h, x, y, 2, 1)
                + live_at(g, w, h, x, y, 0, 2) + live_at(g, w, h, x, y, 1, 2) + live_at(g, w, h, x, y, 2, 2);
            col.push(n >= 5 || (g[x][y] && n >= 4));
            y = y + 1;
        }
        let ghost prev = out@;
        out.push(col);
        proof {
            assert forall|i: int, j: int| 0 <= i < x + 1 && 0 <= j < h implies #[trigger] cell(out@, i, j) == blob_next(g@, w as int, h as int, i, j) by {
                if i < x {
                    assert(out@[i] == prev[i]);
                    assert(cell(prev, i, j) == cell(out@, i, j));
                } else {
                    assert(out@[i]@[j] == col@[j]);
                }
            }
        }
        x = x + 1;
    }
    out
}

impl DungeonMap {
    /// A blob for a lake: each cell alive `num` times in `den`, then
    /// `iterations` steps of the automaton (see `blob_step`).
    fn generate_ca_blob(&self, width: usize, height: usize, num: u32, den: u32, iterations: usize) -> (g: Vec<Vec<bool>>)
        requires
            width <= MAX_SIDE && height <= MAX_SIDE,
            0 < den && num <= den,
        ensures
            grid_shape(g@, width as int, height as int),
    {
        let mut grid: Vec<Vec<bool>> = Vec::new();
        let mut x: usize = 0;
        while x < width
            invariant
                x <= width,
                grid@.len() == x,
                forall|i: int| 0 <= i < x ==> (#[trigger] grid@[i])@.len() == height,
                0 < den && num <= den,
            decreases width - x,
        {
            let mut col: Vec<bool> = Vec::new();
            let mut y: usize = 0;
            while y < height
                invariant
                    y <= height,
                    col@.len() == y,
                    0 < den && num <= den,
                decreases height - y,
            {
                col.push(random_ratio(num, den));
                y = y + 1;
            }
            let ghost prev = grid@;
            grid.push(col);
            proof {
                assert forall|i: int| 0 <= i < x + 1 implies (#[trigger] grid@[i])@.len() == height by {
                    if i < x {
                        assert(grid@[i] == prev[i]);
                    }
                }
            }
            x = x + 1;
        }
        let mut k: usize = 0;
        while k < iterations
            invariant
                grid_shape(grid@, width as int, height as int),
                width <= MAX_SIDE && height <= MAX_SIDE,
            decreases iterations - k,
        {
            grid = blob_step(&grid, width, height);
            k = k + 1;
        }
        grid
    }
}

/// A cell a flood may enter: on the map, floor, and not in the lake.
pub open spec fn open_cell(m: DungeonMap, lake: Seq<Vec<bool>>, x: int, y: int) -> bool {
    in_bounds(m, x, y) && tile_at(m, x, y) == Tile::Floor && !cell(lake, x, y)
}

/// The cell (x, y) is taken care of: not open, visited, or on the stack.
pub open spec fn nbr_done(m: DungeonMap, lake: Seq<Vec<bool>>, v: Seq<Vec<bool>>, s: Seq<(usize, usize)>, x: int, y: int) -> bool {
    !open_cell(m, lake, x, y) || cell(v, x, y) || s.contains((x as usize, y as usize))
}

/// Every visited cell has its side neighbours taken care of.
pub open spec fn frontier_ok(m: DungeonMap, lake: Seq<Vec<bool>>, v: Seq<Vec<bool>>, s: Seq<(usize, usize)>) -> bool {
    forall|x: int, y: int| in_bounds(m, x, y) && #[trigger] cell(v, x, y) ==> {
        &&& nbr_done(m, lake, v, s, x - 1, y)
        &&& nbr_done(m, lake, v, s, x + 1, y)
        &&& nbr_done(m, lake, v, s, x, y - 1)
        &&& nbr_done(m, lake, v, s, x, y + 1)
    }
}

/// A flood's result: visited cells are open, the start is visited when it
/// is open, and the visited cells are closed under side steps to open
/// cells, so that no open cell outside them is reachable from the start.
pub open spec fn flood_done(m: DungeonMap, lake: Seq<Vec<bool>>, sx: int, sy: int, v: Seq<Vec<bool>>) -> bool {
    &&& grid_shape(v, m.width as int, m.height as int)
    &&& forall|x: int, y: int| in_bounds(m, x, y) && #[trigger] cell(v, x, y) ==> open_cell(m, lake, x, y)
    &&& open_cell(m, lake, sx, sy) ==> cell(v, sx, sy)
    &&& frontier_ok(m, lake, v, Seq::empty())
}

/// The cell (x, y) is open and joined to the open start (sx, sy) by a walk
/// of at most n side steps over open cells.
pub open spec fn reach_in(m: DungeonMap, lake: Seq<Vec<bool>>, sx: int, sy: int, n: nat, x: int, y: int) -> bool
    decreases n,
{
    open_cell(m, lake, x, y) && (
        (x == sx && y == sy) || (n > 0 && (
            reach_in(m, lake, sx, sy, (n - 1) as nat, x - 1, y)
            || reach_in(m, lake, sx, sy, (n - 1) as nat, x + 1, y)
            || reach_in(m, lake, sx, sy, (n - 1) as nat, x, y - 1)
            || reach_in(m, lake, sx, sy, (n - 1) as nat, x, y + 1))))
}

/// The cell (x, y) is joined to the start by some walk over open cells.
pub open spec fn reachable(m: DungeonMap, lake: Seq<Vec<bool>>, sx: int, sy: int, x: int, y: int) -> bool {
    exists|n: nat| reach_in(m, lake, sx, sy, n, x, y)
}

/// The indices (x * height + y) of the cells reachable from the start.
pub open spec fn reach_set(m: DungeonMap, lake: Seq<Vec<bool>>, sx: int, sy: int) -> Set<int> {
    Set::new(|k: int| 0 <= k < m.width * m.height
        && reachable(m, lake, sx, sy, k / (m.height as int), k % (m.height as int)))
}

/// A stack entry is the start, or a side neighbour of a visited cell.
pub open spec fn fed(m: DungeonMap, v: Seq<Vec<bool>>, sx: int, sy: int, p: (usize, usize)) -> bool {
    let (x, y) = (p.0 as int, p.1 as int);
    ||| x == sx && y == sy
    ||| in_bounds(m, x - 1, y) && cell(v, x - 1, y)
    ||| in_bounds(m, x + 1, y) && cell(v, x + 1, y)
    ||| in_bounds(m, x, y - 1) && cell(v, x, y - 1)
    ||| in_bounds(m, x, y + 1) && cell(v, x, y + 1)
}

/// A finished flood holds every cell that a walk from the start reaches.
proof fn lemma_reach_flooded(m: DungeonMap, lake: Seq<Vec<bool>>, sx: int, sy: int, v: Seq<Vec<bool>>, n: nat, x: int, y: int)
    requires
        flood_done(m, lake, sx, sy, v),
        reach_in(m, lake, sx, sy, n, x, y),
    ensures
        cell(v, x, y),
    decreases n,
{
    if x == sx && y == sy {
    } else {
        let k = (n - 1) as nat;
        if reach_in(m, lake, sx, sy, k, x - 1, y) {
            lemma_reach_flooded(m, lake, sx, sy, v, k, x - 1, y);
            assert(nbr_done(m, lake, v, Seq::empty(), x - 1 + 1, y));
        } else if reach_in(m, lake, sx, sy, k, x + 1, y) {
            lemma_reach_flooded(m, lake, sx, sy, v, k, x + 1, y);
            assert(nbr_done(m, lake, v, Seq::empty(), x + 1 - 1, y));
        } else if reach_in(m, lake, sx, sy, k, x, y - 1) {
            lemma_reach_flooded(m, lake, sx, sy, v, k, x, y - 1);
            assert(nbr_done(m, lake, v, Seq::empty(), x, y - 1 + 1));
        } else {
            assert(reach_in(m, lake, sx, sy, k, x, y + 1));
            assert(open_cell(m, lake, x, y + 1));
            lemma_reach_flooded(m, lake, sx, sy, v, k, x, y + 1);
            assert(nbr_done(m, lake, v, Seq::empty(), x, y + 1 - 1));
        }
    }
}

/// An open cell fed by the start or by a reachable neighbour is reachable.
proof fn lemma_fed_reachable(m: DungeonMap, lake: Seq<Vec<bool>>, v: Seq<Vec<bool>>, sx: int, sy: int, p: (usize, usize))
    requires
        fed(m, v, sx, sy, p),
        open_cell(m, lake, p.0 as int, p.1 as int),
        forall|x: int, y: int| in_bounds(m, x, y) && #[trigger] cell(v, x, y) ==> reachable(m, lake, sx, sy, x, y),
    ensures
        reachable(m, lake, sx, sy, p.0 as int, p.1 as int),
{
    let (x, y) = (p.0 as int, p.1 as int);
    if x == sx && y == sy {
        assert(reach_in(m, lake, sx, sy, 0, x, y));
    } else {
        let (qx, qy) = if in_bounds(m, x - 1, y) && cell(v, x - 1, y) {
            (x - 1, y)
        } else if in_bounds(m, x + 1, y) && cell(v, x + 1, y) {
            (x + 1, y)
        } else if in_bounds(m, x, y - 1) && cell(v, x, y - 1) {
            (x, y - 1)
        } else {
            (x, y + 1)
        };
        assert(cell(v, qx, qy));
        let n = choose|n: nat| reach_in(m, lake, sx, sy, n, qx, qy);
        assert(reach_in(m, lake, sx, sy, n + 1, x, y));
    }
}

proof fn lemma_contains_drop_last(s: Seq<(usize, usize)>, p: (usize, usize))
    requires
        s.len() > 0,
        s.contains(p),
        p != s.last(),
    ensures
        s.drop_last().contains(p),
{
    let j = choose|j: int| 0 <= j < s.len() && s[j] == p;
    assert(s.drop_last()[j] == p);
}

proof fn lemma_contains_push(s: Seq<(usize, usize)>, a: (usize, usize), p: (usize, usize))
    requires
        s.contains(p) || p == a,
    ensures
        s.push(a).contains(p),
{
    if p == a {
        assert(s.push(a)[s.len() as int] == a);
    } else {
        let j = choose|j: int| 0 <= j < s.len() && s[j] == p;
        assert(s.push(a)[j] == p);
    }
}

/// Popping a cell that needs no visit keeps the frontier taken care of.
proof fn lemma_frontier_discard(m: DungeonMap, lake: Seq<Vec<bool>>, v: Seq<Vec<bool>>, s: Seq<(usize, usize)>)
    requires
        s.len() > 0,
        frontier_ok(m, lake, v, s),
        !open_cell(m, lake, s.last().0 as int, s.last().1 as int) || cell(v, s.last().0 as int, s.last().1 as int),
        m.width <= MAX_SIDE && m.height <= MAX_SIDE,
    ensures
        frontier_ok(m, lake, v, s.drop_last()),
{
    let u = s.last();
    assert forall|x: int, y: int| in_bounds(m, x, y) && #[trigger] cell(v, x, y) implies {
        &&& nbr_done(m, lake, v, s.drop_last(), x - 1, y)
        &&& nbr_done(m, lake, v, s.drop_last(), x + 1, y)
        &&& nbr_done(m, lake, v, s.drop_last(), x, y - 1)
        &&& nbr_done(m, lake, v, s.drop_last(), x, y + 1)
    } by {
        let ns = seq![(x - 1, y), (x + 1, y), (x, y - 1), (x, y + 1)];
        assert forall|k: int| 0 <= k < 4 implies nbr_done(m, lake, v, s.drop_last(), #[trigger] ns[k].0, ns[k].1) by {
            let (nx, ny) = ns[k];
            assert(nbr_done(m, lake, v, s, nx, ny));
            if open_cell(m, lake, nx, ny) && !cell(v, nx, ny) {
                let p = (nx as usize, ny as usize);
                if p == u {
                    assert(nx == u.0 && ny == u.1);
                } else {
                    lemma_contains_drop_last(s, p);
                }
            }
        }
        assert(nbr_done(m, lake, v, s.drop_last(), ns[0].0, ns[0].1));
        assert(nbr_done(m, lake, v, s.drop_last(), ns[1].0, ns[1].1));
        assert(nbr_done(m, lake, v, s.drop_last(), ns[2].0, ns[2].1));
        assert(nbr_done(m, lake, v, s.drop_last(), ns[3].0, ns[3].1));
    }
}

/// Visiting the popped cell `u` and pushing its side neighbours on the map
/// keeps the frontier taken care of.
proof fn lemma_frontier_visit(m: DungeonMap, lake: Seq<Vec<bool>>, v: Seq<Vec<bool>>, v2: Seq<Vec<bool>>,
    s: Seq<(usize, usize)>, s2: Seq<(usize, usize)>, u: (usize, usize))
    requires
        m.width <= MAX_SIDE && m.height <= MAX_SIDE,
        s.len() > 0,
        u == s.last(),
        in_bounds(m, u.0 as int, u.1 as int),
        frontier_ok(m, lake, v, s),
        forall|x: int, y: int| in_bounds(m, x, y) ==> #[trigger] cell(v2, x, y) == (cell(v, x, y) || (x == u.0 && y == u.1)),
        forall|p: (usize, usize)| s.drop_last().contains(p) ==> #[trigger] s2.contains(p),
        u.0 > 0 ==> s2.contains(((u.0 - 1) as usize, u.1)),
        u.0 + 1 < m.width ==> s2.contains(((u.0 + 1) as usize, u.1)),
        u.1 > 0 ==> s2.contains((u.0, (u.1 - 1) as usize)),
        u.1 + 1 < m.height ==> s2.contains((u.0, (u.1 + 1) as usize)),
    ensures
        frontier_ok(m, lake, v2, s2),
{
    assert forall|x: int, y: int| in_bounds(m, x, y) && #[trigger] cell(v2, x, y) implies {
        &&& nbr_done(m, lake, v2, s2, x - 1, y)
        &&& nbr_done(m, lake, v2, s2, x + 1, y)
        &&& nbr_done(m, lake, v2, s2, x, y - 1)
        &&& nbr_done(m, lake, v2, s2, x, y + 1)
    } by {
        let ns = seq![(x - 1, y), (x + 1, y), (x, y - 1), (x, y + 1)];
        assert forall|k: int| 0 <= k < 4 implies nbr_done(m, lake, v2, s2, #[trigger] ns[k].0, ns[k].1) by {
            let (nx, ny) = ns[k];
            if open_cell(m, lake, nx, ny) && !cell(v2, nx, ny) {
                let p = (nx as usize, ny as usize);
                if x == u.0 && y == u.1 {
                } else {
                    assert(cell(v, x, y));
                    assert(nbr_done(m, lake, v, s, nx, ny));
                    assert(!cell(v, nx, ny));
                    assert(p != u);
                    lemma_contains_drop_last(s, p);
                }
            }
        }
        assert(nbr_done(m, lake, v2, s2, ns[0].0, ns[0].1));
        assert(nbr_done(m, lake, v2, s2, ns[1].0, ns[1].1));
        assert(nbr_done(m, lake, v2, s2, ns[2].0, ns[2].1));
        assert(nbr_done(m, lake, v2, s2, ns[3].0, ns[3].1));
    }
}

impl DungeonMap {
    /// Floods from (start_x, start_y) over open cells (see `open_cell`) by
    /// side steps; returns how many cells it reached, and which (see
    /// `flood_done`).
    fn flood_fill_count(&self, start_x: usize, start_y: usize, lake: &Vec<Vec<bool>>) -> (r: (usize, Ghost<Seq<Vec<bool>>>))
        requires
            map_wf(*self),
            grid_shape(lake@, self.width as int, self.height as int),
        ensures
            flood_done(*self, lake@, start_x as int, start_y as int, r.1@),
            forall|x: int, y: int| #![trigger cell(r.1@, x, y)] #![trigger reachable(*self, lake@, start_x as int, start_y as int, x, y)]
                in_bounds(*self, x, y) ==> (cell(r.1@, x, y) <==> reachable(*self, lake@, start_x as int, start_y as int, x, y)),
            r.0 == seen_set(r.1@, self.width as int, self.height as int).len(),
            r.0 == reach_set(*self, lake@, start_x as int, start_y as int).len(),
    {
        let w = self.width;
        let h = self.height;
        let ghost wi = w as int;
        let ghost hi = h as int;
        let mut visited: Vec<Vec<bool>> = filled_grid(w, h, false);
        let mut stack: Vec<(usize, usize)> = Vec::new();
        stack.push((start_x, start_y));
        let mut count: usize = 0;
        proof {
            lemma_seen_bounded(visited@, wi, hi);
            assert forall|k: int| !#[trigger] seen_set(visited@, wi, hi).contains(k) by {
                if 0 <= k < wi * hi {
                    crate::map::lemma_cell_index_of(k, hi, wi);
                }
            }
            assert(seen_set(visited@, wi, hi) =~= Set::empty());
            assert(wi * hi <= 100_000_000) by (nonlinear_arith)
                requires 1 <= wi <= 10_000, 1 <= hi <= 10_000;
            assert(stack@[0] == (start_x, start_y));
            assert(stack@.contains((start_x, start_y)));
        }
        while stack.len() > 0
            invariant
                map_wf(*self),
                w == self.width && h == self.height && wi == w && hi == h,
                grid_shape(lake@, wi, hi),
                grid_shape(visited@, wi, hi),
                forall|x: int, y: int| in_bounds(*self, x, y) && #[trigger] cell(visited@, x, y) ==> open_cell(*self, lake@, x, y),
                open_cell(*self, lake@, start_x as int, start_y as int) ==>
                    cell(visited@, start_x as int, start_y as int) || stack@.contains((start_x, start_y)),
                frontier_ok(*self, lake@, visited@, stack@),
                forall|x: int, y: int| in_bounds(*self, x, y) && #[trigger] cell(visited@, x, y) ==>
                    reachable(*self, lake@, start_x as int, start_y as int, x, y),
                forall|i: int| 0 <= i < stack@.len() ==> fed(*self, visited@, start_x as int, start_y as int, #[trigger] stack@[i]),
                seen_set(visited@, wi, hi).finite(),
                seen_set(visited@, wi, hi).len() <= wi * hi,
                wi * hi <= 100_000_000,
                count == seen_set(visited@, wi, hi).len(),
            decreases wi * hi - seen_set(visited@, wi, hi).len(), stack@.len(),
        {
            let ghost s = stack@;
            let (x, y) = stack.pop().unwrap();
            assert((x, y) == s.last());
            if x >= w || y >= h || visited[x][y] || lake[x][y] || self.tiles[x][y] != Tile::Floor {
                proof {
                    lemma_frontier_discard(*self, lake@, visited@, s);
                    if open_cell(*self, lake@, start_x as int, start_y as int) && !cell(visited@, start_x as int, start_y as int) {
                        lemma_contains_drop_last(s, (start_x, start_y));
                    }
                    assert forall|i: int| 0 <= i < stack@.len() implies fed(*self, visited@, start_x as int, start_y as int, #[trigger] stack@[i]) by {
                        assert(stack@[i] == s[i]);
                    }
                }
            } else {
                let ghost v0 = visited@;
                proof {
                    assert(fed(*self, v0, start_x as int, start_y as int, s[s.len() - 1]));
                    lemma_fed_reachable(*self, lake@, v0, start_x as int, start_y as int, (x, y));
                }
                set_cell(&mut visited, x, y, true);
                proof {
                    lemma_mark_grows(v0, visited@, wi, hi, x as int, y as int);
                    lemma_seen_bounded(visited@, wi, hi);
                }
                count = count + 1;
                let ghost s1 = stack@;
                if x > 0 {
                    stack.push(((x - 1) as usize, y));
                }
                let ghost s2 = stack@;
                if x < w - 1 {
                    stack.push(((x + 1) as usize, y));
                }
                let ghost s3 = stack@;
                if y > 0 {
                    stack.push((x, (y - 1) as usize));
                }
                let ghost s4 = stack@;
                if y < h - 1 {
                    stack.push((x, (y + 1) as usize));
                }
                proof {
                    assert forall|p: (usize, usize)| s1.contains(p) || (x > 0 && p == ((x - 1) as usize, y)) implies #[trigger] s2.contains(p) by {
                        if x > 0 { lemma_contains_push(s1, ((x - 1) as usize, y), p); }
                    }
                    assert forall|p: (usize, usize)| s2.contains(p) || (x < w - 1 && p == ((x + 1) as usize, y)) implies #[trigger] s3.contains(p) by {
                        if x < w - 1 { lemma_contains_push(s2, ((x + 1) as usize, y), p); }
                    }
                    assert forall|p: (usize, usize)| s3.contains(p) || (y > 0 && p == (x, (y - 1) as usize)) implies #[trigger] s4.contains(p) by {
                        if y > 0 { lemma_contains_push(s3, (x, (y - 1) as usize), p); }
                    }
                    assert forall|p: (usize, usize)| s4.contains(p) || (y < h - 1 && p == (x, (y + 1) as usize)) implies #[trigger] stack@.contains(p) by {
                        if y < h - 1 { lemma_contains_push(s4, (x, (y + 1) as usize), p); }
                    }
                    assert(s1 == s.drop_last());
                    assert forall|px: int, py: int| in_bounds(*self, px, py) implies
                        #[trigger] cell(visited@, px, py) == (cell(v0, px, py) || (px == x && py == y)) by {}
                    lemma_frontier_visit(*self, lake@, v0, visited@, s, stack@, (x, y));
                    assert forall|i: int| 0 <= i < stack@.len() implies fed(*self, visited@, start_x as int, start_y as int, #[trigger] stack@[i]) by {
                        if i < s1.len() {
                            assert(stack@[i] == s[i]);
                            assert(fed(*self, v0, start_x as int, start_y as int, s[i]));
                        } else {
                            let q = stack@[i];
                            assert(q == ((x - 1) as usize, y) || q == ((x + 1) as usize, y) || q == (x, (y - 1) as usize) || q == (x, (y + 1) as usize));
                        }
                    }
                    if open_cell(*self, lake@, start_x as int, start_y as int) && !cell(visited@, start_x as int, start_y as int) {
                        lemma_contains_drop_last(s, (start_x, start_y));
                    }
                }
            }
        }
        proof {
            assert(stack@ =~= Seq::<(usize, usize)>::empty());
            let sx = start_x as int;
            let sy = start_y as int;
            assert forall|x: int, y: int| in_bounds(*self, x, y) && reachable(*self, lake@, sx, sy, x, y) implies #[trigger] cell(visited@, x, y) by {
                let n = choose|n: nat| reach_in(*self, lake@, sx, sy, n, x, y);
                lemma_reach_flooded(*self, lake@, sx, sy, visited@, n, x, y);
            }
            assert forall|k: int| #[trigger] seen_set(visited@, wi, hi).contains(k) <==> reach_set(*self, lake@, sx, sy).contains(k) by {
                if 0 <= k < wi * hi {
                    crate::map::lemma_cell_index_of(k, hi, wi);
                    assert(in_bounds(*self, k / hi, k % hi));
                }
            }
            assert(seen_set(visited@, wi, hi) =~= reach_set(*self, lake@, sx, sy));
        }
        (count, Ghost(visited@))
    }
}

/// An open cell off the map's border.
pub open spec fn open_inner(m: DungeonMap, lake: Seq<Vec<bool>>, x: int, y: int) -> bool {
    1 <= x < m.width - 1 && 1 <= y < m.height - 1 && open_cell(m, lake, x, y)
}

/// How many cells (x, j) with 1 <= j < n are open off the border.
pub open spec fn column_open(m: DungeonMap, lake: Seq<Vec<bool>>, x: int, n: int) -> int
    decreases n,
{
    if n <= 1 {
        0
    } else {
        column_open(m, lake, x, n - 1) + if open_inner(m, lake, x, n - 1) { 1int } else { 0int }
    }
}

/// How many cells open off the border lie in the columns 1 to n - 1.
pub open spec fn open_before(m: DungeonMap, lake: Seq<Vec<bool>>, n: int) -> int
    decreases n,
{
    if n <= 1 {
        0
    } else {
        open_before(m, lake, n - 1) + column_open(m, lake, n - 1, m.height - 1)
    }
}

/// How many cells off the border are open.
pub open spec fn inner_open_count(m: DungeonMap, lake: Seq<Vec<bool>>) -> int {
    open_before(m, lake, m.width - 1)
}

/// (x, y) is the first open cell off the border, column by column.
pub open spec fn first_open(m: DungeonMap, lake: Seq<Vec<bool>>, x: int, y: int) -> bool {
    &&& open_inner(m, lake, x, y)
    &&& forall|i: int, j: int| (i < x || (i == x && j < y)) ==> !#[trigger] open_inner(m, lake, i, j)
}

impl DungeonMap {
    /// Whether a lake would cut the floor apart: true when no floor off the
    /// border is left outside it, else whether the flood from the first such
    /// cell (column by column) reaches fewer cells than there are such
    /// cells.
    fn would_disconnect(&self, lake: &Vec<Vec<bool>>) -> (r: bool)
        requires
            map_wf(*self),
            grid_shape(lake@, self.width as int, self.height as int),
        ensures
            (forall|x: int, y: int| !#[trigger] open_inner(*self, lake@, x, y)) ==> r,
            forall|sx: int, sy: int| #[trigger] first_open(*self, lake@, sx, sy) ==>
                (r <==> reach_set(*self, lake@, sx, sy).len() < inner_open_count(*self, lake@)),
    {
        let w = self.width;
        let h = self.height;
        let mut start: Option<(usize, usize)> = None;
        let mut total: usize = 0;
        let mut x: usize = 1;
        while x + 1 < w
            invariant
                map_wf(*self),
                w == self.width && h == self.height,
                grid_shape(lake@, w as int, h as int),
                1 <= x <= w,
                x + 1 <= w || x == 1,
                total <= (x - 1) * 10_000,
                total == open_before(*self, lake@, x as int),
                start is Some ==> first_open(*self, lake@, (start->0).0 as int, (start->0).1 as int),
                start is None ==> forall|i: int, j: int| 1 <= i < x ==> !#[trigger] open_inner(*self, lake@, i, j),
            decreases w - x,
        {
            let mut y: usize = 1;
            while y + 1 < h
                invariant
                    map_wf(*self),
                    w == self.width && h == self.height,
                    grid_shape(lake@, w as int, h as int),
                    1 <= x < w - 1,
                    1 <= y <= h,
                    y + 1 <= h || y == 1,
                    total <= (x - 1) * 10_000 + y,
                    total == open_before(*self, lake@, x as int) + column_open(*self, lake@, x as int, y as int),
                    start is Some ==> first_open(*self, lake@, (start->0).0 as int, (start->0).1 as int),
                    start is None ==> forall|i: int, j: int| (1 <= i < x || (i == x && j < y)) ==> !#[trigger] open_inner(*self, lake@, i, j),
                decreases h - y,
            {
                if self.tiles[x][y] == Tile::Floor && !lake[x][y] {
                    assert(open_inner(*self, lake@, x as int, y as int));
                    if start.is_none() {
                        start = Some((x, y));
                    }
                    total = total + 1;
                } else {
                    assert(!open_inner(*self, lake@, x as int, y as int));
                }
                y = y + 1;
            }
            assert(column_open(*self, lake@, x as int, y as int) == column_open(*self, lake@, x as int, h - 1));
            x = x + 1;
        }
        assert(open_before(*self, lake@, x as int) == inner_open_count(*self, lake@));
        match start {
            None => true,
            Some((sx, sy)) => {
                let (reachable, _v) = self.flood_fill_count(sx, sy, lake);
                proof {
                    assert forall|fx: int, fy: int| #[trigger] first_open(*self, lake@, fx, fy) implies fx == sx && fy == sy by {
                        assert(open_inner(*self, lake@, fx, fy));
                        assert(open_inner(*self, lake@, sx as int, sy as int));
                    }
                }
                reachable < total
            },
        }
    }
}

/// What a lake may turn a floor cell into: lava, chasm (floors 7 on) or
/// deep water (floors 4 to 6), and shallow water or chasm edges around.
pub open spec fn lake_tile(floor: int, t: Tile) -> bool {
    if floor >= 7 {
        t == Tile::Lava || t == Tile::Chasm || t == Tile::ShallowWater || t == Tile::ChasmEdge
    } else {
        t == Tile::DeepWater || t == Tile::ShallowWater
    }
}

/// `b` is `a` with lakes placed: only tiles change, and only floor cells,
/// into lake tiles of the floor (see `lake_tile`); nothing changes below
/// floor 4.
pub open spec fn lakes_placed(a: DungeonMap, b: DungeonMap, floor: int) -> bool {
    &&& b.width == a.width && b.height == a.height
    &&& b.rooms == a.rooms && b.room_types == a.room_types
    &&& b.deco_objects == a.deco_objects && b.trap_tiles == a.trap_tiles
    &&& b.features == a.features && b.shrine_used == a.shrine_used
    &&& b.machines == a.machines && b.visibility == a.visibility && b.current_visibility == a.current_visibility
    &&& grid_shape(b.tiles@, a.width as int, a.height as int)
    &&& forall|x: int, y: int| 0 <= x < a.width && 0 <= y < a.height ==>
        #[trigger] cell(b.tiles@, x, y) == cell(a.tiles@, x, y)
            || (cell(a.tiles@, x, y) == Tile::Floor && floor >= 4 && lake_tile(floor, cell(b.tiles@, x, y)))
}

/// (x, y) has a masked cell among its eight neighbours.
pub open spec fn touches_mask(mask: Seq<Vec<bool>>, w: int, h: int, x: int, y: int) -> bool {
    exists|p: int, q: int| 0 <= p < w && 0 <= q < h && x - 1 <= p <= x + 1 && y - 1 <= q <= y + 1
        && !(p == x && q == y) && #[trigger] cell(mask, p, q)
}

/// Tiles `b` are tiles `a` with the masked cells turned into `deep` and,
/// of the others, only floor cells touching the mask turned, into `wreath`.
pub open spec fn poured(a: Seq<Vec<Tile>>, b: Seq<Vec<Tile>>, mask: Seq<Vec<bool>>, deep: Tile, wreath: Tile, w: int, h: int) -> bool {
    forall|x: int, y: int| 0 <= x < w && 0 <= y < h ==> {
        &&& cell(mask, x, y) ==> #[trigger] cell(b, x, y) == deep
        &&& !cell(mask, x, y) ==> cell(b, x, y) == cell(a, x, y)
            || (cell(a, x, y) == Tile::Floor && touches_mask(mask, w, h, x, y) && cell(b, x, y) == wreath)
    }
}

/// The floor cells of `a` around the masked cell (p, q), off the mask and
/// among the neighbours before offset (`li`, `lj`) (by column, then row),
/// hold `wreath` in `t`.
pub open spec fn ring_done(a: Seq<Vec<Tile>>, t: Seq<Vec<Tile>>, mask: Seq<Vec<bool>>, wreath: Tile, w: int, h: int,
    p: int, q: int, li: int, lj: int) -> bool {
    forall|i: int, j: int| 0 <= i < w && 0 <= j < h && p - 1 <= i <= p + 1 && q - 1 <= j <= q + 1 && !(i == p && j == q)
        && (i - p + 1 < li || (i - p + 1 == li && j - q + 1 < lj))
        && !cell(mask, i, j) && cell(a, i, j) == Tile::Floor ==> #[trigger] cell(t, i, j) == wreath
}

/// A ring stays done while cells holding `wreath` keep it.
pub proof fn lemma_ring_kept(a: Seq<Vec<Tile>>, t1: Seq<Vec<Tile>>, t2: Seq<Vec<Tile>>, mask: Seq<Vec<bool>>, wreath: Tile,
    w: int, h: int, p: int, q: int, li: int, lj: int)
    requires
        ring_done(a, t1, mask, wreath, w, h, p, q, li, lj),
        forall|i: int, j: int| 0 <= i < w && 0 <= j < h && cell(t1, i, j) == wreath ==> #[trigger] cell(t2, i, j) == wreath,
    ensures
        ring_done(a, t2, mask, wreath, w, h, p, q, li, lj),
{
    assert forall|i: int, j: int| 0 <= i < w && 0 <= j < h && p - 1 <= i <= p + 1 && q - 1 <= j <= q + 1 && !(i == p && j == q)
        && (i - p + 1 < li || (i - p + 1 == li && j - q + 1 < lj))
        && !cell(mask, i, j) && cell(a, i, j) == Tile::Floor implies #[trigger] cell(t2, i, j) == wreath by {
        assert(cell(t1, i, j) == wreath);
    }
}

/// A lake over `lake` keeps the floor joined (the test of
/// `would_disconnect` passed): some open cell off the border is left, and
/// the flood from the first one reaches all of them.
pub open spec fn keeps_joined(m: DungeonMap, lake: Seq<Vec<bool>>) -> bool {
    &&& exists|x: int, y: int| #[trigger] open_inner(m, lake, x, y)
    &&& forall|sx: int, sy: int| #[trigger] first_open(m, lake, sx, sy) ==>
        reach_set(m, lake, sx, sy).len() >= inner_open_count(m, lake)
}

/// The lake and shore tiles of a floor: deep water and shallow water on
/// floors 4 to 6; from floor 7 lava and shallow water, or chasm and chasm
/// edge.
pub open spec fn lake_kinds(floor: int, deep: Tile, wreath: Tile) -> bool {
    &&& 4 <= floor <= 6 ==> deep == Tile::DeepWater && wreath == Tile::ShallowWater
    &&& floor >= 7 ==> (deep == Tile::Lava && wreath == Tile::ShallowWater) || (deep == Tile::Chasm && wreath == Tile::ChasmEdge)
}

/// `b` is `a` with the lakes `masks` poured one after the other through the
/// maps `maps` (see `poured`, every floor cell touching a lake becoming
/// shore): at most two, each over floor cells two or more from the edges
/// and keeping the floor joined (see `keeps_joined`).
pub open spec fn lakes_in_turn(a: DungeonMap, b: DungeonMap, masks: Seq<Seq<Vec<bool>>>, maps: Seq<DungeonMap>,
    deep: Tile, wreath: Tile, floor: int) -> bool {
    &&& maps.len() == masks.len() + 1
    &&& maps[0] == a && maps.last() == b
    &&& masks.len() <= 2
    &&& floor >= 4 ==> lake_kinds(floor, deep, wreath)
    &&& forall|k: int| 0 <= k < masks.len() ==> {
        let m = maps[k];
        let lake = #[trigger] masks[k];
        &&& grid_shape(lake, a.width as int, a.height as int)
        &&& forall|x: int, y: int| 0 <= x < a.width && 0 <= y < a.height && #[trigger] cell(lake, x, y) ==>
            2 <= x < a.width - 2 && 2 <= y < a.height - 2 && tile_at(m, x, y) == Tile::Floor
        &&& keeps_joined(m, lake)
        &&& maps[k + 1] == (DungeonMap { tiles: maps[k + 1].tiles, ..m })
        &&& poured(m.tiles@, maps[k + 1].tiles@, lake, deep, wreath, a.width as int, a.height as int)
        &&& forall|x: int, y: int| 0 <= x < a.width && 0 <= y < a.height && !cell(lake, x, y)
            && cell(m.tiles@, x, y) == Tile::Floor && touches_mask(lake, a.width as int, a.height as int, x, y) ==>
            #[trigger] cell(maps[k + 1].tiles@, x, y) == wreath
    }
}

impl DungeonMap {
    /// The cells of the blob placed at (ox, oy) that may hold lake: at least
    /// two cells from the map's edges, floor, with no decoration or trap.
    /// Returns the cells as a mask and how many there are (up to 6).
    fn lake_mask(&self, blob: &Vec<Vec<bool>>, bw: usize, bh: usize, ox: usize, oy: usize) -> (r: (Vec<Vec<bool>>, usize))
        requires
            map_wf(*self),
            grid_shape(blob@, bw as int, bh as int),
            bw <= 16 && bh <= 16,
            ox <= MAX_SIDE && oy <= MAX_SIDE,
        ensures
            grid_shape(r.0@, self.width as int, self.height as int),
            forall|x: int, y: int| 0 <= x < self.width && 0 <= y < self.height && #[trigger] cell(r.0@, x, y) ==>
                2 <= x < self.width - 2 && 2 <= y < self.height - 2 && tile_at(*self, x, y) == Tile::Floor,
    {
        let w = self.width;
        let h = self.height;
        let mut mask: Vec<Vec<bool>> = filled_grid(w, h, false);
        let mut count: usize = 0;
        let mut bx: usize = 0;
        while bx < bw
            invariant
                map_wf(*self),
                w == self.width && h == self.height,
                grid_shape(blob@, bw as int, bh as int),
                bw <= 16 && bh <= 16,
                ox <= MAX_SIDE && oy <= MAX_SIDE,
                grid_shape(mask@, w as int, h as int),
                forall|x: int, y: int| 0 <= x < w && 0 <= y < h && #[trigger] cell(mask@, x, y) ==>
                    2 <= x < w - 2 && 2 <= y < h - 2 && tile_at(*self, x, y) == Tile::Floor,
                count <= bx * 16,
                bx <= bw,
            decreases bw - bx,
        {
            let mut by: usize = 0;
            while by < bh
                invariant
                    map_wf(*self),
                    w == self.width && h == self.height,
                    grid_shape(blob@, bw as int, bh as int),
                    bw <= 16 && bh <= 16,
                    ox <= MAX_SIDE && oy <= MAX_SIDE,
                    bx < bw,
                    by <= bh,
                    grid_shape(mask@, w as int, h as int),
                    forall|x: int, y: int| 0 <= x < w && 0 <= y < h && #[trigger] cell(mask@, x, y) ==>
                        2 <= x < w - 2 && 2 <= y < h - 2 && tile_at(*self, x, y) == Tile::Floor,
                    count <= bx * 16 + by,
                decreases bh - by,
            {
                if blob[bx][by] {
                    let mx = ox + bx;
                    let my = oy + by;
                    if mx >= 2 && mx + 2 < w && my >= 2 && my + 2 < h && self.tiles[mx][my] == Tile::Floor
                        && self.deco_objects[mx][my].is_none() && self.trap_tiles[mx][my].is_none() && !mask[mx][my] {
                        let ghost before = mask@;
                        set_cell(&mut mask, mx, my, true);
                        count = count + 1;
                        proof {
                            assert forall|x: int, y: int| 0 <= x < w && 0 <= y < h && #[trigger] cell(mask@, x, y) implies
                                2 <= x < w - 2 && 2 <= y < h - 2 && tile_at(*self, x, y) == Tile::Floor by {
                                if !(x == mx && y == my) {
                                    assert(cell(before, x, y));
                                }
                            }
                        }
                    }
                }
                by = by + 1;
            }
            assert(bx * 16 + bh <= (bx + 1) * 16) by (nonlinear_arith)
                requires bh <= 16;
            bx = bx + 1;
        }
        (mask, count)
    }

    /// Fills the masked cells with `deep` and then turns the floor cells
    /// around them into `wreath`.
    #[verifier::rlimit(80)]
    #[verifier::spinoff_prover]
    fn pour_lake(&mut self, mask: &Vec<Vec<bool>>, deep: Tile, wreath: Tile, floor: i32, Ghost(a): Ghost<DungeonMap>)
        requires
            map_wf(*old(self)),
            lakes_placed(a, *old(self), floor as int),
            floor >= 4,
            lake_tile(floor as int, deep) && lake_tile(floor as int, wreath),
            grid_shape(mask@, a.width as int, a.height as int),
            forall|x: int, y: int| 0 <= x < a.width && 0 <= y < a.height && #[trigger] cell(mask@, x, y) ==>
                cell(old(self).tiles@, x, y) == Tile::Floor,
        ensures
            map_wf(*final(self)),
            lakes_placed(a, *final(self), floor as int),
            *final(self) == (DungeonMap { tiles: final(self).tiles, ..*old(self) }),
            poured(old(self).tiles@, final(self).tiles@, mask@, deep, wreath, old(self).width as int, old(self).height as int),
            forall|x: int, y: int| 0 <= x < old(self).width && 0 <= y < old(self).height && !cell(mask@, x, y)
                && cell(old(self).tiles@, x, y) == Tile::Floor
                && touches_mask(mask@, old(self).width as int, old(self).height as int, x, y) ==>
                #[trigger] cell(final(self).tiles@, x, y) == wreath,
    {
        let ghost s0 = *self;
        let w = self.width;
        let h = self.height;
        let mut x: usize = 0;
        while x < w
            invariant
                map_wf(*self),
                w == self.width && h == self.height,
                lakes_placed(a, *self, floor as int),
                floor >= 4,
                lake_tile(floor as int, deep) && lake_tile(floor as int, wreath),
                grid_shape(mask@, w as int, h as int),
                forall|i: int, j: int| 0 <= i < w && 0 <= j < h && #[trigger] cell(mask@, i, j) && i >= x ==>
                    cell(self.tiles@, i, j) == Tile::Floor,
                *self == (DungeonMap { tiles: self.tiles, ..s0 }),
                s0.width == w && s0.height == h,
                forall|i: int, j: int| 0 <= i < w && 0 <= j < h ==>
                    #[trigger] cell(self.tiles@, i, j) == (if cell(mask@, i, j) && i < x { deep } else { cell(s0.tiles@, i, j) }),
            decreases w - x,
        {
            let mut y: usize = 0;
            while y < h
                invariant
                    map_wf(*self),
                    w == self.width && h == self.height,
                    lakes_placed(a, *self, floor as int),
                    floor >= 4,
                    lake_tile(floor as int, deep) && lake_tile(floor as int, wreath),
                    grid_shape(mask@, w as int, h as int),
                    x < w,
                    forall|i: int, j: int| 0 <= i < w && 0 <= j < h && #[trigger] cell(mask@, i, j) && (i > x || (i == x && j >= y)) ==>
                        cell(self.tiles@, i, j) == Tile::Floor,
                    *self == (DungeonMap { tiles: self.tiles, ..s0 }),
                    s0.width == w && s0.height == h,
                    forall|i: int, j: int| 0 <= i < w && 0 <= j < h ==>
                        #[trigger] cell(self.tiles@, i, j) == (if cell(mask@, i, j) && (i < x || (i == x && j < y)) { deep } else { cell(s0.tiles@, i, j) }),
                decreases h - y,
            {
                if mask[x][y] {
                    assert(cell(mask@, x as int, y as int));
                    assert(cell(self.tiles@, x as int, y as int) == Tile::Floor);
                    let ghost before = *self;
                    set_cell(&mut self.tiles, x, y, deep);
                    proof {
                        assert forall|i: int, j: int| 0 <= i < a.width && 0 <= j < a.height implies
                            #[trigger] cell(self.tiles@, i, j) == cell(a.tiles@, i, j)
                                || (cell(a.tiles@, i, j) == Tile::Floor && floor >= 4 && lake_tile(floor as int, cell(self.tiles@, i, j))) by {
                            assert(cell(before.tiles@, i, j) == cell(a.tiles@, i, j)
                                || (cell(a.tiles@, i, j) == Tile::Floor && floor >= 4 && lake_tile(floor as int, cell(before.tiles@, i, j))));
                        }
                        assert forall|i: int, j: int| 0 <= i < w && 0 <= j < h && #[trigger] cell(mask@, i, j) && (i > x || (i == x && j >= y + 1)) implies
                            cell(self.tiles@, i, j) == Tile::Floor by {
                            assert(cell(before.tiles@, i, j) == Tile::Floor);
                        }
                        assert forall|i: int, j: int| 0 <= i < w && 0 <= j < h implies
                            #[trigger] cell(self.tiles@, i, j) == (if cell(mask@, i, j) && (i < x || (i == x && j < y + 1)) { deep } else { cell(s0.tiles@, i, j) }) by {
                            assert(cell(before.tiles@, i, j) == (if cell(mask@, i, j) && (i < x || (i == x && j < y)) { deep } else { cell(s0.tiles@, i, j) }));
                        }
                    }
                }
                y = y + 1;
            }
            x = x + 1;
        }
        proof {
            assert forall|p: int, q: int| 0 <= p < w && 0 <= q < h implies {
                &&& cell(mask@, p, q) ==> #[trigger] cell(self.tiles@, p, q) == deep
                &&& !cell(mask@, p, q) ==> cell(self.tiles@, p, q) == cell(s0.tiles@, p, q)
                    || (cell(s0.tiles@, p, q) == Tile::Floor && touches_mask(mask@, w as int, h as int, p, q)
                        && cell(self.tiles@, p, q) == wreath)
            } by {}
        }
        let mut x2: usize = 0;
        while x2 < w
            invariant
                map_wf(*self),
                w == self.width && h == self.height,
                lakes_placed(a, *self, floor as int),
                floor >= 4,
                lake_tile(floor as int, wreath),
                grid_shape(mask@, w as int, h as int),
                *self == (DungeonMap { tiles: self.tiles, ..s0 }),
                s0.width == w && s0.height == h,
                deep != Tile::Floor && wreath != Tile::Floor,
                poured(s0.tiles@, self.tiles@, mask@, deep, wreath, w as int, h as int),
                forall|p: int, q: int| 0 <= p < x2 && 0 <= q < h && #[trigger] cell(mask@, p, q) ==>
                    ring_done(s0.tiles@, self.tiles@, mask@, wreath, w as int, h as int, p, q, 3, 0),
            decreases w - x2,
        {
            let mut y2: usize = 0;
            while y2 < h
                invariant
                    map_wf(*self),
                    w == self.width && h == self.height,
                    lakes_placed(a, *self, floor as int),
                    floor >= 4,
                    lake_tile(floor as int, wreath),
                    grid_shape(mask@, w as int, h as int),
                    x2 < w,
                    *self == (DungeonMap { tiles: self.tiles, ..s0 }),
                    s0.width == w && s0.height == h,
                    deep != Tile::Floor && wreath != Tile::Floor,
                    poured(s0.tiles@, self.tiles@, mask@, deep, wreath, w as int, h as int),
                    forall|p: int, q: int| 0 <= p < w && 0 <= q < h && (p < x2 || (p == x2 && q < y2)) && #[trigger] cell(mask@, p, q) ==>
                        ring_done(s0.tiles@, self.tiles@, mask@, wreath, w as int, h as int, p, q, 3, 0),
                decreases h - y2,
            {
                if mask[x2][y2] {
                    let mut i: usize = 0;
                    while i < 3
                        invariant
                            map_wf(*self),
                            w == self.width && h == self.height,
                            lakes_placed(a, *self, floor as int),
                            floor >= 4,
                            lake_tile(floor as int, wreath),
                            x2 < w && y2 < h,
                            i <= 3,
                            *self == (DungeonMap { tiles: self.tiles, ..s0 }),
                            s0.width == w && s0.height == h,
                            deep != Tile::Floor && wreath != Tile::Floor,
                            poured(s0.tiles@, self.tiles@, mask@, deep, wreath, w as int, h as int),
                            cell(mask@, x2 as int, y2 as int),
                            forall|p: int, q: int| 0 <= p < w && 0 <= q < h && (p < x2 || (p == x2 && q < y2)) && #[trigger] cell(mask@, p, q) ==>
                                ring_done(s0.tiles@, self.tiles@, mask@, wreath, w as int, h as int, p, q, 3, 0),
                            ring_done(s0.tiles@, self.tiles@, mask@, wreath, w as int, h as int, x2 as int, y2 as int, i as int, 0),
                        decreases 3 - i,
                    {
                        let mut j: usize = 0;
                        while j < 3
                            invariant
                                map_wf(*self),
                                w == self.width && h == self.height,
                                lakes_placed(a, *self, floor as int),
                                floor >= 4,
                                lake_tile(floor as int, wreath),
                                x2 < w && y2 < h,
                                i < 3,
                                j <= 3,
                                *self == (DungeonMap { tiles: self.tiles, ..s0 }),
                                s0.width == w && s0.height == h,
                                deep != Tile::Floor && wreath != Tile::Floor,
                                poured(s0.tiles@, self.tiles@, mask@, deep, wreath, w as int, h as int),
                                cell(mask@, x2 as int, y2 as int),
                                forall|p: int, q: int| 0 <= p < w && 0 <= q < h && (p < x2 || (p == x2 && q < y2)) && #[trigger] cell(mask@, p, q) ==>
                                    ring_done(s0.tiles@, self.tiles@, mask@, wreath, w as int, h as int, p, q, 3, 0),
                                ring_done(s0.tiles@, self.tiles@, mask@, wreath, w as int, h as int, x2 as int, y2 as int, i as int, j as int),
                            decreases 3 - j,
                        {
                            let ghost t_start = self.tiles@;
                            if !(i == 1 && j == 1) && x2 + i >= 1 && y2 + j >= 1 {
                                let nx = x2 + i - 1;
                                let ny = y2 + j - 1;
                                if nx < w && ny < h && self.tiles[nx][ny] == Tile::Floor {
                                    let ghost before = *self;
                                    assert(cell(before.tiles@, nx as int, ny as int) == Tile::Floor);
                                    set_cell(&mut self.tiles, nx, ny, wreath);
                                    proof {
                                        assert forall|p: int, q: int| 0 <= p < a.width && 0 <= q < a.height implies
                                            #[trigger] cell(self.tiles@, p, q) == cell(a.tiles@, p, q)
                                                || (cell(a.tiles@, p, q) == Tile::Floor && floor >= 4 && lake_tile(floor as int, cell(self.tiles@, p, q))) by {
                                            assert(cell(before.tiles@, p, q) == cell(a.tiles@, p, q)
                                                || (cell(a.tiles@, p, q) == Tile::Floor && floor >= 4 && lake_tile(floor as int, cell(before.tiles@, p, q))));
                                        }
                                        assert(cell(before.tiles@, nx as int, ny as int) == Tile::Floor);
                                        assert(!cell(mask@, nx as int, ny as int));
                                        assert(cell(s0.tiles@, nx as int, ny as int) == Tile::Floor);
                                        assert(touches_mask(mask@, w as int, h as int, nx as int, ny as int)) by {
                                            assert(cell(mask@, x2 as int, y2 as int));
                                        }
                                        assert forall|p: int, q: int| 0 <= p < w && 0 <= q < h implies {
                                            &&& cell(mask@, p, q) ==> #[trigger] cell(self.tiles@, p, q) == deep
                                            &&& !cell(mask@, p, q) ==> cell(self.tiles@, p, q) == cell(s0.tiles@, p, q)
                                                || (cell(s0.tiles@, p, q) == Tile::Floor && touches_mask(mask@, w as int, h as int, p, q)
                                                    && cell(self.tiles@, p, q) == wreath)
                                        } by {
                                            if !(p == nx && q == ny) {
                                                assert(cell(self.tiles@, p, q) == cell(before.tiles@, p, q));
                                            }
                                        }
                                        assert forall|p: int, q: int| 0 <= p < w && 0 <= q < h && cell(t_start, p, q) == wreath
                                            implies #[trigger] cell(self.tiles@, p, q) == wreath by {
                                            if !(p == nx && q == ny) {
                                                assert(cell(self.tiles@, p, q) == cell(before.tiles@, p, q));
                                            }
                                        }
                                    }
                                }
                            }
                            proof {
                                assert forall|p: int, q: int| 0 <= p < w && 0 <= q < h && cell(t_start, p, q) == wreath
                                    implies #[trigger] cell(self.tiles@, p, q) == wreath by {
                                }
                                assert forall|p: int, q: int| 0 <= p < w && 0 <= q < h && (p < x2 || (p == x2 && q < y2))
                                    && #[trigger] cell(mask@, p, q) implies ring_done(s0.tiles@, self.tiles@, mask@, wreath, w as int, h as int, p, q, 3, 0) by {
                                    lemma_ring_kept(s0.tiles@, t_start, self.tiles@, mask@, wreath, w as int, h as int, p, q, 3, 0);
                                }
                                lemma_ring_kept(s0.tiles@, t_start, self.tiles@, mask@, wreath, w as int, h as int,
                                    x2 as int, y2 as int, i as int, j as int);
                                let ci = x2 + i - 1;
                                let cj = y2 + j - 1;
                                if 0 <= ci < w && 0 <= cj < h && !(i == 1 && j == 1) && !cell(mask@, ci, cj)
                                    && cell(s0.tiles@, ci, cj) == Tile::Floor {
                                    assert(cell(self.tiles@, ci, cj) == wreath);
                                }
                                assert(ring_done(s0.tiles@, self.tiles@, mask@, wreath, w as int, h as int, x2 as int, y2 as int, i as int, j + 1));
                            }
                            j = j + 1;
                        }
                        proof {
                            assert(ring_done(s0.tiles@, self.tiles@, mask@, wreath, w as int, h as int, x2 as int, y2 as int, i + 1, 0));
                        }
                        i = i + 1;
                    }
                }
                y2 = y2 + 1;
            }
            x2 = x2 + 1;
        }
        proof {
            assert forall|x: int, y: int| 0 <= x < w && 0 <= y < h && !cell(mask@, x, y)
                && cell(s0.tiles@, x, y) == Tile::Floor && touches_mask(mask@, w as int, h as int, x, y)
                implies #[trigger] cell(self.tiles@, x, y) == wreath by {
                let (p, q) = choose|p: int, q: int| 0 <= p < w && 0 <= q < h && x - 1 <= p <= x + 1 && y - 1 <= q <= y + 1
                    && !(p == x && q == y) && #[trigger] cell(mask@, p, q);
                assert(ring_done(s0.tiles@, self.tiles@, mask@, wreath, w as int, h as int, p, q, 3, 0));
            }
        }
    }

    /// Lakes from floor 4 on: deep water on floors 4 to 6, lava or chasm at
    /// even odds from floor 7. One lake, two three times in ten. Each is a
    /// blob 8 to 15 cells each way (see `generate_ca_blob`, 42 in 100 alive,
    /// 5 steps), tried up to 30 times centred in a random room of 6 by 6 or
    /// more (see `lake_mask`); the first try of 6 cells or more that does
    /// not cut the floor apart (see `would_disconnect`) is poured (see
    /// `pour_lake`), ringed by shallow water (chasm edges round a chasm).
    pub fn place_lakes(&mut self, floor: i32)
        requires
            map_wf(*old(self)),
        ensures
            map_wf(*final(self)),
            lakes_placed(*old(self), *final(self), floor as int),
            floor < 4 ==> *final(self) == *old(self),
            exists|masks: Seq<Seq<Vec<bool>>>, maps: Seq<DungeonMap>, deep: Tile, wreath: Tile|
                #[trigger] lakes_in_turn(*old(self), *final(self), masks, maps, deep, wreath, floor as int),
    {
        let ghost a = *self;
        let ghost mut masks: Seq<Seq<Vec<bool>>> = Seq::empty();
        let ghost mut maps: Seq<DungeonMap> = seq![a];
        proof {
            if floor < 4 {
                assert(lakes_in_turn(a, *self, masks, maps, Tile::DeepWater, Tile::ShallowWater, floor as int));
            }
        }
        proof {
            assert forall|x: int, y: int| 0 <= x < a.width && 0 <= y < a.height implies
                #[trigger] cell(a.tiles@, x, y) == cell(a.tiles@, x, y)
                    || (cell(a.tiles@, x, y) == Tile::Floor && floor >= 4 && lake_tile(floor as int, cell(a.tiles@, x, y))) by {}
        }
        let lake_type = if floor >= 7 {
            if random_ratio(1, 2) { Tile::Lava } else { Tile::Chasm }
        } else if floor >= 4 {
            Tile::DeepWater
        } else {
            return;
        };
        let wreath_type = if lake_type == Tile::Chasm { Tile::ChasmEdge } else { Tile::ShallowWater };
        let num_lakes: usize = if random_ratio(3, 10) { 2 } else { 1 };
        proof {
            assert(lake_kinds(floor as int, lake_type, wreath_type));
            assert(lakes_in_turn(a, *self, masks, maps, lake_type, wreath_type, floor as int));
        }
        let mut l: usize = 0;
        while l < num_lakes
            invariant
                map_wf(*self),
                lakes_placed(a, *self, floor as int),
                floor >= 4,
                lake_tile(floor as int, lake_type) && lake_tile(floor as int, wreath_type),
                self.rooms == a.rooms,
                lake_kinds(floor as int, lake_type, wreath_type),
                lakes_in_turn(a, *self, masks, maps, lake_type, wreath_type, floor as int),
                masks.len() <= l,
                l <= num_lakes <= 2,
            decreases num_lakes - l,
        {
            let blob_width = 8 + random_below(8);
            let blob_height = 8 + random_below(8);
            let blob = self.generate_ca_blob(blob_width, blob_height, 42, 100, 5);
            let mut best: Option<Vec<Vec<bool>>> = None;
            let mut attempt: usize = 0;
            let ghost s_l = *self;
            while attempt < 30
                invariant
                    map_wf(*self),
                    *self == s_l,
                    grid_shape(blob@, blob_width as int, blob_height as int),
                    blob_width <= 16 && blob_height <= 16,
                    best is Some ==> grid_shape(best->0@, self.width as int, self.height as int)
                        && forall|x: int, y: int| 0 <= x < self.width && 0 <= y < self.height && #[trigger] cell(best->0@, x, y) ==>
                            2 <= x < self.width - 2 && 2 <= y < self.height - 2 && tile_at(*self, x, y) == Tile::Floor,
                    best is Some ==> keeps_joined(*self, best->0@),
                decreases 30 - attempt,
            {
                if self.rooms.len() == 0 {
                    break;
                }
                let room_idx = random_below(self.rooms.len());
                let room = self.rooms[room_idx];
                assert(rect_inside(self.rooms@[room_idx as int], self.width as int, self.height as int));
                let room_width = room.x2 - room.x1;
                let room_height = room.y2 - room.y1;
                if room_width >= 6 && room_height >= 6 {
                    let offset_x = room.x1 + (if room_width > blob_width { room_width - blob_width } else { 0 }) / 2;
                    let offset_y = room.y1 + (if room_height > blob_height { room_height - blob_height } else { 0 }) / 2;
                    let (mask, count) = self.lake_mask(&blob, blob_width, blob_height, offset_x, offset_y);
                    if count >= 6 && !self.would_disconnect(&mask) {
                        best = Some(mask);
                        break;
                    }
                }
                attempt = attempt + 1;
            }
            match best {
                Some(mask) => {
                    let ghost before = *self;
                    self.pour_lake(&mask, lake_type, wreath_type, floor, Ghost(a));
                    proof {
                        let old_masks = masks;
                        let old_maps = maps;
                        masks = masks.push(mask@);
                        maps = maps.push(*self);
                        assert(old_maps.last() == before);
                        assert forall|k: int| 0 <= k < masks.len() implies {
                            let m = maps[k];
                            let lake = #[trigger] masks[k];
                            &&& grid_shape(lake, a.width as int, a.height as int)
                            &&& forall|x: int, y: int| 0 <= x < a.width && 0 <= y < a.height && #[trigger] cell(lake, x, y) ==>
                                2 <= x < a.width - 2 && 2 <= y < a.height - 2 && tile_at(m, x, y) == Tile::Floor
                            &&& keeps_joined(m, lake)
                            &&& maps[k + 1] == (DungeonMap { tiles: maps[k + 1].tiles, ..m })
                            &&& poured(m.tiles@, maps[k + 1].tiles@, lake, lake_type, wreath_type, a.width as int, a.height as int)
                            &&& forall|x: int, y: int| 0 <= x < a.width && 0 <= y < a.height && !cell(lake, x, y)
                                && cell(m.tiles@, x, y) == Tile::Floor && touches_mask(lake, a.width as int, a.height as int, x, y) ==>
                                #[trigger] cell(maps[k + 1].tiles@, x, y) == wreath_type
                        } by {
                            if k < old_masks.len() {
                                assert(masks[k] == old_masks[k]);
                                assert(maps[k] == old_maps[k] && maps[k + 1] == old_maps[k + 1]);
                            } else {
                                assert(maps[k] == before);
                                assert(masks[k] == mask@);
                            }
                        }
                        assert(lakes_in_turn(a, *self, masks, maps, lake_type, wreath_type, floor as int));
                    }
                },
                None => {},
            }
            l = l + 1;
        }
    }
}

} // verus!
