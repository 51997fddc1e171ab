//! Cave floors: a cellular automaton grows open caves out of random rock,
//! pockets too small to matter are filled in, and the caves left are
//! joined by corridors.
use vstd::prelude::*;
use vstd::set_lib::{lemma_int_range, lemma_len_subset, set_int_range};
use crate::map::{DungeonMap, Rect, Tile, grid_shape, rect_center, rect_inside, set_cell, MAX_SIDE};
use crate::mapgen::{cell, connect_chain, filled_grid, rects_inside};
use crate::rng::random_ratio;

verus! {

/// (x, y) is off the map's border.
pub open spec fn interior(x: int, y: int, w: int, h: int) -> bool {
    1 <= x < w - 1 && 1 <= y < h - 1
}

/// 1 for a wall, 0 for anything else.
pub open spec fn wall_bit(t: Seq<Vec<Tile>>, x: int, y: int) -> int {
    if cell(t, x, y) == Tile::Wall { 1 } else { 0 }
}

/// The walls among a cell and its eight neighbours.
pub open spec fn walls_around(t: Seq<Vec<Tile>>, x: int, y: int) -> int {
    wall_bit(t, x - 1, y - 1) + wall_bit(t, x, y - 1) + wall_bit(t, x + 1, y - 1)
        + wall_bit(t, x - 1, y) + wall_bit(t, x, y) + wall_bit(t, x + 1, y)
        + wall_bit(t, x - 1, y + 1) + wall_bit(t, x, y + 1) + wall_bit(t, x + 1, y + 1)
}

/// One step of the automaton: a cell with five walls or more around it
/// (itself counted) becomes wall, any other becomes floor.
pub open spec fn smoothed(t: Seq<Vec<Tile>>, x: int, y: int) -> Tile {
    if walls_around(t, x, y) >= 5 { Tile::Wall } else { Tile::Floor }
}

/// The visited cells, by index `x * h + y`.
pub open spec fn seen_set(v: Seq<Vec<bool>>, w: int, h: int) -> Set<int> {
    Set::new(|k: int| 0 <= k < w * h && cell(v, k / h, k % h))
}

/// The visited cells are at most all the cells.
pub proof fn lemma_seen_bounded(v: Seq<Vec<bool>>, w: int, h: int)
    requires
        1 <= w && 1 <= h,
    ensures
        seen_set(v, w, h).finite(),
        seen_set(v, w, h).len() <= w * h,
{
    assert(w * h >= 0) by (nonlinear_arith)
        requires 1 <= w, 1 <= h;
    lemma_int_range(0, w * h);
    lemma_len_subset(seen_set(v, w, h), set_int_range(0, w * h));
}

/// Marking one unvisited cell adds exactly its index to the visited set.
pub proof fn lemma_mark_grows(v: Seq<Vec<bool>>, v2: Seq<Vec<bool>>, w: int, h: int, x: int, y: int)
    requires
        1 <= w && 1 <= h,
        0 <= x < w && 0 <= y < h,
        !cell(v, x, y),
        forall|i: int, j: int| 0 <= i < w && 0 <= j < h ==>
            #[trigger] cell(v2, i, j) == (if i == x && j == y { true } else { cell(v, i, j) }),
    ensures
        seen_set(v2, w, h).len() == seen_set(v, w, h).len() + 1,
{
    crate::map::lemma_cell_index(x, y, h);
    assert(x * h + y < w * h) by (nonlinear_arith)
        requires 0 <= x < w, 0 <= y < h;
    assert(0 <= x * h + y) by (nonlinear_arith)
        requires 0 <= x, 0 <= y, 1 <= h;
    let k0 = x * h + y;
    assert forall|k: int| seen_set(v2, w, h).contains(k) <==> #[trigger] seen_set(v, w, h).insert(k0).contains(k) by {
        if 0 <= k < w * h {
            crate::map::lemma_cell_index_of(k, h, w);
            if k / h == x && k % h == y {
                assert(k == k0);
            }
        }
    }
    assert(seen_set(v2, w, h) =~= seen_set(v, w, h).insert(k0));
    lemma_seen_bounded(v, w, h);
    assert(!seen_set(v, w, h).contains(k0));
}

/// Whether the cell is a wall, as 1 or 0.
fn wall_bit_at(tiles: &Vec<Vec<Tile>>, x: usize, y: usize) -> (b: u32)
    requires
        x < tiles@.len(),
        y < tiles@[x as int]@.len(),
    ensures
        b == wall_bit(tiles@, x as int, y as int),
{
    if tiles[x][y] == Tile::Wall { 1 } else { 0 }
}

/// Random rock: the border is wall, any other cell is wall 9 times in 20
/// and floor otherwise.
fn random_fill(w: usize, h: usize) -> (t: Vec<Vec<Tile>>)
    ensures
        grid_shape(t@, w as int, h as int),
        forall|x: int, y: int| 0 <= x < w && 0 <= y < h ==> {
            let c = #[trigger] cell(t@, x, y);
            &&& !interior(x, y, w as int, h as int) ==> c == Tile::Wall
            &&& c == Tile::Wall || c == Tile::Floor
        },
{
    let mut t: Vec<Vec<Tile>> = Vec::new();
    let mut x: usize = 0;
    while x < w
        invariant
            x <= w,
            t@.len() == x,
            forall|i: int| 0 <= i < x ==> (#[trigger] t@[i])@.len() == h,
            forall|i: int, j: int| 0 <= i < x && 0 <= j < h ==> {
                let c = #[trigger] cell(t@, i, j);
                &&& !interior(i, j, w as int, h as int) ==> c == Tile::Wall
                &&& c == Tile::Wall || c == Tile::Floor
            },
        decreases w - x,
    {
        let mut col: Vec<Tile> = Vec::new();
        let mut y: usize = 0;
        while y < h
            invariant
                x < w,
                y <= h,
                t@.len() == x,
                forall|i: int| 0 <= i < x ==> (#[trigger] t@[i])@.len() == h,
                forall|i: int, j: int| 0 <= i < x && 0 <= j < h ==> {
                    let c = #[trigger] cell(t@, i, j);
                    &&& !interior(i, j, w as int, h as int) ==> c == Tile::Wall
                    &&& c == Tile::Wall || c == Tile::Floor
                },
                col@.len() == y,
                forall|j: int| 0 <= j < y ==> {
                    let c = #[trigger] col@[j];
                    &&& !interior(x as int, j, w as int, h as int) ==> c == Tile::Wall
                    &&& c == Tile::Wall || c == Tile::Floor
                },
            decreases h - y,
        {
            if x == 0 || y == 0 || x == w - 1 || y == h - 1 {
                col.push(Tile::Wall);
            } else if random_ratio(9, 20) {
                col.push(Tile::Wall);
            } else {
                col.push(Tile::Floor);
            }
            y = y + 1;
        }
        let ghost prev = t@;
        t.push(col);
        proof {
            assert forall|i: int, j: int| 0 <= i < x + 1 && 0 <= j < h implies {
                let c = #[trigger] cell(t@, i, j);
                &&& !interior(i, j, w as int, h as int) ==> c == Tile::Wall
                &&& c == Tile::Wall || c == Tile::Floor
            } by {
                if i < x {
                    assert(t@[i] == prev[i]);
                    assert(cell(prev, i, j) == cell(t@, i, j));
                } else {
                    assert(t@[i]@[j] == col@[j]);
                }
            }
        }
        x = x + 1;
    }
    t
}

/// One step of the automaton over the whole map (see `smoothed`), every
/// cell read from the map as it was; the border stays.
fn smooth(tiles: &Vec<Vec<Tile>>, w: usize, h: usize) -> (out: Vec<Vec<Tile>>)
    requires
        1 <= w <= MAX_SIDE && 1 <= h <= MAX_SIDE,
        grid_shape(tiles@, w as int, h as int),
    ensures
        grid_shape(out@, w as int, h as int),
        forall|x: int, y: int| 0 <= x < w && 0 <= y < h ==> #[trigger] cell(out@, x, y)
            == (if interior(x, y, w as int, h as int) { smoothed(tiles@, x, y) } else { cell(tiles@, x, y) }),
{
    let mut out: Vec<Vec<Tile>> = Vec::new();
    let mut x: usize = 0;
    while x < w
        invariant
            1 <= w <= MAX_SIDE && 1 <= h <= MAX_SIDE,
            grid_shape(tiles@, w as int, h as int),
            x <= w,
            out@.len() == x,
            forall|i: int| 0 <= i < x ==> (#[trigger] out@[i])@.len() == h,
            forall|i: int, j: int| 0 <= i < x && 0 <= j < h ==> #[trigger] cell(out@, i, j)
                == (if interior(i, j, w as int, h as int) { smoothed(tiles@, i, j) } else { cell(tiles@, i, j) }),
        decreases w - x,
    {
        let mut col: Vec<Tile> = Vec::new();
        let mut y: usize = 0;
        while y < h
            invariant
                1 <= w <= MAX_SIDE && 1 <= h <= MAX_SIDE,
                grid_shape(tiles@, w as int, h as int),
                x < w,
                y <= h,
                out@.len() == x,
                forall|i: int| 0 <= i < x ==> (#[trigger] out@[i])@.len() == h,
                forall|i: int, j: int| 0 <= i < x && 0 <= j < h ==> #[trigger] cell(out@, i, j)
                    == (if interior(i, j, w as int, h as int) { smoothed(tiles@, i, j) } else { cell(tiles@, i, j) }),
                col@.len() == y,
                forall|j: int| 0 <= j < y ==> #[trigger] col@[j]
                    == (if interior(x as int, j, w as int, h as int) { smoothed(tiles@, x as int, j) } else { cell(tiles@, x as int, j) }),
            decreases h - y,
        {
            if 1 <= x && x < w - 1 && 1 <= y && y < h - 1 {
                let c = wall_bit_at(tiles, x - 1, y - 1) + wall_bit_at(tiles, x, y - 1) + wall_bit_at(tiles, x + 1, y - 1)
                    + wall_bit_at(tiles, x - 1, y) + wall_bit_at(tiles, x, y) + wall_bit_at(tiles, x + 1, y)
                    + wall_bit_at(tiles, x - 1, y + 1) + wall_bit_at(tiles, x, y + 1) + wall_bit_at(tiles, x + 1, y + 1);
                if c >= 5 {
                    col.push(Tile::Wall);
                } else {
                    col.push(Tile::Floor);
                }
            } else {
                col.push(tiles[x][y]);
            }
            y = y + 1;
        }
        let ghost prev = out@;
        out.push(col);
        proof {
            assert forall|i: int, j: int| 0 <= i < x + 1 && 0 <= j < h implies #[trigger] cell(out@, i, j)
                == (if interior(i, j, w as int, h as int) { smoothed(tiles@, i, j) } else { cell(tiles@, i, j) }) by {
                if i < x {
                    assert(out@[i] == prev[i]);
                    assert(cell(prev, i, j) == cell(out@, i, j));
                } else {
                    assert(out@[i]@[j] == col@[j]);
                }
            }
        }
        x = x + 1;
    }
    out
}

/// What a cell on the flood's stack or in its result satisfies: off the
/// border, floor, and visited now but not before.
pub open spec fn flood_cell(tiles: Seq<Vec<Tile>>, v0: Seq<Vec<bool>>, v: Seq<Vec<bool>>, w: int, h: int, c: (usize, usize)) -> bool {
    &&& interior(c.0 as int, c.1 as int, w, h)
    &&& cell(tiles, c.0 as int, c.1 as int) == Tile::Floor
    &&& !cell(v0, c.0 as int, c.1 as int)
    &&& cell(v, c.0 as int, c.1 as int)
}

/// Visiting only ever marks cells.
pub open spec fn marks_kept(v0: Seq<Vec<bool>>, v: Seq<Vec<bool>>, w: int, h: int) -> bool {
    &&& grid_shape(v, w, h)
    &&& forall|i: int, j: int| 0 <= i < w && 0 <= j < h && cell(v0, i, j) ==> #[trigger] cell(v, i, j)
}

/// Puts (nx, ny) on the stack and marks it, when it is an unvisited floor
/// cell off the border.
fn visit(tiles: &Vec<Vec<Tile>>, visited: &mut Vec<Vec<bool>>, stack: &mut Vec<(usize, usize)>, nx: usize, ny: usize,
    w: usize, h: usize, Ghost(v0): Ghost<Seq<Vec<bool>>>)
    requires
        3 <= w <= MAX_SIDE && 3 <= h <= MAX_SIDE,
        nx < w && ny < h,
        grid_shape(tiles@, w as int, h as int),
        marks_kept(v0, old(visited)@, w as int, h as int),
        forall|i: int| 0 <= i < old(stack)@.len() ==> flood_cell(tiles@, v0, old(visited)@, w as int, h as int, #[trigger] old(stack)@[i]),
    ensures
        marks_kept(v0, final(visited)@, w as int, h as int),
        marks_kept(old(visited)@, final(visited)@, w as int, h as int),
        forall|i: int| 0 <= i < final(stack)@.len() ==> flood_cell(tiles@, v0, final(visited)@, w as int, h as int, #[trigger] final(stack)@[i]),
        final(stack)@.len() == old(stack)@.len() || final(stack)@.len() == old(stack)@.len() + 1,
        seen_set(final(visited)@, w as int, h as int).len() == seen_set(old(visited)@, w as int, h as int).len()
            + (final(stack)@.len() - old(stack)@.len()),
        interior(nx as int, ny as int, w as int, h as int) && !cell(old(visited)@, nx as int, ny as int)
            && cell(tiles@, nx as int, ny as int) == Tile::Floor ==> {
            &&& final(stack)@ == old(stack)@.push((nx, ny))
            &&& forall|i: int, j: int| 0 <= i < w && 0 <= j < h ==>
                #[trigger] cell(final(visited)@, i, j) == (if i == nx && j == ny { true } else { cell(old(visited)@, i, j) })
        },
        !(interior(nx as int, ny as int, w as int, h as int) && !cell(old(visited)@, nx as int, ny as int)
            && cell(tiles@, nx as int, ny as int) == Tile::Floor) ==> final(stack)@ == old(stack)@ && final(visited)@ == old(visited)@,
{
    let ghost va = visited@;
    if nx > 0 && ny > 0 && nx < w - 1 && ny < h - 1 && !visited[nx][ny] && tiles[nx][ny] == Tile::Floor {
        set_cell(visited, nx, ny, true);
        proof {
            assert(!cell(va, nx as int, ny as int));
            assert(!cell(v0, nx as int, ny as int));
            assert(cell(tiles@, nx as int, ny as int) == Tile::Floor);
            lemma_mark_grows(va, visited@, w as int, h as int, nx as int, ny as int);
            assert forall|i: int, j: int| 0 <= i < w && 0 <= j < h && cell(va, i, j) implies #[trigger] cell(visited@, i, j) by {}
            assert forall|i: int, j: int| 0 <= i < w && 0 <= j < h && cell(v0, i, j) implies #[trigger] cell(visited@, i, j) by {
                assert(cell(va, i, j));
            }
        }
        stack.push((nx, ny));
        proof {
            assert forall|i: int| 0 <= i < stack@.len() implies flood_cell(tiles@, v0, visited@, w as int, h as int, #[trigger] stack@[i]) by {
                if i < stack@.len() - 1 {
                    let c = stack@[i];
                    assert(c == old(stack)@[i]);
                    assert(cell(va, c.0 as int, c.1 as int));
                }
            }
        }
    }
}

/// The cave around (x, y): every unvisited floor cell off the border that
/// side steps over such cells reach from it, each marked visited as it is
/// found. (x, y) comes first.
fn collect_region(tiles: &Vec<Vec<Tile>>, visited: &mut Vec<Vec<bool>>, x: usize, y: usize, w: usize, h: usize)
    -> (cells: Vec<(usize, usize)>)
    requires
        3 <= w <= MAX_SIDE && 3 <= h <= MAX_SIDE,
        grid_shape(tiles@, w as int, h as int),
        grid_shape(old(visited)@, w as int, h as int),
        interior(x as int, y as int, w as int, h as int),
        !cell(old(visited)@, x as int, y as int),
        cell(tiles@, x as int, y as int) == Tile::Floor,
    ensures
        marks_kept(old(visited)@, final(visited)@, w as int, h as int),
        cells@.len() >= 1,
        cells@[0] == (x, y),
        forall|i: int| 0 <= i < cells@.len() ==> flood_cell(tiles@, old(visited)@, final(visited)@, w as int, h as int, #[trigger] cells@[i]),
{
    let ghost v0 = visited@;
    let ghost wi = w as int;
    let ghost hi = h as int;
    let mut cells: Vec<(usize, usize)> = Vec::new();
    let mut stack: Vec<(usize, usize)> = Vec::new();
    set_cell(visited, x, y, true);
    proof {
        lemma_mark_grows(v0, visited@, wi, hi, x as int, y as int);
    }
    stack.push((x, y));
    proof {
        lemma_seen_bounded(visited@, wi, hi);
    }
    while stack.len() > 0
        invariant
            3 <= w <= MAX_SIDE && 3 <= h <= MAX_SIDE,
            wi == w && hi == h,
            grid_shape(tiles@, wi, hi),
            marks_kept(v0, visited@, wi, hi),
            forall|i: int| 0 <= i < stack@.len() ==> flood_cell(tiles@, v0, visited@, wi, hi, #[trigger] stack@[i]),
            forall|i: int| 0 <= i < cells@.len() ==> flood_cell(tiles@, v0, visited@, wi, hi, #[trigger] cells@[i]),
            cells@.len() == 0 ==> stack@.len() == 1 && stack@[0] == (x, y),
            cells@.len() > 0 ==> cells@[0] == (x, y),
            seen_set(visited@, wi, hi).finite(),
            seen_set(visited@, wi, hi).len() <= wi * hi,
        decreases wi * hi - seen_set(visited@, wi, hi).len(), stack@.len(),
    {
        let ghost s_before = stack@;
        let ghost seen_before = seen_set(visited@, wi, hi).len();
        let top = stack.pop().unwrap();
        let (cx, cy) = top;
        assert(top == s_before.last());
        assert(flood_cell(tiles@, v0, visited@, wi, hi, s_before[s_before.len() - 1]));
        cells.push((cx, cy));
        let ghost va = visited@;
        visit(tiles, visited, &mut stack, cx, cy + 1, w, h, Ghost(v0));
        visit(tiles, visited, &mut stack, cx, cy - 1, w, h, Ghost(v0));
        visit(tiles, visited, &mut stack, cx + 1, cy, w, h, Ghost(v0));
        visit(tiles, visited, &mut stack, cx - 1, cy, w, h, Ghost(v0));
        proof {
            lemma_seen_bounded(visited@, wi, hi);
            assert forall|i: int| 0 <= i < cells@.len() implies flood_cell(tiles@, v0, visited@, wi, hi, #[trigger] cells@[i]) by {
                let c = cells@[i];
                assert(cell(va, c.0 as int, c.1 as int));
            }
        }
    }
    cells
}

/// The smallest rectangle holding every cell of a nonempty cave (its
/// right and bottom edges on the last column and row of the cave).
fn bounding_box(cells: &Vec<(usize, usize)>, w: usize, h: usize) -> (r: Rect)
    requires
        cells@.len() >= 1,
        forall|i: int| 0 <= i < cells@.len() ==> (#[trigger] cells@[i]).0 < w && cells@[i].1 < h,
    ensures
        rect_inside(r, w as int, h as int),
        r.x2 < w && r.y2 < h,
        forall|i: int| 0 <= i < cells@.len() ==> r.x1 <= (#[trigger] cells@[i]).0 <= r.x2 && r.y1 <= cells@[i].1 <= r.y2,
{
    let mut min_x = w;
    let mut min_y = h;
    let mut max_x: usize = 0;
    let mut max_y: usize = 0;
    assert(cells@[0].0 < w && cells@[0].1 < h);
    let mut i: usize = 0;
    while i < cells.len()
        invariant
            cells@.len() >= 1,
            forall|j: int| 0 <= j < cells@.len() ==> (#[trigger] cells@[j]).0 < w && cells@[j].1 < h,
            i <= cells@.len(),
            min_x <= w && min_y <= h && max_x < w && max_y < h,
            i > 0 ==> min_x <= max_x && min_y <= max_y,
            forall|j: int| 0 <= j < i ==> min_x <= (#[trigger] cells@[j]).0 <= max_x && min_y <= cells@[j].1 <= max_y,
        decreases cells@.len() - i,
    {
        let (cx, cy) = cells[i];
        if cx < min_x { min_x = cx; }
        if cy < min_y { min_y = cy; }
        if cx > max_x { max_x = cx; }
        if cy > max_y { max_y = cy; }
        i = i + 1;
    }
    Rect::new(min_x, min_y, max_x - min_x, max_y - min_y)
}

/// (x, y) is among the first `n` cells of the list.
pub open spec fn listed(cells: Seq<(usize, usize)>, n: int, x: int, y: int) -> bool {
    exists|j: int| 0 <= j < n && #[trigger] cells[j] == (x as usize, y as usize)
}

/// Fills the cells with wall.
fn fill_walls(tiles: &mut Vec<Vec<Tile>>, cells: &Vec<(usize, usize)>, Ghost(w): Ghost<int>, Ghost(h): Ghost<int>)
    requires
        w <= MAX_SIDE && h <= MAX_SIDE,
        grid_shape(old(tiles)@, w, h),
        forall|i: int| 0 <= i < cells@.len() ==> (#[trigger] cells@[i]).0 < w && cells@[i].1 < h,
    ensures
        grid_shape(final(tiles)@, w, h),
        forall|x: int, y: int| 0 <= x < w && 0 <= y < h ==> #[trigger] cell(final(tiles)@, x, y)
            == (if listed(cells@, cells@.len() as int, x, y) { Tile::Wall } else { cell(old(tiles)@, x, y) }),
{
    let ghost t0 = tiles@;
    let mut i: usize = 0;
    while i < cells.len()
        invariant
            w <= MAX_SIDE && h <= MAX_SIDE,
            grid_shape(tiles@, w, h),
            forall|j: int| 0 <= j < cells@.len() ==> (#[trigger] cells@[j]).0 < w && cells@[j].1 < h,
            i <= cells@.len(),
            forall|x: int, y: int| 0 <= x < w && 0 <= y < h ==> #[trigger] cell(tiles@, x, y)
                == (if listed(cells@, i as int, x, y) { Tile::Wall } else { cell(t0, x, y) }),
        decreases cells@.len() - i,
    {
        let (cx, cy) = cells[i];
        let ghost before = tiles@;
        set_cell(tiles, cx, cy, Tile::Wall);
        proof {
            assert forall|x: int, y: int| 0 <= x < w && 0 <= y < h implies #[trigger] cell(tiles@, x, y)
                == (if listed(cells@, i + 1, x, y) { Tile::Wall } else { cell(t0, x, y) }) by {
                let p = (x as usize, y as usize);
                assert(cell(before, x, y) == (if listed(cells@, i as int, x, y) { Tile::Wall } else { cell(t0, x, y) }));
                if x == cx && y == cy {
                    assert(cells@[i as int] == p);
                } else {
                    assert(cells@[i as int] != p);
                    if listed(cells@, i + 1, x, y) {
                        let j = choose|j: int| 0 <= j < i + 1 && #[trigger] cells@[j] == p;
                        assert(j < i);
                        assert(listed(cells@, i as int, x, y));
                    }
                    if listed(cells@, i as int, x, y) {
                        let j = choose|j: int| 0 <= j < i && #[trigger] cells@[j] == p;
                        assert(listed(cells@, i + 1, x, y));
                    }
                }
            }
        }
        i = i + 1;
    }
}

/// Every cell is wall, floor or stairs.
pub open spec fn plain_tiles(t: Seq<Vec<Tile>>, w: int, h: int) -> bool {
    forall|x: int, y: int| 0 <= x < w && 0 <= y < h ==> {
        let c = #[trigger] cell(t, x, y);
        c == Tile::Wall || c == Tile::Floor || c == Tile::Stairs
    }
}

impl DungeonMap {
    /// A cave floor. Random rock (see `random_fill`) is smoothed five times
    /// (see `smooth`). Each cave (see `collect_region`, scanned column by
    /// column) of 20 cells or more becomes a room, its bounding box; a
    /// smaller one is filled with wall. The rooms are joined in order by
    /// corridors and the stairs go in the middle of the last one.
    pub(crate) fn generate_cave(tiles: &mut Vec<Vec<Tile>>, width: usize, height: usize) -> (rooms: Vec<Rect>)
        requires
            1 <= width <= MAX_SIDE && 1 <= height <= MAX_SIDE,
        ensures
            grid_shape(final(tiles)@, width as int, height as int),
            plain_tiles(final(tiles)@, width as int, height as int),
            rects_inside(rooms@, width as int, height as int),
            rooms@.len() > 0 ==> cell(final(tiles)@, rect_center(rooms@.last()).0 as int, rect_center(rooms@.last()).1 as int) == Tile::Stairs,
            rooms@.len() > 0 ==> rect_center(rooms@.last()).0 < width && rect_center(rooms@.last()).1 < height,
            forall|x: int, y: int| 0 <= x < width && 0 <= y < height && #[trigger] cell(final(tiles)@, x, y) == Tile::Stairs ==>
                rooms@.len() > 0 && x == rect_center(rooms@.last()).0 && y == rect_center(rooms@.last()).1,
    {
        let ghost w = width as int;
        let ghost h = height as int;
        *tiles = random_fill(width, height);
        let mut pass: usize = 0;
        while pass < 5
            invariant
                1 <= width <= MAX_SIDE && 1 <= height <= MAX_SIDE,
                w == width && h == height,
                grid_shape(tiles@, w, h),
                forall|x: int, y: int| 0 <= x < w && 0 <= y < h ==>
                    (#[trigger] cell(tiles@, x, y) == Tile::Wall || cell(tiles@, x, y) == Tile::Floor),
            decreases 5 - pass,
        {
            let next = smooth(tiles, width, height);
            *tiles = next;
            pass = pass + 1;
        }
        let mut visited: Vec<Vec<bool>> = filled_grid(width, height, false);
        let mut rooms: Vec<Rect> = Vec::new();
        let mut x: usize = 1;
        while x < width - 1
            invariant
                1 <= width <= MAX_SIDE && 1 <= height <= MAX_SIDE,
                w == width && h == height,
                grid_shape(tiles@, w, h),
                grid_shape(visited@, w, h),
                forall|x: int, y: int| 0 <= x < w && 0 <= y < h ==>
                    (#[trigger] cell(tiles@, x, y) == Tile::Wall || cell(tiles@, x, y) == Tile::Floor),
                rects_inside(rooms@, w, h),
                forall|i: int| 0 <= i < rooms@.len() ==> (#[trigger] rooms@[i]).x2 < w && rooms@[i].y2 < h,
                1 <= x <= width,
            decreases width - 1 - x,
        {
            let mut y: usize = 1;
            while y < height - 1
                invariant
                    1 <= width <= MAX_SIDE && 1 <= height <= MAX_SIDE,
                    w == width && h == height,
                    grid_shape(tiles@, w, h),
                    grid_shape(visited@, w, h),
                    forall|x: int, y: int| 0 <= x < w && 0 <= y < h ==>
                        (#[trigger] cell(tiles@, x, y) == Tile::Wall || cell(tiles@, x, y) == Tile::Floor),
                    rects_inside(rooms@, w, h),
                    forall|i: int| 0 <= i < rooms@.len() ==> (#[trigger] rooms@[i]).x2 < w && rooms@[i].y2 < h,
                    1 <= x < width - 1,
                    1 <= y <= height,
                decreases height - 1 - y,
            {
                if tiles[x][y] == Tile::Floor && !visited[x][y] {
                    let ghost vb = visited@;
                    let cave = collect_region(tiles, &mut visited, x, y, width, height);
                    proof {
                        assert forall|i: int| 0 <= i < cave@.len() implies (#[trigger] cave@[i]).0 < w && cave@[i].1 < h by {
                            assert(flood_cell(tiles@, vb, visited@, w, h, cave@[i]));
                        }
                    }
                    if cave.len() >= 20 {
                        let room = bounding_box(&cave, width, height);
                        rooms.push(room);
                        proof {
                            assert forall|i: int| 0 <= i < rooms@.len() implies rect_inside(#[trigger] rooms@[i], w, h)
                                && rooms@[i].x2 < w && rooms@[i].y2 < h by {
                                if i < rooms@.len() - 1 {
                                    assert(rooms@[i] == rooms@.drop_last()[i]);
                                }
                            }
                        }
                    } else {
                        fill_walls(tiles, &cave, Ghost(w), Ghost(h));
                    }
                }
                y = y + 1;
            }
            x = x + 1;
        }
        let ghost t1 = tiles@;
        connect_chain(tiles, &rooms, Ghost(w), Ghost(h), Ghost(Seq::empty()));
        let ghost t2 = tiles@;
        if rooms.len() > 0 {
            let last = rooms.len() - 1;
            assert(rect_inside(rooms@[last as int], w, h));
            let (sx, sy) = rooms[last].center();
            if sx < width && sy < height {
                set_cell(tiles, sx, sy, Tile::Stairs);
            }
        }
        proof {
            assert forall|x: int, y: int| 0 <= x < w && 0 <= y < h implies {
                let c = #[trigger] cell(tiles@, x, y);
                c == Tile::Wall || c == Tile::Floor || c == Tile::Stairs
            } by {
                assert(cell(t2, x, y) == cell(t1, x, y) || cell(t2, x, y) == Tile::Floor);
                assert(cell(t1, x, y) == Tile::Wall || cell(t1, x, y) == Tile::Floor);
            }
        }
        rooms
    }
}

} // verus!
