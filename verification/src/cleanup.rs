//! The clean-up of a new floor: walls that only get in the way are opened,
//! pass after pass over the map.
use vstd::prelude::*;
use crate::map::{DungeonMap, Tile, grid_shape, set_cell, MAX_SIDE};
use crate::mapgen::cell;
use crate::caves::interior;
use crate::layout::only_opened;

verus! {

/// The tiles as a grid of columns.
pub open spec fn grid_view(t: Seq<Vec<Tile>>) -> Seq<Seq<Tile>> {
    Seq::new(t.len(), |i: int| t[i]@)
}

/// The layer `t` holds the grid `g` on every cell of the map.
pub open spec fn agrees(t: Seq<Vec<Tile>>, g: Seq<Seq<Tile>>, w: int, h: int) -> bool {
    forall|x: int, y: int| 0 <= x < w && 0 <= y < h ==> #[trigger] cell(t, x, y) == g[x][y]
}

/// A grid of `w` columns of `h` cells.
pub open spec fn grid_ok(g: Seq<Seq<Tile>>, w: int, h: int) -> bool {
    g.len() == w && forall|x: int| 0 <= x < w ==> (#[trigger] g[x]).len() == h
}

pub open spec fn fl(g: Seq<Seq<Tile>>, x: int, y: int) -> bool {
    g[x][y] == Tile::Floor
}

pub open spec fn wl(g: Seq<Seq<Tile>>, x: int, y: int) -> int {
    if g[x][y] == Tile::Wall { 1 } else { 0 }
}

pub open spec fn fb(g: Seq<Seq<Tile>>, x: int, y: int) -> int {
    if g[x][y] == Tile::Floor { 1 } else { 0 }
}

/// The wall at (x, y) only touches floor across a corner: floor on two
/// opposite corners and none beside it.
pub open spec fn diagonal_gap(g: Seq<Seq<Tile>>, x: int, y: int) -> bool {
    let beside = fl(g, x, y - 1) || fl(g, x, y + 1) || fl(g, x - 1, y) || fl(g, x + 1, y);
    !beside && ((fl(g, x - 1, y - 1) && fl(g, x + 1, y + 1)) || (fl(g, x + 1, y - 1) && fl(g, x - 1, y + 1)))
}

/// Whether the clean-up opens the wall at (x, y) of grid `g`: it only
/// touches floor across a corner, no wall is beside it, or one wall and two
/// floors or more are.
pub open spec fn opens(g: Seq<Seq<Tile>>, x: int, y: int) -> bool {
    let walls = wl(g, x, y - 1) + wl(g, x, y + 1) + wl(g, x - 1, y) + wl(g, x + 1, y);
    let floors = fb(g, x, y - 1) + fb(g, x, y + 1) + fb(g, x - 1, y) + fb(g, x + 1, y);
    g[x][y] == Tile::Wall && (diagonal_gap(g, x, y) || walls == 0 || (walls == 1 && floors >= 2))
}

/// The `k`-th cell of a pass: the cells off the border, column by column.
pub open spec fn scan_cell(k: int, h: int) -> (int, int) {
    (1 + k / (h - 2), 1 + k % (h - 2))
}

/// The grid after the first `k` cells of a pass, each opened (see `opens`)
/// on the grid as the pass has left it so far.
pub open spec fn scan(g: Seq<Seq<Tile>>, h: int, k: int) -> Seq<Seq<Tile>>
    decreases k,
{
    if k <= 0 {
        g
    } else {
        let g1 = scan(g, h, k - 1);
        let (x, y) = scan_cell(k - 1, h);
        if opens(g1, x, y) { g1.update(x, g1[x].update(y, Tile::Floor)) } else { g1 }
    }
}

/// Whether one of the first `k` cells of a pass was opened.
pub open spec fn opened(g: Seq<Seq<Tile>>, h: int, k: int) -> bool
    decreases k,
{
    if k <= 0 {
        false
    } else {
        opened(g, h, k - 1) || opens(scan(g, h, k - 1), scan_cell(k - 1, h).0, scan_cell(k - 1, h).1)
    }
}

/// The number of cells a pass visits.
pub open spec fn pass_len(w: int, h: int) -> int {
    if w >= 3 && h >= 3 { (w - 2) * (h - 2) } else { 0 }
}

/// The clean-up of up to `n` passes: a pass that opens nothing ends it.
pub open spec fn cleaned(g: Seq<Seq<Tile>>, w: int, h: int, n: nat) -> Seq<Seq<Tile>>
    decreases n,
{
    if n == 0 {
        g
    } else {
        let g2 = scan(g, h, pass_len(w, h));
        if !opened(g, h, pass_len(w, h)) { g2 } else { cleaned(g2, w, h, (n - 1) as nat) }
    }
}

/// A scan keeps the grid's shape.
proof fn lemma_scan_shape(g: Seq<Seq<Tile>>, w: int, h: int, k: int)
    requires
        grid_ok(g, w, h),
        h >= 3,
        0 <= k <= pass_len(w, h),
    ensures
        grid_ok(scan(g, h, k), w, h),
    decreases k,
{
    if k > 0 {
        lemma_scan_shape(g, w, h, k - 1);
        let (x, y) = scan_cell(k - 1, h);
        vstd::arithmetic::div_mod::lemma_fundamental_div_mod(k - 1, h - 2);
        vstd::arithmetic::div_mod::lemma_mod_bound(k - 1, h - 2);
        vstd::arithmetic::div_mod::lemma_div_pos_is_pos(k - 1, h - 2);
        let q = (k - 1) / (h - 2);
        let r = (k - 1) % (h - 2);
        assert(q < w - 2) by (nonlinear_arith)
            requires k - 1 == (h - 2) * q + r, 0 <= r, k - 1 < (w - 2) * (h - 2), h - 2 > 0;
    }
}

/// Whether the cell is floor.
fn floor_at(tiles: &Vec<Vec<Tile>>, x: usize, y: usize) -> (b: bool)
    requires
        x < tiles@.len(),
        y < tiles@[x as int]@.len(),
    ensures
        b == (cell(tiles@, x as int, y as int) == Tile::Floor),
{
    tiles[x][y] == Tile::Floor
}

/// Whether the cell is wall, as 1 or 0.
fn wall_count_at(tiles: &Vec<Vec<Tile>>, x: usize, y: usize) -> (n: usize)
    requires
        x < tiles@.len(),
        y < tiles@[x as int]@.len(),
    ensures
        n == (if cell(tiles@, x as int, y as int) == Tile::Wall { 1int } else { 0int }),
{
    if tiles[x][y] == Tile::Wall { 1 } else { 0 }
}

impl DungeonMap {
    /// Opens awkward walls (see `opens`), scanning the cells off the border
    /// column by column and reading the map as it is being changed, for up
    /// to three passes while a pass opened something (see `cleaned`).
    pub(crate) fn cleanup_dungeon(tiles: &mut Vec<Vec<Tile>>, width: usize, height: usize)
        requires
            1 <= width <= MAX_SIDE && 1 <= height <= MAX_SIDE,
            grid_shape(old(tiles)@, width as int, height as int),
        ensures
            grid_shape(final(tiles)@, width as int, height as int),
            agrees(final(tiles)@, cleaned(grid_view(old(tiles)@), width as int, height as int, 3), width as int, height as int),
            only_opened(old(tiles)@, final(tiles)@, width as int, height as int),
            forall|x: int, y: int| 0 <= x < width && 0 <= y < height && !interior(x, y, width as int, height as int)
                ==> #[trigger] cell(final(tiles)@, x, y) == cell(old(tiles)@, x, y),
    {
        let ghost w = width as int;
        let ghost h = height as int;
        let ghost t0 = tiles@;
        let ghost g0 = grid_view(t0);
        let ghost mut cur = g0;
        let mut changed = true;
        let mut pass: usize = 0;
        proof {
            assert forall|x: int, y: int| 0 <= x < w && 0 <= y < h implies
                #[trigger] cell(t0, x, y) == cell(t0, x, y) || (cell(t0, x, y) == Tile::Wall && cell(t0, x, y) == Tile::Floor) by {}
            assert(grid_ok(g0, w, h));
        }
        while changed && pass < 3
            invariant
                1 <= width <= MAX_SIDE && 1 <= height <= MAX_SIDE,
                w == width && h == height,
                grid_shape(t0, w, h),
                g0 == grid_view(t0),
                grid_shape(tiles@, w, h),
                grid_ok(cur, w, h),
                agrees(tiles@, cur, w, h),
                only_opened(t0, tiles@, w, h),
                forall|x: int, y: int| 0 <= x < w && 0 <= y < h && !interior(x, y, w, h)
                    ==> #[trigger] cell(tiles@, x, y) == cell(t0, x, y),
                pass <= 3,
                changed && pass < 3 ==> cleaned(g0, w, h, 3) == cleaned(cur, w, h, (3 - pass) as nat),
                !(changed && pass < 3) ==> cur == cleaned(g0, w, h, 3),
            decreases 3 - pass,
        {
            let ghost start = cur;
            let ghost mut k: int = 0;
            changed = false;
            pass = pass + 1;
            let mut x: usize = 1;
            while x + 1 < width
                invariant
                    1 <= width <= MAX_SIDE && 1 <= height <= MAX_SIDE,
                    w == width && h == height,
                    grid_shape(t0, w, h),
                    grid_shape(tiles@, w, h),
                    grid_ok(start, w, h),
                    agrees(tiles@, scan(start, h, k), w, h),
                    changed == opened(start, h, k),
                    only_opened(t0, tiles@, w, h),
                    forall|x: int, y: int| 0 <= x < w && 0 <= y < h && !interior(x, y, w, h)
                        ==> #[trigger] cell(tiles@, x, y) == cell(t0, x, y),
                    1 <= x <= width,
                    h >= 3 ==> k == (x - 1) * (h - 2),
                    h < 3 ==> k == 0,
                    x + 1 < width || x == 1 || x + 1 == width,
                decreases width - x,
            {
                let mut y: usize = 1;
                while y + 1 < height
                    invariant
                        1 <= width <= MAX_SIDE && 1 <= height <= MAX_SIDE,
                        w == width && h == height,
                        grid_shape(t0, w, h),
                        grid_shape(tiles@, w, h),
                        grid_ok(start, w, h),
                        agrees(tiles@, scan(start, h, k), w, h),
                        changed == opened(start, h, k),
                        only_opened(t0, tiles@, w, h),
                        forall|x: int, y: int| 0 <= x < w && 0 <= y < h && !interior(x, y, w, h)
                            ==> #[trigger] cell(tiles@, x, y) == cell(t0, x, y),
                        1 <= x && x + 1 < width,
                        1 <= y <= height,
                        h >= 3 ==> y <= h - 1,
                        h >= 3 ==> k == (x - 1) * (h - 2) + (y - 1),
                        h < 3 ==> k == 0 && y == 1,
                    decreases height - y,
                {
                    let ghost g1 = scan(start, h, k);
                    proof {
                        crate::map::lemma_cell_index(x - 1, y - 1, h - 2);
                        assert(scan_cell(k, h) == (x as int, y as int));
                        assert(k < pass_len(w, h)) by (nonlinear_arith)
                            requires k == (x - 1) * (h - 2) + (y - 1), x + 1 < w, y + 1 < h, h >= 3, w >= 3,
                                pass_len(w, h) == (w - 2) * (h - 2);
                        lemma_scan_shape(start, w, h, k);
                        assert(cell(tiles@, x as int, y as int) == g1[x as int][y as int]);
                        assert(cell(tiles@, x - 1, y as int) == g1[x - 1][y as int]);
                        assert(cell(tiles@, x + 1, y as int) == g1[x + 1][y as int]);
                        assert(cell(tiles@, x as int, y - 1) == g1[x as int][y - 1]);
                        assert(cell(tiles@, x as int, y + 1) == g1[x as int][y + 1]);
                        assert(cell(tiles@, x - 1, y - 1) == g1[x - 1][y - 1]);
                        assert(cell(tiles@, x + 1, y - 1) == g1[x + 1][y - 1]);
                        assert(cell(tiles@, x - 1, y + 1) == g1[x - 1][y + 1]);
                        assert(cell(tiles@, x + 1, y + 1) == g1[x + 1][y + 1]);
                    }
                    let mut open_it = false;
                    if tiles[x][y] == Tile::Wall {
                        let floor_nw = floor_at(tiles, x - 1, y - 1);
                        let floor_ne = floor_at(tiles, x + 1, y - 1);
                        let floor_sw = floor_at(tiles, x - 1, y + 1);
                        let floor_se = floor_at(tiles, x + 1, y + 1);
                        let floor_n = floor_at(tiles, x, y - 1);
                        let floor_s = floor_at(tiles, x, y + 1);
                        let floor_w = floor_at(tiles, x - 1, y);
                        let floor_e = floor_at(tiles, x + 1, y);
                        let diag_gap = (floor_nw && floor_se && !floor_n && !floor_s && !floor_w && !floor_e)
                            || (floor_ne && floor_sw && !floor_n && !floor_s && !floor_w && !floor_e);
                        let cardinal_walls = wall_count_at(tiles, x, y - 1) + wall_count_at(tiles, x, y + 1)
                            + wall_count_at(tiles, x - 1, y) + wall_count_at(tiles, x + 1, y);
                        let floor_count = (if floor_n { 1usize } else { 0usize }) + (if floor_s { 1usize } else { 0usize })
                            + (if floor_w { 1usize } else { 0usize }) + (if floor_e { 1usize } else { 0usize });
                        open_it = diag_gap || cardinal_walls == 0 || (cardinal_walls == 1 && floor_count >= 2);
                    }
                    assert(open_it == opens(g1, x as int, y as int));
                    if open_it {
                        let ghost before = tiles@;
                        set_cell(tiles, x, y, Tile::Floor);
                        proof {
                            let g2 = g1.update(x as int, g1[x as int].update(y as int, Tile::Floor));
                            assert(scan(start, h, k + 1) == g2);
                            assert forall|i: int, j: int| 0 <= i < w && 0 <= j < h implies #[trigger] cell(tiles@, i, j) == g2[i][j] by {
                                assert(cell(before, i, j) == g1[i][j]);
                            }
                            assert(cell(before, x as int, y as int) == Tile::Wall);
                            assert forall|i: int, j: int| 0 <= i < w && 0 <= j < h implies
                                #[trigger] cell(tiles@, i, j) == cell(t0, i, j) || (cell(t0, i, j) == Tile::Wall && cell(tiles@, i, j) == Tile::Floor) by {
                                assert(cell(before, i, j) == cell(t0, i, j) || (cell(t0, i, j) == Tile::Wall && cell(before, i, j) == Tile::Floor));
                            }
                            assert forall|i: int, j: int| 0 <= i < w && 0 <= j < h && !interior(i, j, w, h)
                                implies #[trigger] cell(tiles@, i, j) == cell(t0, i, j) by {
                                assert(cell(before, i, j) == cell(t0, i, j));
                            }
                        }
                        changed = true;
                    } else {
                        assert(scan(start, h, k + 1) == g1);
                    }
                    proof {
                        k = k + 1;
                    }
                    y = y + 1;
                }
                proof {
                    if h >= 3 {
                        assert((x - 1) * (h - 2) + (h - 2) == x * (h - 2)) by (nonlinear_arith);
                    }
                }
                x = x + 1;
            }
            proof {
                if w >= 3 && h >= 3 {
                    assert(k == pass_len(w, h));
                } else {
                    assert(k == 0);
                    assert(pass_len(w, h) == 0);
                }
                cur = scan(start, h, k);
                if h >= 3 {
                    lemma_scan_shape(start, w, h, k);
                }
            }
        }
    }
}

} // verus!
