//! Walks over the open cells of a layer of tiles: what it means for one
//! cell to be joined to another, and how carving keeps cells joined.
use vstd::prelude::*;
use crate::map::Tile;
use crate::mapgen::cell;

verus! {

/// A tile one can walk on: floor, stairs or a secret door.
pub open spec fn open_tile(t: Tile) -> bool {
    t == Tile::Floor || t == Tile::Stairs || t == Tile::SecretDoor
}

/// The cell (x, y) lies on the `w` by `h` layer and is open.
pub open spec fn open_at(t: Seq<Vec<Tile>>, w: int, h: int, x: int, y: int) -> bool {
    0 <= x < w && 0 <= y < h && open_tile(cell(t, x, y))
}

/// From (x, y) the cell (tx, ty) is at most `n` side steps away, each step
/// onto an open cell.
pub open spec fn walk(t: Seq<Vec<Tile>>, w: int, h: int, n: nat, x: int, y: int, tx: int, ty: int) -> bool
    decreases n,
{
    (x == tx && y == ty) || (n > 0 && (
        (open_at(t, w, h, x - 1, y) && walk(t, w, h, (n - 1) as nat, x - 1, y, tx, ty))
        || (open_at(t, w, h, x + 1, y) && walk(t, w, h, (n - 1) as nat, x + 1, y, tx, ty))
        || (open_at(t, w, h, x, y - 1) && walk(t, w, h, (n - 1) as nat, x, y - 1, tx, ty))
        || (open_at(t, w, h, x, y + 1) && walk(t, w, h, (n - 1) as nat, x, y + 1, tx, ty))))
}

/// (a.0, a.1) and (b.0, b.1) are joined by a walk over open cells.
pub open spec fn joined(t: Seq<Vec<Tile>>, w: int, h: int, a: (int, int), b: (int, int)) -> bool {
    exists|n: nat| #[trigger] walk(t, w, h, n, a.0, a.1, b.0, b.1)
}

/// A walk of at most `n` steps is one of at most any more.
pub proof fn lemma_walk_longer(t: Seq<Vec<Tile>>, w: int, h: int, n: nat, m: nat, x: int, y: int, tx: int, ty: int)
    requires
        walk(t, w, h, n, x, y, tx, ty),
        n <= m,
    ensures
        walk(t, w, h, m, x, y, tx, ty),
    decreases n,
{
    if x == tx && y == ty {
    } else {
        let (k, k2) = ((n - 1) as nat, (m - 1) as nat);
        if open_at(t, w, h, x - 1, y) && walk(t, w, h, k, x - 1, y, tx, ty) {
            lemma_walk_longer(t, w, h, k, k2, x - 1, y, tx, ty);
        } else if open_at(t, w, h, x + 1, y) && walk(t, w, h, k, x + 1, y, tx, ty) {
            lemma_walk_longer(t, w, h, k, k2, x + 1, y, tx, ty);
        } else if open_at(t, w, h, x, y - 1) && walk(t, w, h, k, x, y - 1, tx, ty) {
            lemma_walk_longer(t, w, h, k, k2, x, y - 1, tx, ty);
        } else {
            lemma_walk_longer(t, w, h, k, k2, x, y + 1, tx, ty);
        }
    }
}

/// Two walks, the second starting where the first ends, make one.
pub proof fn lemma_walk_join(t: Seq<Vec<Tile>>, w: int, h: int, n: nat, m: nat,
    x: int, y: int, bx: int, by: int, cx: int, cy: int)
    requires
        walk(t, w, h, n, x, y, bx, by),
        walk(t, w, h, m, bx, by, cx, cy),
    ensures
        walk(t, w, h, n + m, x, y, cx, cy),
    decreases n,
{
    if x == bx && y == by {
        lemma_walk_longer(t, w, h, m, n + m, x, y, cx, cy);
    } else {
        let k = (n - 1) as nat;
        if open_at(t, w, h, x - 1, y) && walk(t, w, h, k, x - 1, y, bx, by) {
            lemma_walk_join(t, w, h, k, m, x - 1, y, bx, by, cx, cy);
        } else if open_at(t, w, h, x + 1, y) && walk(t, w, h, k, x + 1, y, bx, by) {
            lemma_walk_join(t, w, h, k, m, x + 1, y, bx, by, cx, cy);
        } else if open_at(t, w, h, x, y - 1) && walk(t, w, h, k, x, y - 1, bx, by) {
            lemma_walk_join(t, w, h, k, m, x, y - 1, bx, by, cx, cy);
        } else {
            lemma_walk_join(t, w, h, k, m, x, y + 1, bx, by, cx, cy);
        }
    }
}

/// Joined is transitive.
pub proof fn lemma_joined_trans(t: Seq<Vec<Tile>>, w: int, h: int, a: (int, int), b: (int, int), c: (int, int))
    requires
        joined(t, w, h, a, b),
        joined(t, w, h, b, c),
    ensures
        joined(t, w, h, a, c),
{
    let n = choose|n: nat| #[trigger] walk(t, w, h, n, a.0, a.1, b.0, b.1);
    let m = choose|m: nat| #[trigger] walk(t, w, h, m, b.0, b.1, c.0, c.1);
    lemma_walk_join(t, w, h, n, m, a.0, a.1, b.0, b.1, c.0, c.1);
}

/// A walk stays a walk on a layer where every open cell is still open.
pub proof fn lemma_walk_kept(t: Seq<Vec<Tile>>, u: Seq<Vec<Tile>>, w: int, h: int, n: nat, x: int, y: int, tx: int, ty: int)
    requires
        walk(t, w, h, n, x, y, tx, ty),
        forall|i: int, j: int| open_at(t, w, h, i, j) ==> #[trigger] open_at(u, w, h, i, j),
    ensures
        walk(u, w, h, n, x, y, tx, ty),
    decreases n,
{
    if x == tx && y == ty {
    } else {
        let k = (n - 1) as nat;
        if open_at(t, w, h, x - 1, y) && walk(t, w, h, k, x - 1, y, tx, ty) {
            lemma_walk_kept(t, u, w, h, k, x - 1, y, tx, ty);
        } else if open_at(t, w, h, x + 1, y) && walk(t, w, h, k, x + 1, y, tx, ty) {
            lemma_walk_kept(t, u, w, h, k, x + 1, y, tx, ty);
        } else if open_at(t, w, h, x, y - 1) && walk(t, w, h, k, x, y - 1, tx, ty) {
            lemma_walk_kept(t, u, w, h, k, x, y - 1, tx, ty);
        } else {
            lemma_walk_kept(t, u, w, h, k, x, y + 1, tx, ty);
        }
    }
}

/// Joined cells stay joined on a layer where every open cell is still open.
pub proof fn lemma_joined_kept(t: Seq<Vec<Tile>>, u: Seq<Vec<Tile>>, w: int, h: int, a: (int, int), b: (int, int))
    requires
        joined(t, w, h, a, b),
        forall|i: int, j: int| open_at(t, w, h, i, j) ==> #[trigger] open_at(u, w, h, i, j),
    ensures
        joined(u, w, h, a, b),
{
    let n = choose|n: nat| #[trigger] walk(t, w, h, n, a.0, a.1, b.0, b.1);
    lemma_walk_kept(t, u, w, h, n, a.0, a.1, b.0, b.1);
}

/// Along a row: when every cell from (x, y) on toward (tx, y) but the
/// last one, and the last one too, is open, the walk goes straight.
pub proof fn lemma_walk_row(t: Seq<Vec<Tile>>, w: int, h: int, x: int, y: int, tx: int)
    requires
        forall|c: int| (if x <= tx { x < c <= tx } else { tx <= c < x }) ==> #[trigger] open_at(t, w, h, c, y),
    ensures
        walk(t, w, h, (if x <= tx { tx - x } else { x - tx }) as nat, x, y, tx, y),
    decreases (if x <= tx { tx - x } else { x - tx }),
{
    if x < tx {
        lemma_walk_row(t, w, h, x + 1, y, tx);
        assert(open_at(t, w, h, x + 1, y));
    } else if x > tx {
        lemma_walk_row(t, w, h, x - 1, y, tx);
        assert(open_at(t, w, h, x - 1, y));
    }
}

/// Along a column, as along a row.
pub proof fn lemma_walk_column(t: Seq<Vec<Tile>>, w: int, h: int, x: int, y: int, ty: int)
    requires
        forall|c: int| (if y <= ty { y < c <= ty } else { ty <= c < y }) ==> #[trigger] open_at(t, w, h, x, c),
    ensures
        walk(t, w, h, (if y <= ty { ty - y } else { y - ty }) as nat, x, y, x, ty),
    decreases (if y <= ty { ty - y } else { y - ty }),
{
    if y < ty {
        lemma_walk_column(t, w, h, x, y + 1, ty);
        assert(open_at(t, w, h, x, y + 1));
    } else if y > ty {
        lemma_walk_column(t, w, h, x, y - 1, ty);
        assert(open_at(t, w, h, x, y - 1));
    }
}

} // verus!
