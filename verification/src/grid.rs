//! The boolean tile grid shared by every generator, and its mathematical view.

use vstd::prelude::*;

verus! {

/// A map is a sequence of rows; `true` is a floor (walkable, occupied) tile.
/// Its width is the length of its first row.
pub open spec fn width_of(g: Seq<Seq<bool>>) -> int {
    g[0].len() as int
}

/// Every row is at least `w` tiles long, so every `(x, y)` with `x < w` and
/// `y < g.len()` names a tile.
pub open spec fn rows_at_least(g: Seq<Seq<bool>>, w: int) -> bool {
    forall|y: int| 0 <= y < g.len() ==> #[trigger] g[y].len() >= w
}

/// The map has at least one row, and no row is shorter than the first.
pub open spec fn well_shaped(g: Seq<Seq<bool>>) -> bool {
    &&& g.len() > 0
    &&& rows_at_least(g, width_of(g))
}

/// `p` names a tile of a `w` by `h` map.
pub open spec fn in_bounds(p: (int, int), w: int, h: int) -> bool {
    0 <= p.0 < w && 0 <= p.1 < h
}

/// `p` and `q` share an edge (left, right, up or down neighbours).
pub open spec fn adjacent4(p: (int, int), q: (int, int)) -> bool {
    ||| p.1 == q.1 && (q.0 == p.0 - 1 || q.0 == p.0 + 1)
    ||| p.0 == q.0 && (q.1 == p.1 - 1 || q.1 == p.1 + 1)
}

/// The rows of a grid, each taken as a sequence.
pub open spec fn grid_view<T>(v: &Vec<Vec<T>>) -> Seq<Seq<T>> {
    Seq::new(v@.len(), |i: int| v@[i]@)
}

/// `(x, y)` is one of `points`.
pub open spec fn has_point(points: Seq<(usize, usize)>, x: int, y: int) -> bool {
    exists|k: int| 0 <= k < points.len() && #[trigger] pos(points[k]) == (x, y)
}

/// `g` is `g0` with the tiles of `points` turned into floor.
pub open spec fn filled_with(g0: Seq<Seq<bool>>, g: Seq<Seq<bool>>, points: Seq<(usize, usize)>) -> bool {
    &&& g.len() == g0.len()
    &&& forall|y: int| 0 <= y < g0.len() ==> (#[trigger] g[y]).len() == g0[y].len()
    &&& forall|y: int, x: int| #![trigger g[y][x]] 0 <= y < g0.len() && 0 <= x < g0[y].len() ==>
        g[y][x] == (g0[y][x] || has_point(points, x, y))
}

/// `g` is `g0` with the tiles on which `paint` holds turned into floor.
pub open spec fn painted(g0: Seq<Seq<bool>>, g: Seq<Seq<bool>>, paint: spec_fn(int, int) -> bool) -> bool {
    &&& g.len() == g0.len()
    &&& forall|y: int| 0 <= y < g0.len() ==> (#[trigger] g[y]).len() == g0[y].len()
    &&& forall|y: int, x: int| #![trigger g[y][x]] 0 <= y < g0.len() && 0 <= x < g0[y].len() ==>
        g[y][x] == (g0[y][x] || paint(x, y))
}

/// A tile position as a pair of mathematical integers.
pub open spec fn pos(p: (usize, usize)) -> (int, int) {
    (p.0 as int, p.1 as int)
}

/// A `w` by `h` grid whose every tile holds `value`.
pub fn filled_grid<T: Copy>(width: usize, height: usize, value: T) -> (g: Vec<Vec<T>>)
    ensures
        g@.len() == height,
        forall|y: int| 0 <= y < height ==> (#[trigger] g@[y])@.len() == width,
        forall|y: int, x: int| 0 <= y < height && 0 <= x < width ==> g@[y]@[x] == value,
        forall|y: int| 0 <= y < height ==> (#[trigger] g@[y])@ == Seq::new(width as nat, |i: int| value),
{
    let mut g: Vec<Vec<T>> = Vec::new();
    let mut y: usize = 0;
    while y < height
        invariant
            y <= height,
            g@.len() == y,
            forall|j: int| 0 <= j < y ==> (#[trigger] g@[j])@.len() == width,
            forall|j: int, x: int| 0 <= j < y && 0 <= x < width ==> g@[j]@[x] == value,
            forall|j: int| 0 <= j < y ==> (#[trigger] g@[j])@ == Seq::new(width as nat, |i: int| value),
        decreases height - y,
    {
        let mut row: Vec<T> = Vec::new();
        let mut x: usize = 0;
        while x < width
            invariant
                x <= width,
                row@.len() == x,
                forall|i: int| 0 <= i < x ==> row@[i] == value,
            decreases width - x,
        {
            row.push(value);
            x = x + 1;
        }
        assert(row@ =~= Seq::new(width as nat, |i: int| value));
        g.push(row);
        y = y + 1;
    }
    g
}

/// The number of floor tiles among the first `n` tiles of a row.
pub open spec fn count_row(r: Seq<bool>, n: int) -> nat
    decreases n,
{
    if n <= 0 {
        0
    } else {
        count_row(r, n - 1) + if r[n - 1] { 1nat } else { 0nat }
    }
}

/// The number of floor tiles in the first `n` rows, counting the first `w`
/// tiles of each row.
pub open spec fn count_grid(g: Seq<Seq<bool>>, w: int, n: int) -> nat
    decreases n,
{
    if n <= 0 {
        0
    } else {
        count_grid(g, w, n - 1) + count_row(g[n - 1], w)
    }
}

/// At most `n` of the first `n` tiles are floor.
pub proof fn lemma_count_row_bound(r: Seq<bool>, n: int)
    requires
        n >= 0,
    ensures
        count_row(r, n) <= n,
    decreases n,
{
    if n > 0 {
        lemma_count_row_bound(r, n - 1);
    }
}

/// At most `n * w` tiles of the counted area are floor.
pub proof fn lemma_count_grid_bound(g: Seq<Seq<bool>>, w: int, n: int)
    requires
        n >= 0,
        w >= 0,
    ensures
        count_grid(g, w, n) <= n * w,
    decreases n,
{
    if n > 0 {
        lemma_count_grid_bound(g, w, n - 1);
        lemma_count_row_bound(g[n - 1], w);
        assert(n * w == (n - 1) * w + w) by (nonlinear_arith);
    }
}

/// Turning one wall tile of the counted area into floor adds one to the count.
pub proof fn lemma_count_row_set(r: Seq<bool>, n: int, x: int)
    requires
        0 <= x < n <= r.len(),
        !r[x],
    ensures
        count_row(r.update(x, true), n) == count_row(r, n) + 1,
    decreases n,
{
    if n - 1 > x {
        lemma_count_row_set(r, n - 1, x);
    } else {
        lemma_count_row_same(r, r.update(x, true), n - 1);
    }
}

/// Rows that agree on their first `n` tiles have the same count there.
pub proof fn lemma_count_row_same(r: Seq<bool>, s: Seq<bool>, n: int)
    requires
        0 <= n <= r.len(),
        n <= s.len(),
        forall|i: int| 0 <= i < n ==> r[i] == s[i],
    ensures
        count_row(r, n) == count_row(s, n),
    decreases n,
{
    if n > 0 {
        lemma_count_row_same(r, s, n - 1);
    }
}

/// Turning one wall tile of the counted area of a grid into floor adds one
/// to the count.
pub proof fn lemma_count_grid_set(g: Seq<Seq<bool>>, w: int, n: int, x: int, y: int)
    requires
        0 <= y < n <= g.len(),
        0 <= x < w,
        rows_at_least(g, w),
        !g[y][x],
    ensures
        count_grid(g.update(y, g[y].update(x, true)), w, n) == count_grid(g, w, n) + 1,
    decreases n,
{
    let u = g.update(y, g[y].update(x, true));
    if n - 1 > y {
        lemma_count_grid_set(g, w, n - 1, x, y);
    } else {
        lemma_count_grid_same(g, u, w, n - 1);
        lemma_count_row_set(g[y], w, x);
    }
}

/// Grids that agree on their first `n` rows have the same count there.
pub proof fn lemma_count_grid_same(g: Seq<Seq<bool>>, u: Seq<Seq<bool>>, w: int, n: int)
    requires
        0 <= n <= g.len(),
        n <= u.len(),
        forall|i: int| 0 <= i < n ==> g[i] == u[i],
    ensures
        count_grid(g, w, n) == count_grid(u, w, n),
    decreases n,
{
    if n > 0 {
        lemma_count_grid_same(g, u, w, n - 1);
    }
}

} // verus!
