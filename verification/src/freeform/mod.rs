//! Free-form cave generation: seed shapes, random walks, diffusion-limited
//! aggregation and cellular-automaton smoothing on a boolean grid.

pub mod ca;
pub mod dla;
pub mod line;

use vstd::prelude::*;
use crate::grid::{filled_with, grid_view, has_point, in_bounds, painted, pos, rows_at_least};
use crate::random::{random_below, thread_rng};

verus! {

/// The middle tile of a map: half its width, half its height (rounded down).
pub fn center(map: &Vec<Vec<bool>>) -> (c: (usize, usize))
    requires
        map@.len() > 0,
    ensures
        c.0 == map@[0]@.len() / 2,
        c.1 == map@.len() / 2,
{
    let width = map[0].len();
    let height = map.len();
    (width / 2, height / 2)
}

/// Places a single seed in the middle of the map: the tile of `center`
/// becomes floor, every other tile keeps its value.
pub fn center_seed(map: &mut Vec<Vec<bool>>)
    requires
        old(map)@.len() > 0,
        old(map)@[(old(map)@.len() / 2) as int]@.len() > old(map)@[0]@.len() / 2,
    ensures
        painted(
            grid_view(old(map)),
            grid_view(final(map)),
            |x: int, y: int| x == old(map)@[0]@.len() / 2 && y == old(map)@.len() / 2,
        ),
{
    let ghost g0 = grid_view(map);
    let (cx, cy) = center(map);
    map[cy][cx] = true;
    proof {
        let g = grid_view(map);
        assert forall|y: int| 0 <= y < g0.len() implies (#[trigger] g[y]).len() == g0[y].len() by {
            assert(g[y] == map@[y]@);
            assert(g0[y] == old(map)@[y]@);
        }
        assert forall|y: int, x: int| 0 <= y < g0.len() && 0 <= x < g0[y].len() implies
            #[trigger] g[y][x] == (g0[y][x] || (x == cx && y == cy)) by {
            assert(g[y] == map@[y]@);
            assert(g0[y] == old(map)@[y]@);
        }
    }
}

/// The map after `resize`: a `nw` by `nh` grid of walls onto which the
/// overlapping part of `g` (of width `ow`) is copied, centred when the new
/// size is larger and anchored at the top-left corner when it is smaller.
pub open spec fn resized(g: Seq<Seq<bool>>, ow: int, nw: int, nh: int) -> Seq<Seq<bool>> {
    let oh = g.len() as int;
    let ox = if nw > ow { (nw - ow) / 2 } else { 0 };
    let oy = if nh > oh { (nh - oh) / 2 } else { 0 };
    Seq::new(
        nh as nat,
        |y: int|
            Seq::new(
                nw as nat,
                |x: int|
                    if 0 <= x - ox < ow && x - ox < nw && 0 <= y - oy < oh && y - oy < nh {
                        g[y - oy][x - ox]
                    } else {
                        false
                    },
            ),
    )
}

/// Resizing a rectangular map to its own size gives the same map back.
pub proof fn lemma_resize_same_size(g: Seq<Seq<bool>>, w: int)
    requires
        w >= 0,
        forall|y: int| 0 <= y < g.len() ==> #[trigger] g[y].len() == w,
    ensures
        resized(g, w, w, g.len() as int) == g,
{
    let r = resized(g, w, w, g.len() as int);
    assert forall|y: int| 0 <= y < g.len() implies #[trigger] r[y] =~= g[y] by {}
    assert(r =~= g);
}

fn min_usize(a: usize, b: usize) -> (m: usize)
    ensures
        m == if a < b { a } else { b },
{
    if a < b { a } else { b }
}

/// Resizes the map to `new_width` by `new_height` (see `resized`).
pub fn resize(map: &mut Vec<Vec<bool>>, new_width: usize, new_height: usize)
    requires
        old(map)@.len() > 0,
        forall|y: int| 0 <= y < old(map)@.len() && y < new_height ==>
            (#[trigger] old(map)@[y])@.len() >= vstd::math::min(old(map)@[0]@.len() as int, new_width as int),
    ensures
        grid_view(final(map)) == resized(grid_view(old(map)), old(map)@[0]@.len() as int, new_width as int, new_height as int),
{
    let old_width = map[0].len();
    let old_height = map.len();
    let ghost g = grid_view(map);

    let offset_x = (if new_width > old_width { new_width - old_width } else { 0 }) / 2;
    let offset_y = (if new_height > old_height { new_height - old_height } else { 0 }) / 2;

    let mut new_map = crate::grid::filled_grid(new_width, new_height, false);
    let copy_height = min_usize(old_height, new_height);
    let copy_width = min_usize(old_width, new_width);

    let mut y: usize = 0;
    while y < copy_height
        invariant
            y <= copy_height,
            copy_height <= old_height,
            copy_height <= new_height,
            copy_width <= old_width,
            copy_width <= new_width,
            old_height == g.len(),
            old_width == g[0].len(),
            grid_view(map) == g,
            offset_x == (if new_width > old_width { new_width - old_width } else { 0 }) / 2,
            offset_y == (if new_height > old_height { new_height - old_height } else { 0 }) / 2,
            forall|j: int| 0 <= j < g.len() && j < new_height ==> (#[trigger] g[j]).len() >= copy_width,
            new_map@.len() == new_height,
            forall|j: int| 0 <= j < new_height ==> (#[trigger] new_map@[j])@.len() == new_width,
            forall|j: int, i: int| #![trigger new_map@[j]@[i]] 0 <= j < new_height && 0 <= i < new_width ==>
                new_map@[j]@[i] == if 0 <= i - offset_x < copy_width && 0 <= j - offset_y < y {
                    g[j - offset_y][i - offset_x]
                } else {
                    false
                },
        decreases copy_height - y,
    {
        let mut x: usize = 0;
        assert(g[y as int] == map@[y as int]@);
        while x < copy_width
            invariant
                x <= copy_width,
                y < copy_height,
                copy_height <= old_height,
                copy_height <= new_height,
                copy_width <= old_width,
                copy_width <= new_width,
                old_height == g.len(),
                old_width == g[0].len(),
                grid_view(map) == g,
                g[y as int] == map@[y as int]@,
                g[y as int].len() >= copy_width,
                offset_x == (if new_width > old_width { new_width - old_width } else { 0 }) / 2,
                offset_y == (if new_height > old_height { new_height - old_height } else { 0 }) / 2,
                new_map@.len() == new_height,
                forall|j: int| 0 <= j < new_height ==> (#[trigger] new_map@[j])@.len() == new_width,
                forall|j: int, i: int| #![trigger new_map@[j]@[i]] 0 <= j < new_height && 0 <= i < new_width ==>
                    new_map@[j]@[i] == if 0 <= i - offset_x < copy_width && (0 <= j - offset_y < y || (j - offset_y
                        == y && i - offset_x < x)) {
                        g[j - offset_y][i - offset_x]
                    } else {
                        false
                    },
            decreases copy_width - x,
        {
            let v = map[y][x];
            new_map[y + offset_y][x + offset_x] = v;
            x = x + 1;
        }
        y = y + 1;
    }
    proof {
        let r = resized(g, old_width as int, new_width as int, new_height as int);
        assert forall|j: int| 0 <= j < new_height implies (#[trigger] grid_view(&new_map)[j]) =~= r[j] by {
            assert forall|i: int| 0 <= i < new_width implies grid_view(&new_map)[j][i] == r[j][i] by {
                assert(new_map@[j]@[i] == grid_view(&new_map)[j][i]);
            }
        }
        assert(grid_view(&new_map) =~= r);
    }
    *map = new_map;
}

/// Turns every listed `(x, y)` into floor.
pub fn fill(map: &mut Vec<Vec<bool>>, points: &Vec<(usize, usize)>)
    requires
        forall|i: int| 0 <= i < points@.len() ==> (#[trigger] points@[i]).1 < old(map)@.len()
            && points@[i].0 < old(map)@[points@[i].1 as int]@.len(),
    ensures
        filled_with(grid_view(old(map)), grid_view(final(map)), points@),
{
    let ghost g = grid_view(map);
    let mut i: usize = 0;
    while i < points.len()
        invariant
            i <= points@.len(),
            g == grid_view(old(map)),
            forall|i: int| 0 <= i < points@.len() ==> (#[trigger] points@[i]).1 < g.len()
                && points@[i].0 < g[points@[i].1 as int].len(),
            map@.len() == g.len(),
            forall|y: int| 0 <= y < g.len() ==> (#[trigger] map@[y])@.len() == g[y].len(),
            forall|y: int, x: int| #![trigger map@[y]@[x]] 0 <= y < g.len() && 0 <= x < g[y].len()
                ==> map@[y]@[x] == (g[y][x] || has_point(points@.take(i as int), x, y)),
        decreases points@.len() - i,
    {
        let (x, y) = points[i];
        map[y][x] = true;
        proof {
            let t = points@.take(i as int + 1);
            let t0 = points@.take(i as int);
            assert(t[i as int] == (x, y));
            assert forall|yy: int, xx: int| #![trigger map@[yy]@[xx]] 0 <= yy < g.len() && 0 <= xx < g[yy].len()
                implies map@[yy]@[xx] == (g[yy][xx] || has_point(t, xx, yy)) by {
                if has_point(t0, xx, yy) {
                    let k = choose|k: int| 0 <= k < t0.len() && #[trigger] pos(t0[k]) == (xx, yy);
                    assert(pos(t[k]) == (xx, yy));
                }
                if has_point(t, xx, yy) && (xx, yy) != (x as int, y as int) {
                    let k = choose|k: int| 0 <= k < t.len() && #[trigger] pos(t[k]) == (xx, yy);
                    assert(k < i);
                    assert(pos(t0[k]) == (xx, yy));
                }
                if (xx, yy) == (x as int, y as int) {
                    assert(pos(t[i as int]) == (xx, yy));
                }
            }
        }
        i = i + 1;
    }
    assert(points@.take(points@.len() as int) =~= points@);
    assert forall|y: int, x: int| #![trigger grid_view(map)[y][x]] 0 <= y < g.len() && 0 <= x < g[y].len() implies
        grid_view(map)[y][x] == (g[y][x] || has_point(points@, x, y)) by {
        assert(map@[y]@[x] == grid_view(map)[y][x]);
    }
}

/// `count` random tiles of the map, each drawn uniformly: `x` below the
/// width (the length of the first row), then `y` below the height. Whatever
/// the draws, there are `count` of them and all lie on the map.
pub fn random(map: &Vec<Vec<bool>>, count: usize) -> (points: Vec<(usize, usize)>)
    requires
        map@.len() > 0,
        count > 0 ==> map@[0]@.len() > 0,
    ensures
        points@.len() == count,
        forall|i: int| 0 <= i < count ==> in_bounds(pos(#[trigger] points@[i]), map@[0]@.len() as int, map@.len() as int),
{
    let mut rng = thread_rng();
    let width = map[0].len();
    let height = map.len();
    let mut points: Vec<(usize, usize)> = Vec::new();
    let mut i: usize = 0;
    while i < count
        invariant
            i <= count,
            count > 0 ==> width > 0,
            height > 0,
            width == map@[0]@.len(),
            height == map@.len(),
            points@.len() == i,
            forall|k: int| 0 <= k < i ==> in_bounds(pos(#[trigger] points@[k]), width as int, height as int),
        decreases count - i,
    {
        let x = random_below(&mut rng, width);
        let y = random_below(&mut rng, height);
        points.push((x, y));
        i = i + 1;
    }
    points
}

/// Turns `count` random tiles (see `random`) into floor: whatever the draws,
/// exactly the tiles of some `count` in-bounds points become floor.
pub fn random_seeds(map: &mut Vec<Vec<bool>>, count: usize)
    requires
        old(map)@.len() > 0,
        count > 0 ==> old(map)@[0]@.len() > 0,
        rows_at_least(grid_view(old(map)), old(map)@[0]@.len() as int),
    ensures
        exists|points: Seq<(usize, usize)>|
            {
                &&& #[trigger] filled_with(grid_view(old(map)), grid_view(final(map)), points)
                &&& points.len() == count
                &&& forall|i: int| 0 <= i < count ==> in_bounds(
                    pos(#[trigger] points[i]),
                    old(map)@[0]@.len() as int,
                    old(map)@.len() as int,
                )
            },
{
    let points = random(map, count);
    proof {
        let g = grid_view(map);
        assert forall|i: int| 0 <= i < points@.len() implies (#[trigger] points@[i]).1 < map@.len()
            && points@[i].0 < map@[points@[i].1 as int]@.len() by {
            assert(g[points@[i].1 as int].len() >= g[0].len());
        }
    }
    fill(map, &points);
}

/// The number of multiples of `s` (0, `s`, `2s`, ...) below `n`.
pub open spec fn multiples_below(n: int, s: int) -> int {
    if n <= 0 { 0 } else { (n - 1) / s + 1 }
}

proof fn lemma_multiples_below(n: int, s: int, r: int)
    requires
        s > 0,
        r >= 0,
        n >= 0,
    ensures
        r * s < n <==> r < multiples_below(n, s),
        multiples_below(n, s) >= 0,
{
    if n > 0 {
        let m = (n - 1) / s;
        vstd::arithmetic::div_mod::lemma_fundamental_div_mod(n - 1, s);
        vstd::arithmetic::div_mod::lemma_mod_bound(n - 1, s);
        assert(n - 1 == s * m + (n - 1) % s);
        assert(m >= 0) by {
            vstd::arithmetic::div_mod::lemma_div_pos_is_pos(n - 1, s);
        }
        if r < m + 1 {
            assert(r * s <= m * s) by (nonlinear_arith)
                requires
                    r <= m,
                    s > 0;
        } else {
            assert(r * s >= (m + 1) * s) by (nonlinear_arith)
                requires
                    r >= m + 1,
                    s > 0;
            assert((m + 1) * s == m * s + s) by (nonlinear_arith);
        }
    }
}

/// The seeds of `regular`: the multiples of `s` below `w` (as `x`, outer)
/// crossed with the multiples of `s` below `h` (as `y`, inner).
pub open spec fn regular_grid(w: int, h: int, s: int) -> Seq<(usize, usize)> {
    let cols = multiples_below(w, s);
    let rows = multiples_below(h, s);
    Seq::new((cols * rows) as nat, |k: int| (((k / rows) * s) as usize, ((k % rows) * s) as usize))
}

/// Seeds in a regular grid pattern: every `spacing`-th column and row,
/// column by column.
pub fn regular(map: &Vec<Vec<bool>>, spacing: usize) -> (seeds: Vec<(usize, usize)>)
    requires
        map@.len() > 0,
        spacing > 0,
    ensures
        seeds@ == regular_grid(map@[0]@.len() as int, map@.len() as int, spacing as int),
{
    let width = map[0].len();
    let height = map.len();
    let cols = if width == 0 { 0 } else { (width - 1) / spacing + 1 };
    let rows = if height == 0 { 0 } else { (height - 1) / spacing + 1 };
    let ghost w = width as int;
    let ghost h = height as int;
    let ghost s = spacing as int;
    assert(cols == multiples_below(w, s));
    assert(rows == multiples_below(h, s));
    proof {
        lemma_multiples_below(w, s, 0);
        lemma_multiples_below(h, s, 0);
        assert(cols * rows >= 0) by (nonlinear_arith)
            requires
                cols >= 0,
                rows >= 0;
    }
    let mut seeds: Vec<(usize, usize)> = Vec::new();
    let mut c: usize = 0;
    while c < cols
        invariant
            c <= cols,
            cols == multiples_below(w, s),
            rows == multiples_below(h, s),
            w == width,
            h == height,
            s == spacing,
            s > 0,
            seeds@.len() == c * rows,
            cols * rows == regular_grid(w, h, s).len(),
            forall|k: int| 0 <= k < c * rows ==> #[trigger] seeds@[k] == regular_grid(w, h, s)[k],
        decreases cols - c,
    {
        proof {
            lemma_multiples_below(w, s, c as int);
        }
        assert(c * spacing < width);
        let i = c * spacing;
        let mut r: usize = 0;
        while r < rows
            invariant
                c < cols,
                r <= rows,
                i == c * s,
                cols == multiples_below(w, s),
                rows == multiples_below(h, s),
                w == width,
                h == height,
                s == spacing,
                s > 0,
                seeds@.len() == c * rows + r,
                cols * rows == regular_grid(w, h, s).len(),
                forall|k: int| 0 <= k < c * rows + r ==> #[trigger] seeds@[k] == regular_grid(w, h, s)[k],
            decreases rows - r,
        {
            proof {
                lemma_multiples_below(h, s, r as int);
                vstd::arithmetic::div_mod::lemma_fundamental_div_mod_converse(
                    c * rows + r,
                    rows as int,
                    c as int,
                    r as int,
                );
                assert(c * rows + r == rows * c + r) by (nonlinear_arith);
            }
            assert(r * spacing < height);
            let j = r * spacing;
            proof {
                let k = c * rows + r;
                assert(k < cols * rows) by (nonlinear_arith)
                    requires
                        c < cols,
                        r < rows,
                        k == c * rows + r;
                assert(regular_grid(w, h, s)[k] == (i, j));
            }
            seeds.push((i, j));
            r = r + 1;
        }
        assert((c + 1) * rows == c * rows + rows) by (nonlinear_arith);
        c = c + 1;
    }
    assert(seeds@ =~= regular_grid(w, h, s));
    seeds
}

/// Turns the seeds of `regular` into floor.
pub fn regular_seeds(map: &mut Vec<Vec<bool>>, spacing: usize)
    requires
        old(map)@.len() > 0,
        spacing > 0,
        rows_at_least(grid_view(old(map)), old(map)@[0]@.len() as int),
    ensures
        filled_with(
            grid_view(old(map)),
            grid_view(final(map)),
            regular_grid(old(map)@[0]@.len() as int, old(map)@.len() as int, spacing as int),
        ),
{
    let seeds = regular(map, spacing);
    proof {
        let g = grid_view(map);
        let w = g[0].len() as int;
        let h = g.len() as int;
        let s = spacing as int;
        let rows = multiples_below(h, s);
        assert forall|i: int| 0 <= i < seeds@.len() implies (#[trigger] seeds@[i]).1 < map@.len()
            && seeds@[i].0 < map@[seeds@[i].1 as int]@.len() by {
            let cols = multiples_below(w, s);
            lemma_multiples_below(w, s, 0);
            lemma_multiples_below(h, s, 0);
            assert(rows > 0 && cols > 0) by {
                if rows <= 0 || cols <= 0 {
                    assert(cols * rows <= 0) by (nonlinear_arith)
                        requires
                            cols >= 0,
                            rows >= 0,
                            rows <= 0 || cols <= 0;
                }
            }
            vstd::arithmetic::div_mod::lemma_div_pos_is_pos(i, rows);
            vstd::arithmetic::div_mod::lemma_mod_bound(i, rows);
            assert(i / rows < cols) by {
                vstd::arithmetic::div_mod::lemma_div_by_multiple_is_strongly_ordered(i, cols * rows, cols, rows);
                if i / rows >= cols {
                    vstd::arithmetic::div_mod::lemma_fundamental_div_mod(i, rows);
                    assert(i >= rows * (i / rows)) by (nonlinear_arith)
                        requires
                            i % rows >= 0,
                            i == rows * (i / rows) + i % rows;
                    assert(rows * (i / rows) >= rows * cols) by (nonlinear_arith)
                        requires
                            i / rows >= cols,
                            rows > 0;
                    assert(rows * cols == cols * rows) by (nonlinear_arith);
                }
            }
            lemma_multiples_below(w, s, i / rows);
            lemma_multiples_below(h, s, i % rows);
            assert(g[seeds@[i].1 as int].len() >= w);
        }
    }
    fill(map, &seeds);
}

/// The inclusive range `[c - r, c + r]`, cut to `[0, n - 1]`.
pub open spec fn clipped_range(c: int, r: int, n: int) -> (int, int) {
    (if c >= r { c - r } else { 0 }, if c + r < n - 1 { c + r } else { n - 1 })
}

/// `(x, y)` lies in the square of half-size `hs` around the middle of a `w`
/// by `h` map, cut to the map.
pub open spec fn in_square(w: int, h: int, hs: int, x: int, y: int) -> bool {
    let (xlo, xhi) = clipped_range(w / 2, hs, w);
    let (ylo, yhi) = clipped_range(h / 2, hs, h);
    xlo <= x <= xhi && ylo <= y <= yhi
}

/// Fills the square of half-size `half_size` around the middle of the map
/// (see `in_square`).
pub fn square_fill_seeds(map: &mut Vec<Vec<bool>>, half_size: usize)
    requires
        old(map)@.len() > 0,
        old(map)@[0]@.len() > 0,
        rows_at_least(grid_view(old(map)), old(map)@[0]@.len() as int),
        old(map)@.len() / 2 + half_size <= usize::MAX,
        old(map)@[0]@.len() / 2 + half_size <= usize::MAX,
    ensures
        painted(
            grid_view(old(map)),
            grid_view(final(map)),
            |x: int, y: int| in_square(old(map)@[0]@.len() as int, old(map)@.len() as int, half_size as int, x, y),
        ),
{
    let width = map[0].len();
    let height = map.len();
    let ghost g0 = grid_view(map);
    let ghost w = width as int;
    let ghost h = height as int;
    let center_x = width / 2;
    let center_y = height / 2;
    let y_lo = if center_y >= half_size { center_y - half_size } else { 0 };
    let y_hi = min_usize(center_y + half_size, height - 1);
    let x_lo = if center_x >= half_size { center_x - half_size } else { 0 };
    let x_hi = min_usize(center_x + half_size, width - 1);

    let mut y = y_lo;
    while y <= y_hi
        invariant
            y_lo <= y <= y_hi + 1,
            y_hi < height,
            x_hi < width,
            w == width,
            h == height,
            (x_lo as int, x_hi as int) == clipped_range(w / 2, half_size as int, w),
            (y_lo as int, y_hi as int) == clipped_range(h / 2, half_size as int, h),
            rows_at_least(g0, w),
            g0.len() == h,
            painted(g0, grid_view(map), |xx: int, yy: int| x_lo <= xx <= x_hi && y_lo <= yy < y),
        decreases y_hi + 1 - y,
    {
        let mut x = x_lo;
        while x <= x_hi
            invariant
                y_lo <= y <= y_hi,
                x_lo <= x <= x_hi + 1,
                y_hi < height,
                x_hi < width,
                w == width,
                h == height,
                rows_at_least(g0, w),
                g0.len() == h,
                painted(
                    g0,
                    grid_view(map),
                    |xx: int, yy: int| x_lo <= xx <= x_hi && (y_lo <= yy < y || (yy == y && xx < x)),
                ),
            decreases x_hi + 1 - x,
        {
            let ghost before = grid_view(map);
            assert(g0[y as int].len() >= w);
            assert(map@[y as int]@ == before[y as int]);
            map[y][x] = true;
            assert(grid_view(map) =~= before.update(y as int, before[y as int].update(x as int, true)));
            x = x + 1;
        }
        y = y + 1;
    }
}

/// `(x, y)` lies on the cross of the given `thickness` and arm `length`
/// around `(cx, cy)` on a `w` by `h` map: a horizontal bar of `thickness`
/// rows starting `thickness / 2` rows above `cy`, reaching less than `length`
/// tiles left and right of `cx`, and the matching vertical bar.
pub open spec fn in_cross(cx: int, cy: int, w: int, h: int, thickness: int, length: int, x: int, y: int) -> bool {
    let half = thickness / 2;
    ||| 0 <= y - cy + half < thickness && cx - length < x < cx + length && x < w
    ||| 0 <= x - cx + half < thickness && cy - length < y < cy + length && y < h
}

/// The part of the cross drawn once the bars with offsets below `t` are
/// done, and the bars with offset `t` have reached less than `l` tiles.
pub open spec fn cross_drawn(
    cx: int,
    cy: int,
    w: int,
    h: int,
    thickness: int,
    length: int,
    t: int,
    l: int,
    x: int,
    y: int,
) -> bool {
    let half = thickness / 2;
    ||| 0 <= y - cy + half < t && cx - length < x < cx + length && x < w
    ||| y - cy + half == t && cx - l < x < cx + l && x < w
    ||| 0 <= x - cx + half < t && cy - length < y < cy + length && y < h
    ||| x - cx + half == t && cy - l < y < cy + l && y < h
}

/// Draws a cross around the middle of the map (see `in_cross`).
pub fn cross_seeds(map: &mut Vec<Vec<bool>>, thickness: usize, length: usize)
    requires
        old(map)@.len() > 0,
        rows_at_least(grid_view(old(map)), old(map)@[0]@.len() as int),
        thickness <= isize::MAX,
        thickness > 0 && length > 0 ==> {
            let w = old(map)@[0]@.len() as int;
            let h = old(map)@.len() as int;
            let half = thickness / 2;
            // every bar lies on the map
            &&& w / 2 >= half && w / 2 + thickness - 1 - half < w
            &&& h / 2 >= half && h / 2 + thickness - 1 - half < h
            &&& w / 2 + length <= usize::MAX
            &&& h / 2 + length <= usize::MAX
        },
    ensures
        painted(
            grid_view(old(map)),
            grid_view(final(map)),
            |x: int, y: int|
                in_cross(
                    old(map)@[0]@.len() as int / 2,
                    old(map)@.len() as int / 2,
                    old(map)@[0]@.len() as int,
                    old(map)@.len() as int,
                    thickness as int,
                    length as int,
                    x,
                    y,
                ),
        ),
{
    let width = map[0].len();
    let height = map.len();
    let ghost g0 = grid_view(map);
    let ghost w = width as int;
    let ghost h = height as int;
    let center_x = width / 2;
    let center_y = height / 2;
    let half = thickness / 2;
    let ghost cx = center_x as int;
    let ghost cy = center_y as int;
    let ghost th = thickness as int;
    let ghost len = length as int;

    if length == 0 {
        assert(painted(g0, grid_view(map), |x: int, y: int| in_cross(cx, cy, w, h, th, len, x, y)));
        return;
    }
    let mut t: usize = 0;
    while t < thickness
        invariant
            t <= thickness,
            length > 0,
            w == width,
            h == height,
            cx == center_x,
            cy == center_y,
            center_x == width / 2,
            center_y == height / 2,
            th == thickness,
            len == length,
            half == thickness / 2,
            thickness > 0 ==> {
                &&& center_x >= half && center_x + thickness - 1 - half < width
                &&& center_y >= half && center_y + thickness - 1 - half < height
                &&& center_x + length <= usize::MAX
                &&& center_y + length <= usize::MAX
            },
            rows_at_least(g0, w),
            g0.len() == h,
            painted(g0, grid_view(map), |x: int, y: int| cross_drawn(cx, cy, w, h, th, len, t as int, 0, x, y)),
        decreases thickness - t,
    {
        // the row and column of this offset
        let row = if t >= half { center_y + (t - half) } else { center_y - (half - t) };
        let col = if t >= half { center_x + (t - half) } else { center_x - (half - t) };
        let mut l: usize = 0;
        while l < length
            invariant
                t < thickness,
                l <= length,
                w == width,
                h == height,
                cx == center_x,
                cy == center_y,
                center_x == width / 2,
                center_y == height / 2,
                th == thickness,
                len == length,
                half == thickness / 2,
                row == center_y + t - half,
                col == center_x + t - half,
                row < height,
                col < width,
                center_x + length <= usize::MAX,
                center_y + length <= usize::MAX,
                rows_at_least(g0, w),
                g0.len() == h,
                painted(g0, grid_view(map), |x: int, y: int| cross_drawn(cx, cy, w, h, th, len, t as int, l as int, x, y)),
            decreases length - l,
        {
            let ghost b0 = grid_view(map);
            if center_x + l < width {
                assert(g0[row as int].len() >= w);
                assert(map@[row as int]@ == b0[row as int]);
                map[row][center_x + l] = true;
            }
            let ghost b1 = grid_view(map);
            if center_x >= l {
                assert(g0[row as int].len() >= w);
                assert(map@[row as int]@ == b1[row as int]);
                map[row][center_x - l] = true;
            }
            let ghost b2 = grid_view(map);
            if center_y + l < height {
                assert(g0[(center_y + l) as int].len() >= w);
                assert(map@[(center_y + l) as int]@ == b2[(center_y + l) as int]);
                assert(b0[(center_y + l) as int].len() == g0[(center_y + l) as int].len());
                assert(b1[(center_y + l) as int].len() == b0[(center_y + l) as int].len());
                assert(b2[(center_y + l) as int].len() == b1[(center_y + l) as int].len());
                map[center_y + l][col] = true;
            }
            let ghost b3 = grid_view(map);
            if center_y >= l {
                assert(g0[(center_y - l) as int].len() >= w);
                assert(map@[(center_y - l) as int]@ == b3[(center_y - l) as int]);
                assert(b0[(center_y - l) as int].len() == g0[(center_y - l) as int].len());
                assert(b1[(center_y - l) as int].len() == b0[(center_y - l) as int].len());
                assert(b2[(center_y - l) as int].len() == b1[(center_y - l) as int].len());
                assert(b3[(center_y - l) as int].len() == b2[(center_y - l) as int].len());
                map[center_y - l][col] = true;
            }
            proof {
                let g = grid_view(map);
                let t_ = t as int;
                let l_ = l as int;
                assert forall|y: int, x: int| #![trigger g[y][x]] 0 <= y < g0.len() && 0 <= x < g0[y].len() implies
                    g[y][x] == (g0[y][x] || cross_drawn(cx, cy, w, h, th, len, t_, l_ + 1, x, y)) by {
                    assert(b0[y][x] == (g0[y][x] || cross_drawn(cx, cy, w, h, th, len, t_, l_, x, y)));
                }
                assert(g.len() == g0.len());
                assert forall|y: int| 0 <= y < g0.len() implies (#[trigger] g[y]).len() == g0[y].len() by {
                    assert(b0[y].len() == g0[y].len());
                }
            }
            l = l + 1;
        }
        proof {
            let g = grid_view(map);
            assert forall|y: int, x: int| #![trigger g[y][x]] 0 <= y < g0.len() && 0 <= x < g0[y].len() implies
                g[y][x] == (g0[y][x] || cross_drawn(cx, cy, w, h, th, len, t as int + 1, 0, x, y)) by {
                assert(g[y][x] == (g0[y][x] || cross_drawn(cx, cy, w, h, th, len, t as int, len, x, y)));
            }
        }
        t = t + 1;
    }
    proof {
        let g = grid_view(map);
        assert forall|y: int, x: int| #![trigger g[y][x]] 0 <= y < g0.len() && 0 <= x < g0[y].len() implies
            g[y][x] == (g0[y][x] || in_cross(cx, cy, w, h, th, len, x, y)) by {
            assert(g[y][x] == (g0[y][x] || cross_drawn(cx, cy, w, h, th, len, th, 0, x, y)));
        }
    }
}

/// `(x, y)` lies in the disc of the given `radius` around the middle of a
/// `w` by `h` map, whose centre is `(w / 2, h / 2)` taken exactly (it may
/// fall between tiles); the test is done exactly, on doubled coordinates.
pub open spec fn in_disc(w: int, h: int, radius: int, x: int, y: int) -> bool {
    (2 * x - w) * (2 * x - w) + (2 * y - h) * (2 * y - h) <= 4 * radius * radius
}

/// Fills the disc of radius `radius`, at most `2^40`, around the middle of
/// the map.
fn fill_disc(map: &mut Vec<Vec<bool>>, radius: usize)
    requires
        old(map)@.len() > 0,
        rows_at_least(grid_view(old(map)), old(map)@[0]@.len() as int),
        old(map)@[0]@.len() <= 0x100_0000_0000,
        old(map)@.len() <= 0x100_0000_0000,
        radius <= 0x100_0000_0000,
    ensures
        painted(
            grid_view(old(map)),
            grid_view(final(map)),
            |x: int, y: int|
                x < old(map)@[0]@.len() && y < old(map)@.len() && in_disc(
                    old(map)@[0]@.len() as int,
                    old(map)@.len() as int,
                    radius as int,
                    x,
                    y,
                ),
        ),
{
    let width = map[0].len();
    let height = map.len();
    let ghost g0 = grid_view(map);
    let ghost w = width as int;
    let ghost h = height as int;
    let ghost r = radius as int;
    let rr = radius as i128;
    assert(4 * rr * rr <= 0x4_0000_0000_0000_0000_0000 && 4 * rr >= 0) by (nonlinear_arith)
        requires
            0 <= rr <= 0x100_0000_0000;
    let limit: i128 = 4 * rr * rr;
    let mut y: usize = 0;
    while y < height
        invariant
            y <= height,
            w == width,
            h == height,
            r == radius,
            width <= 0x100_0000_0000,
            height <= 0x100_0000_0000,
            radius <= 0x100_0000_0000,
            limit == 4 * r * r,
            g0.len() == h,
            rows_at_least(g0, w),
            painted(g0, grid_view(map), |xx: int, yy: int| xx < w && yy < y && in_disc(w, h, r, xx, yy)),
        decreases height - y,
    {
        let dy: i128 = 2 * (y as i128) - (height as i128);
        assert(dy * dy <= 0x1_0000_0000_0000_0000_0000_0000) by (nonlinear_arith)
            requires
                -0x100_0000_0000 <= dy <= 0x200_0000_0000;
        assert(dy * dy >= 0) by (nonlinear_arith);
        let dy2 = dy * dy;
        let mut x: usize = 0;
        while x < width
            invariant
                x <= width,
                y < height,
                w == width,
                h == height,
                r == radius,
                width <= 0x100_0000_0000,
                height <= 0x100_0000_0000,
                limit == 4 * r * r,
                dy == 2 * y - h,
                dy2 == dy * dy,
                dy2 <= 0x1_0000_0000_0000_0000_0000_0000,
                g0.len() == h,
                rows_at_least(g0, w),
                painted(
                    g0,
                    grid_view(map),
                    |xx: int, yy: int| xx < w && (yy < y || (yy == y && xx < x)) && in_disc(w, h, r, xx, yy),
                ),
            decreases width - x,
        {
            let dx: i128 = 2 * (x as i128) - (width as i128);
            assert(dx * dx <= 0x1_0000_0000_0000_0000_0000_0000) by (nonlinear_arith)
                requires
                    -0x100_0000_0000 <= dx <= 0x200_0000_0000;
            assert(dx * dx >= 0) by (nonlinear_arith);
            if dx * dx + dy2 <= limit {
                let ghost before = grid_view(map);
                assert(g0[y as int].len() >= w);
                assert(map@[y as int]@ == before[y as int]);
                map[y][x] = true;
                assert(grid_view(map) =~= before.update(y as int, before[y as int].update(x as int, true)));
            }
            x = x + 1;
        }
        y = y + 1;
    }
}

/// Fills the disc of the given `radius` around the middle of the map (see
/// `in_disc`): the tiles whose distance from the centre is at most `radius`.
pub fn circle_fill_seeds(map: &mut Vec<Vec<bool>>, radius: usize)
    requires
        old(map)@.len() > 0,
        rows_at_least(grid_view(old(map)), old(map)@[0]@.len() as int),
        old(map)@[0]@.len() <= 0x100_0000_0000,
        old(map)@.len() <= 0x100_0000_0000,
    ensures
        painted(
            grid_view(old(map)),
            grid_view(final(map)),
            |x: int, y: int|
                x < old(map)@[0]@.len() && y < old(map)@.len() && in_disc(
                    old(map)@[0]@.len() as int,
                    old(map)@.len() as int,
                    radius as int,
                    x,
                    y,
                ),
        ),
{
    let ghost g0 = grid_view(map);
    let ghost w = map@[0]@.len() as int;
    let ghost h = map@.len() as int;
    // a radius of 2^40 already covers every tile of such a map
    let big: u64 = 0x100_0000_0000;
    let r: usize = if radius as u64 > big { big as usize } else { radius };
    fill_disc(map, r);
    proof {
        let g = grid_view(map);
        assert forall|y: int, x: int| 0 <= y < g0.len() && 0 <= x < g0[y].len() && x < w && y < h implies
            in_disc(w, h, r as int, x, y) == in_disc(w, h, radius as int, x, y) by {
            if radius > 0x100_0000_0000 {
                let big = 0x100_0000_0000int;
                assert((2 * x - w) * (2 * x - w) + (2 * y - h) * (2 * y - h) <= 4 * big * big) by (nonlinear_arith)
                    requires
                        0 <= x < w <= big,
                        0 <= y < h <= big;
                let rad = radius as int;
                assert(big * big <= rad * rad) by (nonlinear_arith)
                    requires
                        0 <= big <= rad;
                assert(4 * rad * rad == 4 * (rad * rad)) by (nonlinear_arith);
                assert(r as int == big);
                assert(in_disc(w, h, r as int, x, y));
                assert(in_disc(w, h, radius as int, x, y));
            } else {
                assert(r == radius);
            }
        }
    }
}

/// The map drawn as grey levels, one row of `width` pixels (the length of the
/// first row) per map row: 255 for floor, 0 for wall and for tiles past the
/// end of a short row.
pub fn map_to_gray(map: &Vec<Vec<bool>>) -> (pixels: Vec<Vec<u8>>)
    requires
        map@.len() > 0,
        forall|y: int| 0 <= y < map@.len() ==> (#[trigger] map@[y])@.len() <= map@[0]@.len(),
    ensures
        pixels@.len() == map@.len(),
        forall|y: int| 0 <= y < map@.len() ==> (#[trigger] pixels@[y])@.len() == map@[0]@.len(),
        forall|y: int, x: int| #![trigger pixels@[y]@[x]] 0 <= y < map@.len() && 0 <= x < map@[0]@.len() ==>
            pixels@[y]@[x] == if x < map@[y]@.len() && map@[y]@[x] { 255u8 } else { 0u8 },
{
    let width = map[0].len();
    let height = map.len();
    let mut pixels: Vec<Vec<u8>> = Vec::new();
    let mut y: usize = 0;
    while y < height
        invariant
            y <= height,
            height == map@.len(),
            width == map@[0]@.len(),
            pixels@.len() == y,
            forall|j: int| 0 <= j < y ==> (#[trigger] pixels@[j])@.len() == width,
            forall|j: int, x: int| #![trigger pixels@[j]@[x]] 0 <= j < y && 0 <= x < width ==>
                pixels@[j]@[x] == if x < map@[j]@.len() && map@[j]@[x] { 255u8 } else { 0u8 },
        decreases height - y,
    {
        let row_len = map[y].len();
        let mut row: Vec<u8> = Vec::new();
        let mut x: usize = 0;
        while x < width
            invariant
                x <= width,
                y < height,
                height == map@.len(),
                width == map@[0]@.len(),
                row_len == map@[y as int]@.len(),
                row@.len() == x,
                forall|i: int| 0 <= i < x ==> row@[i] == if i < map@[y as int]@.len() && map@[y as int]@[i] { 255u8 } else { 0u8 },
            decreases width - x,
        {
            if x < row_len && map[y][x] {
                row.push(255);
            } else {
                row.push(0);
            }
            x = x + 1;
        }
        pixels.push(row);
        y = y + 1;
    }
    pixels
}

/// The Manhattan (taxicab) distance between two tiles.
pub open spec fn manhattan(p: (int, int), q: (int, int)) -> int {
    (if p.0 >= q.0 { p.0 - q.0 } else { q.0 - p.0 }) + (if p.1 >= q.1 { p.1 - q.1 } else { q.1 - p.1 })
}

/// The tiles `(x, y)` with `x < n`, left to right, at Manhattan distance `d`
/// from `c`.
pub open spec fn ring_in_row(c: (int, int), d: int, y: int, n: int) -> Seq<(usize, usize)>
    decreases n,
{
    if n <= 0 {
        Seq::empty()
    } else {
        let rest = ring_in_row(c, d, y, n - 1);
        if manhattan((n - 1, y), c) == d { rest.push(((n - 1) as usize, y as usize)) } else { rest }
    }
}

/// The tiles of the first `m` rows of a width-`w` map, row by row and left
/// to right, at Manhattan distance `d` from `c`.
pub open spec fn ring_in_rows(c: (int, int), d: int, w: int, m: int) -> Seq<(usize, usize)>
    decreases m,
{
    if m <= 0 {
        Seq::empty()
    } else {
        ring_in_rows(c, d, w, m - 1) + ring_in_row(c, d, m - 1, w)
    }
}

/// The rings of a hollow diamond: for `t` from 0 below `n`, the tiles of a
/// `w` by `h` map at Manhattan distance exactly `half_size + t` from `c`,
/// each ring in reading order.
pub open spec fn diamond_rings(c: (int, int), w: int, h: int, half_size: int, n: int) -> Seq<(usize, usize)>
    decreases n,
{
    if n <= 0 {
        Seq::empty()
    } else {
        diamond_rings(c, w, h, half_size, n - 1) + ring_in_rows(c, half_size + n - 1, w, h)
    }
}

proof fn lemma_has_point_concat(a: Seq<(usize, usize)>, b: Seq<(usize, usize)>, x: int, y: int)
    ensures
        has_point(a + b, x, y) <==> has_point(a, x, y) || has_point(b, x, y),
{
    let ab = a + b;
    if has_point(ab, x, y) {
        let k = choose|k: int| 0 <= k < ab.len() && #[trigger] pos(ab[k]) == (x, y);
        if k < a.len() {
            assert(pos(a[k]) == (x, y));
        } else {
            assert(pos(b[k - a.len()]) == (x, y));
        }
    }
    if has_point(a, x, y) {
        let k = choose|k: int| 0 <= k < a.len() && #[trigger] pos(a[k]) == (x, y);
        assert(pos(ab[k]) == (x, y));
    }
    if has_point(b, x, y) {
        let k = choose|k: int| 0 <= k < b.len() && #[trigger] pos(b[k]) == (x, y);
        assert(pos(ab[k + a.len()]) == (x, y));
    }
}

proof fn lemma_ring_in_row(c: (int, int), d: int, y: int, n: int, px: int, py: int)
    requires
        0 <= y,
        y <= usize::MAX,
        n <= usize::MAX + 1,
    ensures
        has_point(ring_in_row(c, d, y, n), px, py) <==> (py == y && 0 <= px < n && manhattan((px, py), c) == d),
    decreases n,
{
    if n > 0 {
        let rest = ring_in_row(c, d, y, n - 1);
        lemma_ring_in_row(c, d, y, n - 1, px, py);
        if manhattan((n - 1, y), c) == d {
            lemma_has_point_concat(rest, seq![((n - 1) as usize, y as usize)], px, py);
            assert(rest.push(((n - 1) as usize, y as usize)) =~= rest + seq![((n - 1) as usize, y as usize)]);
            let single = seq![((n - 1) as usize, y as usize)];
            if has_point(single, px, py) {
                let k = choose|k: int| 0 <= k < single.len() && #[trigger] pos(single[k]) == (px, py);
            }
            if py == y && px == n - 1 {
                assert(pos(single[0]) == (px, py));
            }
        }
    }
}

proof fn lemma_ring_in_rows(c: (int, int), d: int, w: int, m: int, px: int, py: int)
    requires
        0 <= w <= usize::MAX + 1,
        m <= usize::MAX + 1,
    ensures
        has_point(ring_in_rows(c, d, w, m), px, py) <==> (0 <= py < m && 0 <= px < w && manhattan((px, py), c) == d),
    decreases m,
{
    if m > 0 {
        lemma_ring_in_rows(c, d, w, m - 1, px, py);
        lemma_ring_in_row(c, d, m - 1, w, px, py);
        lemma_has_point_concat(ring_in_rows(c, d, w, m - 1), ring_in_row(c, d, m - 1, w), px, py);
    }
}

/// A tile is one of the `diamond_rings` exactly when it lies on the map at a
/// Manhattan distance from `c` between `half_size` and `half_size + n - 1`.
pub proof fn lemma_diamond_rings(c: (int, int), w: int, h: int, half_size: int, n: int, px: int, py: int)
    requires
        0 <= w <= usize::MAX + 1,
        h <= usize::MAX + 1,
    ensures
        has_point(diamond_rings(c, w, h, half_size, n), px, py) <==> (0 <= px < w && 0 <= py < h && half_size
            <= manhattan((px, py), c) < half_size + n),
    decreases n,
{
    if n > 0 {
        lemma_diamond_rings(c, w, h, half_size, n - 1, px, py);
        lemma_ring_in_rows(c, half_size + n - 1, w, h, px, py);
        lemma_has_point_concat(diamond_rings(c, w, h, half_size, n - 1), ring_in_rows(c, half_size + n - 1, w, h), px, py);
    }
}

/// The tiles of a hollow diamond around `center` (see `diamond_rings`):
/// rings at Manhattan distances `half_size` to `half_size + thickness - 1`,
/// scanning the whole map (whose width is the length of the first row) once
/// per ring.
pub fn diamond(map: &Vec<Vec<bool>>, thickness: usize, half_size: usize, center: (usize, usize)) -> (seeds: Vec<
    (usize, usize),
>)
    requires
        map@.len() > 0,
        // distances are computed in `isize`
        thickness > 0 ==> half_size + thickness - 1 <= isize::MAX,
        thickness > 0 ==> map@[0]@.len() + center.0 + map@.len() + center.1 <= isize::MAX,
    ensures
        seeds@ == diamond_rings(pos(center), map@[0]@.len() as int, map@.len() as int, half_size as int, thickness as int),
{
    let width = map[0].len();
    let height = map.len();
    let (center_x, center_y) = center;
    let ghost c = pos(center);
    let ghost w = width as int;
    let ghost h = height as int;
    let mut seeds: Vec<(usize, usize)> = Vec::new();
    let mut t: usize = 0;
    while t < thickness
        invariant
            t <= thickness,
            w == width,
            h == height,
            c == pos(center),
            center == (center_x, center_y),
            thickness > 0 ==> half_size + thickness - 1 <= isize::MAX,
            thickness > 0 ==> width + center_x + height + center_y <= isize::MAX,
            seeds@ == diamond_rings(c, w, h, half_size as int, t as int),
        decreases thickness - t,
    {
        let target_distance = half_size + t;
        let mut y: usize = 0;
        while y < height
            invariant
                t < thickness,
                y <= height,
                w == width,
                h == height,
                c == pos(center),
                center == (center_x, center_y),
                target_distance == half_size + t,
                width + center_x + height + center_y <= isize::MAX,
                seeds@ == diamond_rings(c, w, h, half_size as int, t as int) + ring_in_rows(
                    c,
                    target_distance as int,
                    w,
                    y as int,
                ),
            decreases height - y,
        {
            let mut x: usize = 0;
            while x < width
                invariant
                    t < thickness,
                    y < height,
                    x <= width,
                    w == width,
                    h == height,
                    c == pos(center),
                    center == (center_x, center_y),
                    target_distance == half_size + t,
                    width + center_x + height + center_y <= isize::MAX,
                    seeds@ == diamond_rings(c, w, h, half_size as int, t as int) + ring_in_rows(
                        c,
                        target_distance as int,
                        w,
                        y as int,
                    ) + ring_in_row(c, target_distance as int, y as int, x as int),
                decreases width - x,
            {
                let dx = if x >= center_x { x - center_x } else { center_x - x };
                let dy = if y >= center_y { y - center_y } else { center_y - y };
                let manhattan_distance = dx + dy;
                let ghost before = seeds@;
                if manhattan_distance == target_distance {
                    seeds.push((x, y));
                }
                proof {
                    let a = diamond_rings(c, w, h, half_size as int, t as int);
                    let b = ring_in_rows(c, target_distance as int, w, y as int);
                    let r0 = ring_in_row(c, target_distance as int, y as int, x as int);
                    if manhattan_distance == target_distance {
                        assert(seeds@ =~= a + b + r0.push((x, y)));
                    } else {
                        assert(seeds@ =~= a + b + r0);
                    }
                }
                x = x + 1;
            }
            proof {
                let a = diamond_rings(c, w, h, half_size as int, t as int);
                let b = ring_in_rows(c, target_distance as int, w, y as int);
                let r0 = ring_in_row(c, target_distance as int, y as int, w);
                assert(a + b + r0 =~= a + (b + r0));
            }
            y = y + 1;
        }
        t = t + 1;
    }
    seeds
}

/// Draws the hollow diamond of `diamond` around the middle of the map: every
/// tile on the map at a Manhattan distance from `(width / 2, height / 2)`
/// between `half_size` and `half_size + thickness - 1` becomes floor.
pub fn diamond_seeds(map: &mut Vec<Vec<bool>>, thickness: usize, half_size: usize)
    requires
        old(map)@.len() > 0,
        rows_at_least(grid_view(old(map)), old(map)@[0]@.len() as int),
        thickness > 0 ==> half_size + thickness - 1 <= isize::MAX,
        thickness > 0 ==> old(map)@[0]@.len() + old(map)@[0]@.len() / 2 + old(map)@.len() + old(map)@.len() / 2
            <= isize::MAX,
    ensures
        painted(
            grid_view(old(map)),
            grid_view(final(map)),
            |x: int, y: int|
                x < old(map)@[0]@.len() && y < old(map)@.len() && half_size <= manhattan(
                    (x, y),
                    (old(map)@[0]@.len() as int / 2, old(map)@.len() as int / 2),
                ) < half_size + thickness,
        ),
{
    let center = (map[0].len() / 2, map.len() / 2);
    let seeds = diamond(map, thickness, half_size, center);
    let ghost g0 = grid_view(map);
    let ghost w = map@[0]@.len() as int;
    let ghost h = map@.len() as int;
    proof {
        assert forall|i: int| 0 <= i < seeds@.len() implies (#[trigger] seeds@[i]).1 < map@.len()
            && seeds@[i].0 < map@[seeds@[i].1 as int]@.len() by {
            let p = seeds@[i];
            assert(pos(seeds@[i]) == pos(p));
            lemma_diamond_rings(pos(center), w, h, half_size as int, thickness as int, p.0 as int, p.1 as int);
            assert(g0[p.1 as int].len() >= w);
        }
    }
    fill(map, &seeds);
    proof {
        let g = grid_view(map);
        assert forall|y: int, x: int| #![trigger g[y][x]] 0 <= y < g0.len() && 0 <= x < g0[y].len() implies
            g[y][x] == (g0[y][x] || (x < w && y < h && half_size <= manhattan((x, y), (w / 2, h / 2))
                < half_size + thickness)) by {
            lemma_diamond_rings(pos(center), w, h, half_size as int, thickness as int, x, y);
        }
    }
}

/// The tiles that a random walk of thickness `2 * half + 1` paints around
/// `(x, y)` on a `w` by `h` map: the square around it cut to the map, column
/// by column, each column top to bottom.
pub open spec fn brush_points(x: int, y: int, half: int, w: int, h: int) -> Seq<(usize, usize)> {
    let (xlo, xhi) = clipped_range(x, half, w);
    let (ylo, yhi) = clipped_range(y, half, h);
    let nx = if xhi >= xlo { xhi - xlo + 1 } else { 0 };
    let ny = if yhi >= ylo { yhi - ylo + 1 } else { 0 };
    Seq::new((nx * ny) as nat, |k: int| ((xlo + k / ny) as usize, (ylo + k % ny) as usize))
}

/// The tiles painted around one step `(x, y)` of a random walk whose path is
/// `thickness` wide (see [`brush_points`] with `half = thickness / 2`).
pub fn brush(x: usize, y: usize, thickness: usize, width: usize, height: usize) -> (points: Vec<(usize, usize)>)
    requires
        width > 0,
        height > 0,
        x + thickness / 2 <= usize::MAX,
        y + thickness / 2 <= usize::MAX,
    ensures
        points@ == brush_points(x as int, y as int, (thickness / 2) as int, width as int, height as int),
{
    let half = thickness / 2;
    let xlo = if x >= half { x - half } else { 0 };
    let xhi = if x + half < width - 1 { x + half } else { width - 1 };
    let ylo = if y >= half { y - half } else { 0 };
    let yhi = if y + half < height - 1 { y + half } else { height - 1 };
    let nx: usize = if xhi >= xlo { xhi - xlo + 1 } else { 0 };
    let ny: usize = if yhi >= ylo { yhi - ylo + 1 } else { 0 };
    let ghost target = brush_points(x as int, y as int, half as int, width as int, height as int);
    proof {
        assert(target.len() == nx * ny);
        assert(nx * ny >= 0) by (nonlinear_arith)
            requires
                nx >= 0,
                ny >= 0;
    }
    let mut points: Vec<(usize, usize)> = Vec::new();
    let mut c: usize = 0;
    while c < nx
        invariant
            c <= nx,
            nx == (if xhi >= xlo { xhi - xlo + 1 } else { 0 }),
            ny == (if yhi >= ylo { yhi - ylo + 1 } else { 0 }),
            xhi < width,
            yhi < height,
            target == brush_points(x as int, y as int, half as int, width as int, height as int),
            target.len() == nx * ny,
            xlo == (if x >= half { x - half } else { 0 }),
            ylo == (if y >= half { y - half } else { 0 }),
            xhi == (if x + half < width - 1 { x + half } else { width - 1 }),
            yhi == (if y + half < height - 1 { y + half } else { height - 1 }),
            points@.len() == c * ny,
            forall|k: int| 0 <= k < c * ny ==> #[trigger] points@[k] == target[k],
        decreases nx - c,
    {
        let tx = xlo + c;
        let mut r: usize = 0;
        while r < ny
            invariant
                c < nx,
                r <= ny,
                tx == xlo + c,
                nx == (if xhi >= xlo { xhi - xlo + 1 } else { 0 }),
                ny == (if yhi >= ylo { yhi - ylo + 1 } else { 0 }),
                xhi < width,
                yhi < height,
                target == brush_points(x as int, y as int, half as int, width as int, height as int),
                target.len() == nx * ny,
                xlo == (if x >= half { x - half } else { 0 }),
                ylo == (if y >= half { y - half } else { 0 }),
                xhi == (if x + half < width - 1 { x + half } else { width - 1 }),
                yhi == (if y + half < height - 1 { y + half } else { height - 1 }),
                points@.len() == c * ny + r,
                forall|k: int| 0 <= k < c * ny + r ==> #[trigger] points@[k] == target[k],
            decreases ny - r,
        {
            proof {
                vstd::arithmetic::div_mod::lemma_fundamental_div_mod_converse(
                    c * ny + r,
                    ny as int,
                    c as int,
                    r as int,
                );
                assert(c * ny + r == ny * c + r) by (nonlinear_arith);
                let k = c * ny + r;
                assert(k < nx * ny) by (nonlinear_arith)
                    requires
                        c < nx,
                        r < ny,
                        k == c * ny + r;
                assert(k / (ny as int) == c && k % (ny as int) == r);
                assert(clipped_range(x as int, half as int, width as int) == (xlo as int, xhi as int));
                assert(clipped_range(y as int, half as int, height as int) == (ylo as int, yhi as int));
                assert(target[k] == (tx, (ylo + r) as usize));
            }
            points.push((tx, ylo + r));
            r = r + 1;
        }
        assert((c + 1) * ny == c * ny + ny) by (nonlinear_arith);
        c = c + 1;
    }
    assert(points@ =~= target);
    points
}

} // verus!
