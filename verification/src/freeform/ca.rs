//! Cellular-automaton smoothing: a wall tile becomes floor once enough of its
//! eight neighbours are floor.

use vstd::prelude::*;
use crate::grid::{grid_view, rows_at_least};

verus! {

/// 1 for a floor tile, 0 for a wall.
pub open spec fn tile_count(b: bool) -> int {
    if b { 1 } else { 0 }
}

/// The number of floor tiles among the eight tiles around `(x, y)`.
pub open spec fn floor_count(g: Seq<Seq<bool>>, x: int, y: int) -> int {
    tile_count(g[y - 1][x - 1]) + tile_count(g[y - 1][x]) + tile_count(g[y - 1][x + 1])
        + tile_count(g[y][x - 1]) + tile_count(g[y][x + 1])
        + tile_count(g[y + 1][x - 1]) + tile_count(g[y + 1][x]) + tile_count(g[y + 1][x + 1])
}

/// One smoothing step on a map whose width is taken to be `w`: every tile off
/// the border (`1 <= x < w - 1`, `1 <= y < h - 1`) with at least five floor
/// neighbours becomes floor; every other tile keeps its value. All tiles are
/// judged on the map as it was before the step.
pub open spec fn ca_step(g: Seq<Seq<bool>>, w: int) -> Seq<Seq<bool>> {
    Seq::new(
        g.len(),
        |y: int|
            Seq::new(
                g[y].len(),
                |x: int|
                    if 1 <= y < g.len() - 1 && 1 <= x < w - 1 && floor_count(g, x, y) >= 5 {
                        true
                    } else {
                        g[y][x]
                    },
            ),
    )
}

/// `n` smoothing steps.
pub open spec fn ca_iterate(g: Seq<Seq<bool>>, w: int, n: nat) -> Seq<Seq<bool>>
    decreases n,
{
    if n == 0 {
        g
    } else {
        ca_step(ca_iterate(g, w, (n - 1) as nat), w)
    }
}

/// Smoothing keeps the number of rows and the length of every row.
pub proof fn lemma_ca_iterate_shape(g: Seq<Seq<bool>>, w: int, n: nat)
    ensures
        ca_iterate(g, w, n).len() == g.len(),
        forall|y: int| 0 <= y < g.len() ==> #[trigger] ca_iterate(g, w, n)[y].len() == g[y].len(),
    decreases n,
{
    if n > 0 {
        lemma_ca_iterate_shape(g, w, (n - 1) as nat);
    }
}

/// Running `a` smoothing steps and then `b` more gives the map that `a + b`
/// steps give (the width is kept by [`lemma_ca_iterate_shape`], so a second
/// `cellular_automata` call continues the first).
pub proof fn lemma_ca_iterate_add(g: Seq<Seq<bool>>, w: int, a: nat, b: nat)
    ensures
        ca_iterate(ca_iterate(g, w, a), w, b) == ca_iterate(g, w, a + b),
    decreases b,
{
    if b > 0 {
        lemma_ca_iterate_add(g, w, a, (b - 1) as nat);
        assert((a + b - 1) as nat == a + (b - 1) as nat);
    }
}

/// Smoothing, for any number of steps, never turns a floor tile into a wall
/// and never changes a tile on the border of the map (first or last row,
/// first or last column).
pub proof fn lemma_ca_keeps_floor_and_border(g: Seq<Seq<bool>>, w: int, n: nat, x: int, y: int)
    requires
        0 <= y < g.len(),
        0 <= x < g[y].len(),
    ensures
        g[y][x] ==> ca_iterate(g, w, n)[y][x],
        (y == 0 || y == g.len() - 1 || x == 0 || x >= w - 1) ==> ca_iterate(g, w, n)[y][x] == g[y][x],
    decreases n,
{
    if n > 0 {
        lemma_ca_iterate_shape(g, w, (n - 1) as nat);
        lemma_ca_keeps_floor_and_border(g, w, (n - 1) as nat, x, y);
    }
}

/// The floor tiles of row `r` in the three columns `x - 1`, `x`, `x + 1`.
pub open spec fn window_row(r: Seq<bool>, x: int) -> int {
    tile_count(r[x - 1]) + tile_count(r[x]) + tile_count(r[x + 1])
}

/// The floor tiles of the 3 by 3 window centred on `(x, y)`, the centre left
/// out: the floor neighbours of `(x, y)`.
pub open spec fn floor_neighbours(g: Seq<Seq<bool>>, x: int, y: int) -> int {
    window_row(g[y - 1], x) + window_row(g[y], x) + window_row(g[y + 1], x) - tile_count(g[y][x])
}

/// The smoothing rule: after one step, a tile off the border of the map is
/// floor exactly when it was floor or at least five of its eight neighbours
/// were floor. So a wall with four floor neighbours or fewer stays a wall,
/// and a wall with five or more becomes floor.
pub proof fn lemma_ca_step_rule(g: Seq<Seq<bool>>, w: int, x: int, y: int)
    requires
        1 <= y < g.len() - 1,
        1 <= x < w - 1,
        x < g[y].len(),
    ensures
        ca_iterate(g, w, 1)[y][x] == (g[y][x] || floor_neighbours(g, x, y) >= 5),
        !g[y][x] && floor_neighbours(g, x, y) <= 4 ==> !ca_iterate(g, w, 1)[y][x],
        !g[y][x] && floor_neighbours(g, x, y) >= 5 ==> ca_iterate(g, w, 1)[y][x],
{
    assert(ca_iterate(g, w, 1) == ca_step(ca_iterate(g, w, 0), w));
    assert(ca_iterate(g, w, 0) == g);
    assert(floor_neighbours(g, x, y) == floor_count(g, x, y));
}

fn tile(map: &Vec<Vec<bool>>, x: usize, y: usize) -> (n: usize)
    requires
        y < map@.len(),
        x < map@[y as int]@.len(),
    ensures
        n == tile_count(map@[y as int]@[x as int]),
        n <= 1,
{
    if map[y][x] { 1 } else { 0 }
}

/// The number of floor tiles among the eight tiles around `(x, y)`.
pub fn count_floors(map: &Vec<Vec<bool>>, x: usize, y: usize) -> (count: usize)
    requires
        1 <= x,
        1 <= y,
        y + 1 < map.len(),
        x + 1 < map[y as int - 1].len(),
        x + 1 < map[y as int].len(),
        x + 1 < map[y as int + 1].len(),
    ensures
        count == floor_count(grid_view(map), x as int, y as int),
{
    tile(map, x - 1, y - 1) + tile(map, x, y - 1) + tile(map, x + 1, y - 1) + tile(map, x - 1, y)
        + tile(map, x + 1, y) + tile(map, x - 1, y + 1) + tile(map, x, y + 1) + tile(map, x + 1, y + 1)
}

/// Runs `iterations` smoothing steps over `map` (see `ca_step`), where the
/// width is the length of the first row, and hands each intermediate map,
/// with the number of the step just taken, to `progress`.
pub fn cellular_automata<F: Fn(usize, &Vec<Vec<bool>>)>(
    map: &mut Vec<Vec<bool>>,
    iterations: usize,
    progress: F,
)
    requires
        old(map)@.len() > 0,
        iterations > 0 && old(map)@.len() >= 3 ==> old(map)@[0]@.len() >= 1,
        iterations > 0 && old(map)@.len() >= 3 && old(map)@[0]@.len() >= 3 ==> {
            &&& rows_at_least(grid_view(old(map)), old(map)@[0]@.len() as int)
            // neighbour coordinates are computed in `i32`
            &&& old(map)@.len() <= i32::MAX + 1
            &&& old(map)@[0]@.len() <= i32::MAX + 1
        },
        forall|i: usize, m: &Vec<Vec<bool>>| i < iterations ==> progress.requires((i, m)),
    ensures
        grid_view(final(map)) == ca_iterate(
            grid_view(old(map)),
            old(map)@[0]@.len() as int,
            iterations as nat,
        ),
{
    let width = map[0].len();
    let height = map.len();
    let ghost g0 = grid_view(map);
    let ghost w = width as int;
    let mut i: usize = 0;
    while i < iterations
        invariant
            0 <= i <= iterations,
            width == g0[0].len(),
            w == width as int,
            height == g0.len(),
            iterations > 0 && height >= 3 ==> width >= 1,
            iterations > 0 && height >= 3 && width >= 3 ==> rows_at_least(g0, w),
            grid_view(map) == ca_iterate(g0, w, i as nat),
            forall|k: usize, m: &Vec<Vec<bool>>| k < iterations ==> progress.requires((k, m)),
        decreases iterations - i,
    {
        proof {
            lemma_ca_iterate_shape(g0, w, i as nat);
        }
        let ghost g = grid_view(map);
        let mut new_map = map.clone();
        assert(grid_view(&new_map) =~= g);
        if height >= 2 {
            let mut y: usize = 1;
            while y < height - 1
                invariant
                    1 <= y <= height - 1,
                    height >= 2,
                    height == g.len(),
                    width == g0[0].len(),
                    w == width as int,
            w == width as int,
                    iterations > 0,
                    height >= 3 ==> width >= 1,
                    height >= 3 && width >= 3 ==> rows_at_least(g, w),
                    grid_view(map) == g,
                    new_map@.len() == height,
                    forall|j: int| 0 <= j < height ==> (#[trigger] new_map@[j])@.len() == g[j].len(),
                    forall|j: int, x: int| #![trigger new_map@[j]@[x]] 0 <= j < height && 0 <= x < g[j].len()
                        ==> new_map@[j]@[x] == if 1 <= j < y && 1 <= x < w - 1 && floor_count(g, x, j) >= 5 {
                            true
                        } else {
                            g[j][x]
                        },
                decreases height - 1 - y,
            {
                let mut x: usize = 1;
                while x < width - 1
                    invariant
                        1 <= y < height - 1,
                        1 <= x <= width - 1 || width < 2,
                        height >= 3,
                        width >= 1,
                        width >= 3 ==> rows_at_least(g, w),
                        height == g.len(),
                        width == g0[0].len(),
                        w == width as int,
                    w == width as int,
            w == width as int,
                        grid_view(map) == g,
                        new_map@.len() == height,
                        forall|j: int| 0 <= j < height ==> (#[trigger] new_map@[j])@.len() == g[j].len(),
                        forall|j: int, x2: int| #![trigger new_map@[j]@[x2]]
                            0 <= j < height && 0 <= x2 < g[j].len() ==> new_map@[j]@[x2] == if (1 <= j < y || (
                            j == y && x2 < x)) && 1 <= x2 < w - 1 && floor_count(g, x2, j) >= 5 {
                                true
                            } else {
                                g[j][x2]
                            },
                    decreases width - x,
                {
                    assert(g[y as int - 1].len() >= w && g[y as int].len() >= w && g[y as int + 1].len() >= w);
                    assert(map@[y as int - 1]@ == g[y as int - 1]);
                    assert(map@[y as int]@ == g[y as int]);
                    assert(map@[y as int + 1]@ == g[y as int + 1]);
                    assert(new_map@[y as int]@.len() == g[y as int].len());
                    let floor_count = count_floors(map, x, y);
                    if floor_count >= 5 {
                        new_map[y][x] = true;
                    }
                    x = x + 1;
                }
                y = y + 1;
            }
        }
        proof {
            let c = ca_step(g, w);
            assert forall|j: int| 0 <= j < height implies (#[trigger] grid_view(&new_map)[j]) =~= c[j] by {
                assert forall|x: int| 0 <= x < g[j].len() implies grid_view(&new_map)[j][x] == c[j][x] by {
                    assert(new_map@[j]@[x] == grid_view(&new_map)[j][x]);
                }
            }
            assert(grid_view(&new_map) =~= c);
        }
        *map = new_map;
        progress(i, map);
        i = i + 1;
    }
}

} // verus!
