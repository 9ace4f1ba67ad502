//! Breadth-first flood fill: the walking distance from a start tile to every
//! floor tile of a map.

use vstd::prelude::*;
use std::collections::VecDeque;
use crate::grid::{adjacent4, filled_grid, grid_view, in_bounds, pos, width_of, well_shaped};

verus! {

/// One walking step from `p` to `q`: `q` is an edge neighbour of `p`, lies on
/// the map and is a floor tile.
pub open spec fn passable_step(g: Seq<Seq<bool>>, w: int, h: int, p: (int, int), q: (int, int)) -> bool {
    &&& adjacent4(p, q)
    &&& in_bounds(q, w, h)
    &&& g[q.1][q.0]
}

/// `q` can be reached from `s` in at most `n` walking steps: it is `s`
/// itself, or it is a floor tile on the map with an edge neighbour that can
/// be reached in `n - 1` steps.
pub open spec fn reachable_within(
    g: Seq<Seq<bool>>,
    w: int,
    h: int,
    s: (int, int),
    q: (int, int),
    n: nat,
) -> bool
    decreases n,
{
    if n == 0 {
        q == s
    } else {
        let m = (n - 1) as nat;
        ||| reachable_within(g, w, h, s, q, m)
        ||| in_bounds(q, w, h) && g[q.1][q.0] && {
            ||| reachable_within(g, w, h, s, (q.0 - 1, q.1), m)
            ||| reachable_within(g, w, h, s, (q.0 + 1, q.1), m)
            ||| reachable_within(g, w, h, s, (q.0, q.1 - 1), m)
            ||| reachable_within(g, w, h, s, (q.0, q.1 + 1), m)
        }
    }
}

/// The in-bounds edge neighbours of `(x, y)`, in the order left, right, up, down.
pub open spec fn neighbors_spec(x: int, y: int, w: int, h: int) -> Seq<(usize, usize)> {
    let left = if x > 0 { seq![((x - 1) as usize, y as usize)] } else { Seq::empty() };
    let right = if x < w - 1 { seq![((x + 1) as usize, y as usize)] } else { Seq::empty() };
    let up = if y > 0 { seq![(x as usize, (y - 1) as usize)] } else { Seq::empty() };
    let down = if y < h - 1 { seq![(x as usize, (y + 1) as usize)] } else { Seq::empty() };
    left + right + up + down
}

/// The edge neighbours of `(x, y)` that lie on a `width` by `height` map,
/// in the order left, right, up, down.
pub fn neighbors(p: (usize, usize), width: usize, height: usize) -> (result: Vec<(usize, usize)>)
    requires
        width >= 1,
        height >= 1,
    ensures
        result@ == neighbors_spec(p.0 as int, p.1 as int, width as int, height as int),
        in_bounds(pos(p), width as int, height as int) ==> {
            &&& forall|i: int| 0 <= i < result@.len() ==>
                in_bounds(pos(#[trigger] result@[i]), width as int, height as int) && adjacent4(pos(p), pos(result@[i]))
            &&& forall|q: (int, int)| in_bounds(q, width as int, height as int) && adjacent4(pos(p), q) ==>
                exists|i: int| 0 <= i < result@.len() && pos(#[trigger] result@[i]) == q
        },
{
    let (x, y) = p;
    let mut result = Vec::new();
    if x > 0 {
        result.push((x - 1, y));
    }
    if x < width - 1 {
        result.push((x + 1, y));
    }
    if y > 0 {
        result.push((x, y - 1));
    }
    if y < height - 1 {
        result.push((x, y + 1));
    }
    proof {
        let s = neighbors_spec(x as int, y as int, width as int, height as int);
        assert(result@ =~= s);
        if in_bounds(pos(p), width as int, height as int) {
            assert forall|q: (int, int)| in_bounds(q, width as int, height as int) && adjacent4(pos(p), q) implies
                exists|i: int| 0 <= i < result@.len() && pos(#[trigger] result@[i]) == q by {
                let left: int = if x > 0 { 1 } else { 0 };
                let right: int = if x < width - 1 { 1 } else { 0 };
                let up: int = if y > 0 { 1 } else { 0 };
                if q.1 == y && q.0 == x - 1 {
                    assert(pos(result@[0]) == q);
                } else if q.1 == y && q.0 == x + 1 {
                    assert(pos(result@[left]) == q);
                } else if q.0 == x && q.1 == y - 1 {
                    assert(pos(result@[left + right]) == q);
                } else {
                    assert(pos(result@[left + right + up]) == q);
                }
            }
        }
    }
    result
}

// ---------------------------------------------------------------------------
// Counting the tiles that have been given a distance.

/// The number of entries of a row that are not `usize::MAX`.
pub open spec fn row_reached(r: Seq<usize>) -> nat
    decreases r.len(),
{
    if r.len() == 0 {
        0
    } else {
        row_reached(r.drop_last()) + if r.last() != usize::MAX { 1nat } else { 0nat }
    }
}

/// The number of entries of a grid that are not `usize::MAX`.
pub open spec fn grid_reached(g: Seq<Seq<usize>>) -> nat
    decreases g.len(),
{
    if g.len() == 0 {
        0
    } else {
        grid_reached(g.drop_last()) + row_reached(g.last())
    }
}

proof fn lemma_row_reached_bound(r: Seq<usize>)
    ensures
        row_reached(r) <= r.len(),
    decreases r.len(),
{
    if r.len() > 0 {
        lemma_row_reached_bound(r.drop_last());
    }
}

proof fn lemma_row_reached_update(r: Seq<usize>, i: int, v: usize)
    requires
        0 <= i < r.len(),
        r[i] == usize::MAX,
        v != usize::MAX,
    ensures
        row_reached(r.update(i, v)) == row_reached(r) + 1,
    decreases r.len(),
{
    let u = r.update(i, v);
    if i == r.len() - 1 {
        assert(u.drop_last() =~= r.drop_last());
    } else {
        assert(u.drop_last() =~= r.drop_last().update(i, v));
        lemma_row_reached_update(r.drop_last(), i, v);
    }
}

proof fn lemma_row_reached_none(r: Seq<usize>)
    requires
        forall|i: int| 0 <= i < r.len() ==> r[i] == usize::MAX,
    ensures
        row_reached(r) == 0,
    decreases r.len(),
{
    if r.len() > 0 {
        lemma_row_reached_none(r.drop_last());
    }
}

proof fn lemma_grid_reached_none(g: Seq<Seq<usize>>)
    requires
        forall|y: int, x: int| 0 <= y < g.len() && 0 <= x < g[y].len() ==> g[y][x] == usize::MAX,
    ensures
        grid_reached(g) == 0,
    decreases g.len(),
{
    if g.len() > 0 {
        lemma_grid_reached_none(g.drop_last());
        lemma_row_reached_none(g.last());
    }
}

proof fn lemma_grid_reached_bound(g: Seq<Seq<usize>>, w: int)
    requires
        forall|y: int| 0 <= y < g.len() ==> #[trigger] g[y].len() == w,
    ensures
        grid_reached(g) <= g.len() * w,
    decreases g.len(),
{
    if g.len() > 0 {
        lemma_grid_reached_bound(g.drop_last(), w);
        lemma_row_reached_bound(g.last());
        assert(g.len() * w == (g.len() - 1) * w + w) by (nonlinear_arith);
    }
}

proof fn lemma_grid_reached_update(g: Seq<Seq<usize>>, y: int, row: Seq<usize>)
    requires
        0 <= y < g.len(),
        row_reached(row) == row_reached(g[y]) + 1,
    ensures
        grid_reached(g.update(y, row)) == grid_reached(g) + 1,
    decreases g.len(),
{
    let u = g.update(y, row);
    if y == g.len() - 1 {
        assert(u.drop_last() =~= g.drop_last());
    } else {
        assert(u.drop_last() =~= g.drop_last().update(y, row));
        lemma_grid_reached_update(g.drop_last(), y, row);
    }
}

// ---------------------------------------------------------------------------
// The fill itself.

/// The distances are exact: a tile with a distance `d` can be reached in `d`
/// steps, and any tile that can be reached in `n` steps has a distance of at
/// most `n`.
pub open spec fn exact_distances(
    map: Seq<Seq<bool>>,
    dist: Seq<Seq<usize>>,
    w: int,
    h: int,
    s: (int, int),
) -> bool {
    forall|x: int, y: int| #![trigger dist[y][x]] in_bounds((x, y), w, h) ==> {
        &&& dist[y][x] != usize::MAX ==> reachable_within(map, w, h, s, (x, y), dist[y][x] as nat)
        &&& forall|n: nat| #[trigger] reachable_within(map, w, h, s, (x, y), n) ==>
            dist[y][x] != usize::MAX && dist[y][x] <= n
    }
}

/// Every reached tile whose neighbours have all been looked at: each floor
/// neighbour is reached too, and at most one step further away.
pub open spec fn settled(
    map: Seq<Seq<bool>>,
    dist: Seq<Seq<usize>>,
    w: int,
    h: int,
    c: (int, int),
) -> bool {
    forall|q: (int, int)| #[trigger] passable_step(map, w, h, c, q) ==>
        dist[q.1][q.0] != usize::MAX && dist[q.1][q.0] <= dist[c.1][c.0] + 1
}

proof fn lemma_settled_gives_bounds(
    map: Seq<Seq<bool>>,
    dist: Seq<Seq<usize>>,
    w: int,
    h: int,
    s: (int, int),
    q: (int, int),
    n: nat,
)
    requires
        in_bounds(s, w, h),
        dist[s.1][s.0] == 0,
        forall|x: int, y: int| #![trigger dist[y][x]] in_bounds((x, y), w, h) && dist[y][x] != usize::MAX
            ==> settled(map, dist, w, h, (x, y)),
        reachable_within(map, w, h, s, q, n),
    ensures
        in_bounds(q, w, h),
        dist[q.1][q.0] != usize::MAX,
        dist[q.1][q.0] <= n,
    decreases n,
{
    if n > 0 {
        if reachable_within(map, w, h, s, q, (n - 1) as nat) {
            lemma_settled_gives_bounds(map, dist, w, h, s, q, (n - 1) as nat);
        } else {
            let m = (n - 1) as nat;
            let p = if reachable_within(map, w, h, s, (q.0 - 1, q.1), m) {
                (q.0 - 1, q.1)
            } else if reachable_within(map, w, h, s, (q.0 + 1, q.1), m) {
                (q.0 + 1, q.1)
            } else if reachable_within(map, w, h, s, (q.0, q.1 - 1), m) {
                (q.0, q.1 - 1)
            } else {
                (q.0, q.1 + 1)
            };
            lemma_settled_gives_bounds(map, dist, w, h, s, p, m);
            assert(dist[p.1][p.0] != usize::MAX);
            assert(settled(map, dist, w, h, p));
            assert(passable_step(map, w, h, p, q));
        }
    }
}

/// The walking distance from `start` to every tile of `map`, moving between
/// edge neighbours and stepping only onto floor tiles (`true`). The start
/// tile itself has distance 0 whatever it holds; a tile that cannot be
/// reached holds `usize::MAX`.
#[verifier::loop_isolation(false)]
#[verifier::rlimit(60)]
#[verifier::spinoff_prover]
pub fn flood_fill(map: &Vec<Vec<bool>>, start: (usize, usize)) -> (distances: Vec<Vec<usize>>)
    requires
        well_shaped(grid_view(map)),
        start.0 < map@[0]@.len(),
        start.1 < map@.len(),
        map@[0]@.len() * map@.len() < usize::MAX,
    ensures
        distances@.len() == map@.len(),
        forall|y: int| 0 <= y < map@.len() ==> (#[trigger] distances@[y])@.len() == map@[0]@.len(),
        distances@[start.1 as int]@[start.0 as int] == 0,
        exact_distances(
            grid_view(map),
            grid_view(&distances),
            map@[0]@.len() as int,
            map@.len() as int,
            pos(start),
        ),
{
    let width = map[0].len();
    let height = map.len();
    let ghost g = grid_view(map);
    let ghost w = width as int;
    let ghost h = height as int;
    let ghost s = pos(start);
    assert(width_of(g) == w);
    let mut distances = filled_grid(width, height, usize::MAX);
    let ghost d_init = grid_view(&distances);
    proof {
        lemma_grid_reached_none(d_init);
        lemma_row_reached_update(d_init[start.1 as int], start.0 as int, 0);
        lemma_grid_reached_update(d_init, start.1 as int, d_init[start.1 as int].update(start.0 as int, 0));
    }
    let mut queue: VecDeque<(usize, usize)> = VecDeque::new();
    queue.push_back(start);
    distances[start.1][start.0] = 0;
    let ghost mut reached: int = 1;
    proof {
        assert(grid_view(&distances) =~= d_init.update(start.1 as int, d_init[start.1 as int].update(start.0 as int, 0)));
        lemma_grid_reached_bound(grid_view(&distances), w);
        assert(h * w == w * h) by (nonlinear_arith);
        assert forall|x: int, y: int| #![trigger grid_view(&distances)[y][x]]
            in_bounds((x, y), w, h) && grid_view(&distances)[y][x] != usize::MAX implies
            (x, y) == s by {}
        assert(reachable_within(g, w, h, s, s, 0));
        assert(queue@[0] == start);
    }

    while queue.len() > 0
        invariant
            distances@.len() == h,
            forall|y: int| 0 <= y < h ==> (#[trigger] distances@[y])@.len() == w,
            distances@[start.1 as int]@[start.0 as int] == 0,
            // every reached tile is reached by a walk of its length
            forall|x: int, y: int| #![trigger grid_view(&distances)[y][x]]
                in_bounds((x, y), w, h) && grid_view(&distances)[y][x] != usize::MAX ==>
                reachable_within(g, w, h, s, (x, y), grid_view(&distances)[y][x] as nat),
            // the queue holds reached tiles, in order of distance
            forall|i: int| 0 <= i < queue@.len() ==> in_bounds(pos(#[trigger] queue@[i]), w, h)
                && distances@[queue@[i].1 as int]@[queue@[i].0 as int] != usize::MAX,
            forall|i: int, j: int| 0 <= i <= j < queue@.len() ==>
                distances@[(#[trigger] queue@[i]).1 as int]@[queue@[i].0 as int]
                    <= distances@[(#[trigger] queue@[j]).1 as int]@[queue@[j].0 as int],
            queue@.len() > 0 ==> forall|x: int, y: int| #![trigger grid_view(&distances)[y][x]]
                in_bounds((x, y), w, h) && grid_view(&distances)[y][x] != usize::MAX ==>
                grid_view(&distances)[y][x] <= distances@[queue@[0].1 as int]@[queue@[0].0 as int] + 1,
            // a reached tile is waiting in the queue or settled
            forall|x: int, y: int| #![trigger grid_view(&distances)[y][x]]
                in_bounds((x, y), w, h) && grid_view(&distances)[y][x] != usize::MAX ==>
                queue@.contains((x as usize, y as usize)) || settled(g, grid_view(&distances), w, h, (x, y)),
            grid_reached(grid_view(&distances)) == reached,
            reached <= w * h,
            forall|x: int, y: int| #![trigger grid_view(&distances)[y][x]]
                in_bounds((x, y), w, h) && grid_view(&distances)[y][x] != usize::MAX ==>
                grid_view(&distances)[y][x] < reached,
        decreases 2 * (w * h - reached) + queue@.len(),
    {
        let ghost q0 = queue@;
        let ghost r0 = reached;
        let (x, y) = queue.pop_front().unwrap();
        let ghost cur = (x as int, y as int);
        let current_distance = distances[y][x];
        let ghost dc = current_distance as int;
        assert(grid_view(&distances)[y as int][x as int] == current_distance);
        let nbs = neighbors((x, y), width, height);
        proof {
            assert(q0[0] == (x, y));
            assert forall|i: int| 0 <= i < queue@.len() implies
                dc <= distances@[(#[trigger] queue@[i]).1 as int]@[queue@[i].0 as int] <= dc + 1 by {
                assert(queue@[i] == q0[i + 1]);
                let qi = q0[i + 1];
                assert(grid_view(&distances)[qi.1 as int][qi.0 as int] == distances@[qi.1 as int]@[qi.0 as int]);
            }
            assert forall|x: int, y: int| #![trigger grid_view(&distances)[y][x]]
                in_bounds((x, y), w, h) && grid_view(&distances)[y][x] != usize::MAX implies
                (x, y) == cur || queue@.contains((x as usize, y as usize))
                    || settled(g, grid_view(&distances), w, h, (x, y)) by {
                if q0.contains((x as usize, y as usize)) && (x, y) != cur {
                    let k = choose|k: int| 0 <= k < q0.len() && q0[k] == (x as usize, y as usize);
                    assert(k != 0);
                    assert(queue@[k - 1] == q0[k]);
                }
            }
        }
        let mut i: usize = 0;
        while i < nbs.len()
            invariant
                0 <= i <= nbs@.len(),
                queue@.len() - reached == q0.len() - 1 - r0,
                reached >= r0,
                distances@.len() == h,
                forall|y: int| 0 <= y < h ==> (#[trigger] distances@[y])@.len() == w,
                distances@[start.1 as int]@[start.0 as int] == 0,
                distances@[y as int]@[x as int] == current_distance,
                forall|x: int, y: int| #![trigger grid_view(&distances)[y][x]]
                    in_bounds((x, y), w, h) && grid_view(&distances)[y][x] != usize::MAX ==>
                    reachable_within(g, w, h, s, (x, y), grid_view(&distances)[y][x] as nat),
                forall|i: int| 0 <= i < queue@.len() ==> in_bounds(pos(#[trigger] queue@[i]), w, h)
                    && distances@[queue@[i].1 as int]@[queue@[i].0 as int] != usize::MAX,
                forall|i: int| 0 <= i < queue@.len() ==>
                    dc <= distances@[(#[trigger] queue@[i]).1 as int]@[queue@[i].0 as int] <= dc + 1,
                forall|i: int, j: int| 0 <= i <= j < queue@.len() ==>
                    distances@[(#[trigger] queue@[i]).1 as int]@[queue@[i].0 as int]
                        <= distances@[(#[trigger] queue@[j]).1 as int]@[queue@[j].0 as int],
                forall|x: int, y: int| #![trigger grid_view(&distances)[y][x]]
                    in_bounds((x, y), w, h) && grid_view(&distances)[y][x] != usize::MAX ==>
                    grid_view(&distances)[y][x] <= dc + 1,
                forall|x: int, y: int| #![trigger grid_view(&distances)[y][x]]
                    in_bounds((x, y), w, h) && grid_view(&distances)[y][x] != usize::MAX ==>
                    (x, y) == cur || queue@.contains((x as usize, y as usize))
                        || settled(g, grid_view(&distances), w, h, (x, y)),
                forall|k: int| 0 <= k < i && passable_step(g, w, h, cur, pos(#[trigger] nbs@[k])) ==>
                    distances@[nbs@[k].1 as int]@[nbs@[k].0 as int] != usize::MAX
                    && distances@[nbs@[k].1 as int]@[nbs@[k].0 as int] <= dc + 1,
                grid_reached(grid_view(&distances)) == reached,
                reached <= w * h,
                forall|x: int, y: int| #![trigger grid_view(&distances)[y][x]]
                    in_bounds((x, y), w, h) && grid_view(&distances)[y][x] != usize::MAX ==>
                    grid_view(&distances)[y][x] < reached,
            decreases nbs@.len() - i,
        {
            let (nx, ny) = nbs[i];
            assert(in_bounds(pos(nbs@[i as int]), w, h) && adjacent4(cur, pos(nbs@[i as int])));
            assert(g[ny as int].len() >= w);
            if map[ny][nx] && distances[ny][nx] == usize::MAX {
                let ghost d_old = grid_view(&distances);
                let ghost qu_old = queue@;
                let ghost v = (dc + 1) as usize;
                proof {
                    assert(d_old[ny as int][nx as int] == usize::MAX);
                    lemma_grid_reached_bound(d_old, w);
                    assert(h * w == w * h) by (nonlinear_arith);
                    lemma_row_reached_update(d_old[ny as int], nx as int, v);
                    lemma_grid_reached_update(d_old, ny as int, d_old[ny as int].update(nx as int, v));
                    assert(reachable_within(g, w, h, s, cur, dc as nat));
                    assert(passable_step(g, w, h, cur, (nx as int, ny as int)));
                    assert(reachable_within(g, w, h, s, (nx as int, ny as int), (dc + 1) as nat));
                }
                distances[ny][nx] = current_distance + 1;
                queue.push_back((nx, ny));
                proof {
                    let d_new = grid_view(&distances);
                    assert(d_new =~= d_old.update(ny as int, d_old[ny as int].update(nx as int, v)));
                    reached = reached + 1;
                    lemma_grid_reached_bound(d_new, w);
                    assert(h * w == w * h) by (nonlinear_arith);
                    assert forall|x: int, y: int| #![trigger grid_view(&distances)[y][x]]
                        in_bounds((x, y), w, h) && grid_view(&distances)[y][x] != usize::MAX implies
                        (x, y) == cur || queue@.contains((x as usize, y as usize))
                            || settled(g, grid_view(&distances), w, h, (x, y)) by {
                        if (x, y) == (nx as int, ny as int) {
                            assert(queue@[queue@.len() - 1] == (nx, ny));
                        } else {
                            assert(d_old[y][x] != usize::MAX);
                            if (x, y) != cur && qu_old.contains((x as usize, y as usize)) {
                                let k = choose|k: int| 0 <= k < qu_old.len() && qu_old[k] == (x as usize, y as usize);
                                assert(queue@[k] == qu_old[k]);
                            } else if (x, y) != cur {
                                assert(settled(g, d_old, w, h, (x, y)));
                                assert forall|q: (int, int)| #[trigger] passable_step(g, w, h, (x, y), q) implies
                                    d_new[q.1][q.0] != usize::MAX && d_new[q.1][q.0] <= d_new[y][x] + 1 by {
                                    assert(d_old[q.1][q.0] != usize::MAX);
                                }
                            }
                        }
                    }
                }
            }
            i = i + 1;
        }
        proof {
            let d = grid_view(&distances);
            assert forall|q: (int, int)| #[trigger] passable_step(g, w, h, cur, q) implies
                d[q.1][q.0] != usize::MAX && d[q.1][q.0] <= d[cur.1][cur.0] + 1 by {
                let k = choose|k: int| 0 <= k < nbs@.len() && pos(#[trigger] nbs@[k]) == q;
                assert(passable_step(g, w, h, cur, pos(nbs@[k])));
            }
            assert(settled(g, d, w, h, cur));
        }
    }

    proof {
        let d = grid_view(&distances);
        assert forall|x: int, y: int| #![trigger d[y][x]] in_bounds((x, y), w, h) && d[y][x] != usize::MAX
            implies settled(g, d, w, h, (x, y)) by {
            assert(!queue@.contains((x as usize, y as usize)));
        }
        assert forall|x: int, y: int| #![trigger d[y][x]] in_bounds((x, y), w, h) implies {
            &&& d[y][x] != usize::MAX ==> reachable_within(g, w, h, s, (x, y), d[y][x] as nat)
            &&& forall|n: nat| #[trigger] reachable_within(g, w, h, s, (x, y), n) ==>
                d[y][x] != usize::MAX && d[y][x] <= n
        } by {
            assert forall|n: nat| #[trigger] reachable_within(g, w, h, s, (x, y), n) implies
                d[y][x] != usize::MAX && d[y][x] <= n by {
                lemma_settled_gives_bounds(g, d, w, h, s, (x, y), n);
            }
        }
    }
    distances
}

/// Reaching `q` within `n` steps also reaches it within any larger number.
proof fn lemma_reachable_more(g: Seq<Seq<bool>>, w: int, h: int, s: (int, int), q: (int, int), n: nat, m: nat)
    requires
        reachable_within(g, w, h, s, q, n),
        n <= m,
    ensures
        reachable_within(g, w, h, s, q, m),
    decreases m,
{
    if n < m {
        lemma_reachable_more(g, w, h, s, q, n, (m - 1) as nat);
    }
}

/// A tile reached from `s` is `s` itself or a floor tile on the map.
proof fn lemma_reachable_end(g: Seq<Seq<bool>>, w: int, h: int, s: (int, int), q: (int, int), n: nat)
    requires
        reachable_within(g, w, h, s, q, n),
    ensures
        q == s || (in_bounds(q, w, h) && g[q.1][q.0]),
    decreases n,
{
    if n > 0 && reachable_within(g, w, h, s, q, (n - 1) as nat) {
        lemma_reachable_end(g, w, h, s, q, (n - 1) as nat);
    }
}

/// A walk from `p` can be started one step earlier, from an edge neighbour
/// `q` of the floor tile `p`.
proof fn lemma_reachable_prepend(
    g: Seq<Seq<bool>>,
    w: int,
    h: int,
    q: (int, int),
    p: (int, int),
    t: (int, int),
    n: nat,
)
    requires
        reachable_within(g, w, h, p, t, n),
        adjacent4(q, p),
        in_bounds(p, w, h),
        g[p.1][p.0],
    ensures
        reachable_within(g, w, h, q, t, n + 1),
    decreases n,
{
    if n == 0 {
        assert(reachable_within(g, w, h, q, q, 0));
        assert(reachable_within(g, w, h, q, p, 1));
    } else if reachable_within(g, w, h, p, t, (n - 1) as nat) {
        lemma_reachable_prepend(g, w, h, q, p, t, (n - 1) as nat);
        lemma_reachable_more(g, w, h, q, t, n, n + 1);
    } else {
        let m = (n - 1) as nat;
        if reachable_within(g, w, h, p, (t.0 - 1, t.1), m) {
            lemma_reachable_prepend(g, w, h, q, p, (t.0 - 1, t.1), m);
        } else if reachable_within(g, w, h, p, (t.0 + 1, t.1), m) {
            lemma_reachable_prepend(g, w, h, q, p, (t.0 + 1, t.1), m);
        } else if reachable_within(g, w, h, p, (t.0, t.1 - 1), m) {
            lemma_reachable_prepend(g, w, h, q, p, (t.0, t.1 - 1), m);
        } else {
            lemma_reachable_prepend(g, w, h, q, p, (t.0, t.1 + 1), m);
        }
    }
}

/// A walk between two floor tiles can be walked backwards.
proof fn lemma_reachable_reverse(g: Seq<Seq<bool>>, w: int, h: int, s: (int, int), q: (int, int), n: nat)
    requires
        reachable_within(g, w, h, s, q, n),
        in_bounds(s, w, h),
        g[s.1][s.0],
    ensures
        reachable_within(g, w, h, q, s, n),
    decreases n,
{
    if n > 0 {
        let m = (n - 1) as nat;
        if reachable_within(g, w, h, s, q, m) {
            lemma_reachable_reverse(g, w, h, s, q, m);
            lemma_reachable_more(g, w, h, q, s, m, n);
        } else {
            let p = if reachable_within(g, w, h, s, (q.0 - 1, q.1), m) {
                (q.0 - 1, q.1)
            } else if reachable_within(g, w, h, s, (q.0 + 1, q.1), m) {
                (q.0 + 1, q.1)
            } else if reachable_within(g, w, h, s, (q.0, q.1 - 1), m) {
                (q.0, q.1 - 1)
            } else {
                (q.0, q.1 + 1)
            };
            assert(reachable_within(g, w, h, s, p, m));
            lemma_reachable_end(g, w, h, s, p, m);
            lemma_reachable_reverse(g, w, h, s, p, m);
            lemma_reachable_prepend(g, w, h, q, p, s, m);
        }
    }
}

/// With more floor, a tile is reached at least as soon.
proof fn lemma_reachable_more_floor(
    g1: Seq<Seq<bool>>,
    g2: Seq<Seq<bool>>,
    w: int,
    h: int,
    s: (int, int),
    q: (int, int),
    n: nat,
)
    requires
        reachable_within(g1, w, h, s, q, n),
        forall|x: int, y: int| in_bounds((x, y), w, h) && #[trigger] g1[y][x] ==> g2[y][x],
    ensures
        reachable_within(g2, w, h, s, q, n),
    decreases n,
{
    if n > 0 {
        let m = (n - 1) as nat;
        if reachable_within(g1, w, h, s, q, m) {
            lemma_reachable_more_floor(g1, g2, w, h, s, q, m);
        } else if reachable_within(g1, w, h, s, (q.0 - 1, q.1), m) {
            lemma_reachable_more_floor(g1, g2, w, h, s, (q.0 - 1, q.1), m);
        } else if reachable_within(g1, w, h, s, (q.0 + 1, q.1), m) {
            lemma_reachable_more_floor(g1, g2, w, h, s, (q.0 + 1, q.1), m);
        } else if reachable_within(g1, w, h, s, (q.0, q.1 - 1), m) {
            lemma_reachable_more_floor(g1, g2, w, h, s, (q.0, q.1 - 1), m);
        } else {
            lemma_reachable_more_floor(g1, g2, w, h, s, (q.0, q.1 + 1), m);
        }
    }
}

/// Walking distances are symmetric between floor tiles: the distance from
/// `a` to `b` in the table of `a` equals the distance from `b` to `a` in the
/// table of `b` (both `usize::MAX` when they are not connected).
pub proof fn lemma_flood_symmetric(
    g: Seq<Seq<bool>>,
    da: Seq<Seq<usize>>,
    db: Seq<Seq<usize>>,
    w: int,
    h: int,
    a: (int, int),
    b: (int, int),
)
    requires
        exact_distances(g, da, w, h, a),
        exact_distances(g, db, w, h, b),
        in_bounds(a, w, h),
        in_bounds(b, w, h),
        g[a.1][a.0],
        g[b.1][b.0],
    ensures
        da[b.1][b.0] == db[a.1][a.0],
{
    let x = da[b.1][b.0];
    let y = db[a.1][a.0];
    if x != usize::MAX {
        assert(reachable_within(g, w, h, a, b, x as nat));
        lemma_reachable_reverse(g, w, h, a, b, x as nat);
        assert(reachable_within(g, w, h, b, a, x as nat));
        assert(y != usize::MAX && y <= x);
    }
    if y != usize::MAX {
        assert(reachable_within(g, w, h, b, a, y as nat));
        lemma_reachable_reverse(g, w, h, b, a, y as nat);
        assert(reachable_within(g, w, h, a, b, y as nat));
        assert(x != usize::MAX && x <= y);
    }
}

/// Opening more floor never makes a distance longer: with the floor of `g1`
/// included in that of `g2`, every distance from `s` in `g2` is at most the
/// one in `g1`.
pub proof fn lemma_flood_more_floor(
    g1: Seq<Seq<bool>>,
    g2: Seq<Seq<bool>>,
    d1: Seq<Seq<usize>>,
    d2: Seq<Seq<usize>>,
    w: int,
    h: int,
    s: (int, int),
    x: int,
    y: int,
)
    requires
        exact_distances(g1, d1, w, h, s),
        exact_distances(g2, d2, w, h, s),
        forall|i: int, j: int| in_bounds((i, j), w, h) && #[trigger] g1[j][i] ==> g2[j][i],
        in_bounds((x, y), w, h),
    ensures
        d2[y][x] <= d1[y][x],
{
    let v = d1[y][x];
    if v != usize::MAX {
        assert(reachable_within(g1, w, h, s, (x, y), v as nat));
        lemma_reachable_more_floor(g1, g2, w, h, s, (x, y), v as nat);
        assert(reachable_within(g2, w, h, s, (x, y), v as nat));
    }
}

} // verus!
