//! Diffusion-limited aggregation: particles random-walk over the map and stick
//! where they first touch the existing structure.

use vstd::prelude::*;
use crate::grid::{count_grid, count_row, grid_view, in_bounds, lemma_count_grid_bound, lemma_count_grid_set, pos, rows_at_least};
use crate::random::{random_below, random_ratio, thread_rng};

verus! {

/// `q` lies on the map and is floor in `g0` or one of `before`.
pub open spec fn floor_in(g0: Seq<Seq<bool>>, w: int, h: int, before: Seq<(int, int)>, q: (int, int)) -> bool {
    in_bounds(q, w, h) && (g0[q.1][q.0] || before.contains(q))
}

/// `p` shares an edge with a tile that is floor in `g0` or one of `before`.
pub open spec fn attached(g0: Seq<Seq<bool>>, w: int, h: int, before: Seq<(int, int)>, p: (int, int)) -> bool {
    ||| floor_in(g0, w, h, before, (p.0 - 1, p.1))
    ||| floor_in(g0, w, h, before, (p.0 + 1, p.1))
    ||| floor_in(g0, w, h, before, (p.0, p.1 - 1))
    ||| floor_in(g0, w, h, before, (p.0, p.1 + 1))
}

/// `g` is `g0` grown by the tiles of `added`, taken in order: each was a wall
/// tile on the map, and each shares an edge with floor that was there
/// before it (in `g0` or earlier in `added`). Nothing else changed.
pub open spec fn grown_from(
    g0: Seq<Seq<bool>>,
    g: Seq<Seq<bool>>,
    w: int,
    h: int,
    added: Seq<(int, int)>,
) -> bool {
    &&& added.no_duplicates()
    &&& forall|k: int| 0 <= k < added.len() ==> in_bounds(#[trigger] added[k], w, h) && !g0[added[k].1][added[k].0]
    &&& forall|k: int| 0 <= k < added.len() ==> attached(g0, w, h, added.take(k), #[trigger] added[k])
    &&& g.len() == g0.len()
    &&& forall|y: int| 0 <= y < g0.len() ==> (#[trigger] g[y]).len() == g0[y].len()
    &&& forall|x: int, y: int| #![trigger g[y][x]] 0 <= y < g0.len() && 0 <= x < g0[y].len() ==>
        g[y][x] == (g0[y][x] || (x < w && added.contains((x, y))))
}

/// The tile `(x, y)` (on a `w` by `h` map) has a floor tile as an edge neighbour.
pub open spec fn touches_floor(g: Seq<Seq<bool>>, w: int, h: int, x: int, y: int) -> bool {
    ||| x > 0 && g[y][x - 1]
    ||| x + 1 < w && g[y][x + 1]
    ||| y > 0 && g[y - 1][x]
    ||| y + 1 < h && g[y + 1][x]
}

/// One coordinate moved one tile towards `t`, staying in `[0, n)`.
pub open spec fn step_towards(c: int, t: int, n: int) -> int {
    if t > c && c < n - 1 {
        c + 1
    } else if t < c && c > 0 {
        c - 1
    } else {
        c
    }
}

/// Where a particle at `(x, y)` on a `w` by `h` map goes in one step: with
/// `biased`, one tile towards `bias` in each coordinate; otherwise one tile
/// left, right, up or down for `dir` 0, 1, 2 or 3. A move that would leave
/// the map (or any other `dir`) keeps the particle where it is.
pub open spec fn walk_step(
    x: int,
    y: int,
    w: int,
    h: int,
    biased: bool,
    bias: (int, int),
    dir: int,
) -> (int, int) {
    if biased {
        (step_towards(x, bias.0, w), step_towards(y, bias.1, h))
    } else if dir == 0 && x > 0 {
        (x - 1, y)
    } else if dir == 1 && x < w - 1 {
        (x + 1, y)
    } else if dir == 2 && y > 0 {
        (x, y - 1)
    } else if dir == 3 && y < h - 1 {
        (x, y + 1)
    } else {
        (x, y)
    }
}

/// The number of steps after which a particle on a `w` by `h` map gives up:
/// `max(w * h / 100, 10000)`.
pub open spec fn max_walk_steps(w: int, h: int) -> int {
    if w * h / 100 > 10000 {
        w * h / 100
    } else {
        10000
    }
}

/// Some draw takes a particle from `p` to `q` in one step: an unbiased step in
/// one of the four directions (possible unless the bias ratio is `den / den`),
/// or a biased step towards one of `bias_points` (possible unless the ratio is
/// `0 / den`).
pub open spec fn step_possible(
    p: (int, int),
    q: (int, int),
    w: int,
    h: int,
    bias_points: Seq<(usize, usize)>,
    num: int,
    den: int,
) -> bool {
    ||| num < den && exists|dir: int| 0 <= dir < 4 && #[trigger] walk_step(p.0, p.1, w, h, false, (0, 0), dir) == q
    ||| num > 0 && exists|j: int|
        0 <= j < bias_points.len() && #[trigger] walk_step(p.0, p.1, w, h, true, pos(bias_points[j]), 0) == q
}

/// Step `i` of `path`: the particle at `path[i]` was not yet attached to the
/// floor (`g0` and `before`), and some draw moved it on to `path[i + 1]`.
pub open spec fn walk_link(
    path: Seq<(int, int)>,
    i: int,
    g0: Seq<Seq<bool>>,
    w: int,
    h: int,
    before: Seq<(int, int)>,
    bias_points: Seq<(usize, usize)>,
    num: int,
    den: int,
) -> bool {
    !attached(g0, w, h, before, path[i]) && step_possible(path[i], path[i + 1], w, h, bias_points, num, den)
}

/// `path` is a walk a particle can take before it sticks: it starts at one of
/// `spawn_points`, moves by [`walk_step`] for some draw while it is not
/// attached to the floor (`g0` and the tiles `before`), ends at the first tile
/// where it is attached, and takes fewer than [`max_walk_steps`] steps.
pub open spec fn particle_walk(
    path: Seq<(int, int)>,
    g0: Seq<Seq<bool>>,
    w: int,
    h: int,
    before: Seq<(int, int)>,
    spawn_points: Seq<(usize, usize)>,
    bias_points: Seq<(usize, usize)>,
    num: int,
    den: int,
) -> bool {
    &&& 1 <= path.len() <= max_walk_steps(w, h)
    &&& exists|i: int| 0 <= i < spawn_points.len() && pos(#[trigger] spawn_points[i]) == path[0]
    &&& forall|i: int| 0 <= i < path.len() - 1 ==> #[trigger] walk_link(path, i, g0, w, h, before, bias_points, num, den)
    &&& attached(g0, w, h, before, path.last())
}

/// The tile `t` is where some particle walk (see [`particle_walk`]) first
/// touches the floor made of `g0` and the tiles `before`.
pub open spec fn stuck_by_walk(
    g0: Seq<Seq<bool>>,
    w: int,
    h: int,
    before: Seq<(int, int)>,
    t: (int, int),
    spawn_points: Seq<(usize, usize)>,
    bias_points: Seq<(usize, usize)>,
    num: int,
    den: int,
) -> bool {
    exists|path: Seq<(int, int)>|
        #[trigger] particle_walk(path, g0, w, h, before, spawn_points, bias_points, num, den) && path.last() == t
}

/// `path` is the walk of one particle, up to where it stopped: it starts at
/// one of `spawn_points` and moves by [`walk_step`] for some draw while it is
/// not attached to the floor (`g0` and the tiles `before`); it stops at the
/// first tile where it is attached or, attached nowhere, after
/// [`max_walk_steps`] tiles (the particle gives up only then).
pub open spec fn particle_attempt(
    path: Seq<(int, int)>,
    g0: Seq<Seq<bool>>,
    w: int,
    h: int,
    before: Seq<(int, int)>,
    spawn_points: Seq<(usize, usize)>,
    bias_points: Seq<(usize, usize)>,
    num: int,
    den: int,
) -> bool {
    &&& 1 <= path.len() <= max_walk_steps(w, h)
    &&& exists|i: int| 0 <= i < spawn_points.len() && pos(#[trigger] spawn_points[i]) == path[0]
    &&& forall|i: int| 0 <= i < path.len() - 1 ==> #[trigger] walk_link(path, i, g0, w, h, before, bias_points, num, den)
    &&& attached(g0, w, h, before, path.last()) || path.len() == max_walk_steps(w, h)
}

/// The tiles that the particles with walks `walks`, one after the other, add
/// to the floor of `g0`: a particle that stops attached to the floor (made of
/// `g0` and the tiles added before it) on a wall tile turns that tile into
/// floor; any other particle adds nothing.
pub open spec fn walks_added(walks: Seq<Seq<(int, int)>>, g0: Seq<Seq<bool>>, w: int, h: int) -> Seq<(int, int)>
    decreases walks.len(),
{
    if walks.len() == 0 {
        Seq::empty()
    } else {
        let rest = walks_added(walks.drop_last(), g0, w, h);
        let t = walks.last().last();
        if attached(g0, w, h, rest, t) && !floor_in(g0, w, h, rest, t) {
            rest.push(t)
        } else {
            rest
        }
    }
}

/// A tile attached to the floor of `g0` grown by `added` has a floor tile of
/// the grown map `g` as an edge neighbour.
proof fn lemma_attached_touches(
    g0: Seq<Seq<bool>>,
    g: Seq<Seq<bool>>,
    w: int,
    h: int,
    added: Seq<(int, int)>,
    p: (int, int),
)
    requires
        grown_from(g0, g, w, h, added),
        rows_at_least(g0, w),
        g0.len() == h,
        in_bounds(p, w, h),
        attached(g0, w, h, added, p),
    ensures
        touches_floor(g, w, h, p.0, p.1),
{
    let (x, y) = p;
    if floor_in(g0, w, h, added, (x - 1, y)) {
        assert(g0[y].len() >= w);
        assert(g[y][x - 1]);
    } else if floor_in(g0, w, h, added, (x + 1, y)) {
        assert(g0[y].len() >= w);
        assert(g[y][x + 1]);
    } else if floor_in(g0, w, h, added, (x, y - 1)) {
        assert(g0[y - 1].len() >= w);
        assert(g[y - 1][x]);
    } else {
        assert(g0[y + 1].len() >= w);
        assert(g[y + 1][x]);
    }
}

/// One step of a particle's walk for given draws (see [`walk_step`]): whether
/// the step is biased, the bias point drawn, and the direction drawn.
pub fn particle_step(
    x: usize,
    y: usize,
    width: usize,
    height: usize,
    biased: bool,
    bias: (usize, usize),
    dir: usize,
) -> (r: (usize, usize))
    requires
        width >= 1,
        height >= 1,
    ensures
        pos(r) == walk_step(x as int, y as int, width as int, height as int, biased, pos(bias), dir as int),
{
    let (mut nx, mut ny) = (x, y);
    if biased {
        let (bias_x, bias_y) = bias;
        if bias_x > x && x < width - 1 {
            nx = x + 1;
        } else if bias_x < x && x > 0 {
            nx = x - 1;
        }
        if bias_y > y && y < height - 1 {
            ny = y + 1;
        } else if bias_y < y && y > 0 {
            ny = y - 1;
        }
    } else if dir == 0 && x > 0 {
        nx = x - 1;
    } else if dir == 1 && x < width - 1 {
        nx = x + 1;
    } else if dir == 2 && y > 0 {
        ny = y - 1;
    } else if dir == 3 && y < height - 1 {
        ny = y + 1;
    }
    (nx, ny)
}

/// Whether the tile `(x, y)` of a map `width` tiles wide has a floor tile as
/// an edge neighbour (see [`touches_floor`]).
pub fn is_adjacent_to_occupied(x: usize, y: usize, map: &Vec<Vec<bool>>, width: usize) -> (r: bool)
    requires
        x < width,
        y < map@.len(),
        rows_at_least(grid_view(map), width as int),
    ensures
        r == touches_floor(grid_view(map), width as int, map@.len() as int, x as int, y as int),
{
    let height = map.len();
    assert(grid_view(map)[y as int] == map@[y as int]@);
    if x > 0 && map[y][x - 1] {
        return true;
    }
    if x + 1 < width && map[y][x + 1] {
        return true;
    }
    if y > 0 {
        assert(grid_view(map)[y as int - 1] == map@[y as int - 1]@);
        if map[y - 1][x] {
            return true;
        }
    }
    if y + 1 < height {
        assert(grid_view(map)[y as int + 1] == map@[y as int + 1]@);
        if map[y + 1][x] {
            return true;
        }
    }
    false
}

/// Grows the floor of `map` by diffusion-limited aggregation.
///
/// Particles start at randomly chosen `spawn_points` and walk at random over
/// the map (whose width is the length of the first row): each step moves
/// one tile towards a randomly chosen point of `bias_points` with
/// probability `bias_numerator / bias_denominator`, and otherwise one tile
/// in a random direction, never leaving the map. A particle that touches a
/// floor tile turns its own tile into floor and stops; after that
/// `progress_callback` gets the number of floor tiles, `target_tiles` and the
/// map. A particle gives up after `max(width * height / 100, 10000)` steps.
/// New particles are spawned until `target_tiles` new floor tiles have been
/// made or `max_particles` particles have been spawned.
///
/// Each step of a walk is [`particle_step`] applied to the draws made for it.
/// Whatever the random choices, floor only grows, every new floor tile was
/// attached to the floor that existed before it and is where some particle
/// walk from a spawn point first touched that floor (see [`stuck_by_walk`]),
/// and at most `target_tiles` (and at most `max_particles`) tiles are added.
/// The walk of every particle spawned is stated too (see [`particle_attempt`]
/// and [`walks_added`]): each is a legal walk that stops at the first tile
/// attached to the floor or gives up after exactly [`max_walk_steps`] tiles;
/// the map grows by what those walks add, and particles stop coming only
/// once `target_tiles` tiles were added or `max_particles` were spawned. Where no draw decides, the
/// outcome is stated: with a single spawn point on a wall tile next to floor,
/// the first particle sticks there at once, so that tile becomes floor.
pub fn dla_generation<F: Fn(usize, usize, &Vec<Vec<bool>>)>(
    map: &mut Vec<Vec<bool>>,
    target_tiles: usize,
    max_particles: usize,
    spawn_points: &Vec<(usize, usize)>,
    bias_points: &Vec<(usize, usize)>,
    bias_numerator: u32,
    bias_denominator: u32,
    progress_callback: F,
)
    requires
        old(map)@.len() > 0,
        rows_at_least(grid_view(old(map)), old(map)@[0]@.len() as int),
        target_tiles > 0 && max_particles > 0 ==> {
            &&& spawn_points@.len() > 0
            &&& forall|i: int| 0 <= i < spawn_points@.len() ==> in_bounds(
                pos(#[trigger] spawn_points@[i]),
                old(map)@[0]@.len() as int,
                old(map)@.len() as int,
            )
            &&& old(map)@[0]@.len() * old(map)@.len() <= usize::MAX
            // neighbour coordinates are computed in `i32`
            &&& old(map)@[0]@.len() <= i32::MAX
            &&& old(map)@.len() <= i32::MAX
            &&& 0 < bias_denominator
            &&& bias_numerator <= bias_denominator
            &&& bias_numerator > 0 ==> bias_points@.len() > 0
        },
        forall|a: usize, b: usize, m: &Vec<Vec<bool>>| progress_callback.requires((a, b, m)),
    ensures
        exists|added: Seq<(int, int)>|
            {
                &&& grown_from(
                    grid_view(old(map)),
                    grid_view(final(map)),
                    old(map)@[0]@.len() as int,
                    old(map)@.len() as int,
                    added,
                )
                &&& added.len() <= target_tiles
                &&& added.len() <= max_particles
                &&& forall|k: int| 0 <= k < added.len() ==> stuck_by_walk(
                    grid_view(old(map)),
                    old(map)@[0]@.len() as int,
                    old(map)@.len() as int,
                    added.take(k),
                    #[trigger] added[k],
                    spawn_points@,
                    bias_points@,
                    bias_numerator as int,
                    bias_denominator as int,
                )
            },
        // the walk of every particle spawned, and what each added
        exists|walks: Seq<Seq<(int, int)>>|
            {
                &&& walks.len() <= max_particles
                &&& forall|i: int| 0 <= i < walks.len() ==> particle_attempt(
                    #[trigger] walks[i],
                    grid_view(old(map)),
                    old(map)@[0]@.len() as int,
                    old(map)@.len() as int,
                    walks_added(walks.take(i), grid_view(old(map)), old(map)@[0]@.len() as int, old(map)@.len() as int),
                    spawn_points@,
                    bias_points@,
                    bias_numerator as int,
                    bias_denominator as int,
                )
                &&& grown_from(
                    grid_view(old(map)),
                    grid_view(final(map)),
                    old(map)@[0]@.len() as int,
                    old(map)@.len() as int,
                    walks_added(walks, grid_view(old(map)), old(map)@[0]@.len() as int, old(map)@.len() as int),
                )
                &&& walks_added(walks, grid_view(old(map)), old(map)@[0]@.len() as int, old(map)@.len() as int).len()
                    <= target_tiles
                &&& walks_added(walks, grid_view(old(map)), old(map)@[0]@.len() as int, old(map)@.len() as int).len()
                    < target_tiles ==> walks.len() == max_particles
            },
        // a single spawn point on a wall next to floor: the first particle sticks there
        ({
            let p = pos(spawn_points@[0]);
            let g0 = grid_view(old(map));
            target_tiles > 0 && max_particles > 0 && spawn_points@.len() == 1 && !g0[p.1][p.0]
                && touches_floor(g0, old(map)@[0]@.len() as int, old(map)@.len() as int, p.0, p.1)
        }) ==> grid_view(final(map))[spawn_points@[0].1 as int][spawn_points@[0].0 as int],
{
    let width = map[0].len();
    let height = map.len();
    let ghost g0 = grid_view(map);
    let ghost w = width as int;
    let ghost h = height as int;

    // count the floor tiles that are already there
    let mut seed_count: usize = 0;
    let mut y: usize = 0;
    let counting = target_tiles > 0 && max_particles > 0;
    while counting && y < height
        invariant
            y <= height,
            height == g0.len(),
            w == width,
            grid_view(map) == g0,
            rows_at_least(g0, w),
            seed_count == count_grid(g0, w, y as int),
            seed_count <= y * w,
            counting ==> w * h <= usize::MAX,
            h == height,
        decreases height - y,
    {
        let mut x: usize = 0;
        assert(g0[y as int] == map@[y as int]@);
        while x < width
            invariant
                x <= width,
                y < height,
                height == g0.len(),
                w == width,
                grid_view(map) == g0,
                rows_at_least(g0, w),
                g0[y as int] == map@[y as int]@,
                seed_count == count_grid(g0, w, y as int) + count_row(g0[y as int], x as int),
                seed_count <= y * w + x,
                w * h <= usize::MAX,
                h == height,
            decreases width - x,
        {
            if map[y][x] {
                assert(y * w + x < h * w) by (nonlinear_arith)
                    requires
                        y < h,
                        x < w;
                assert(h * w == w * h) by (nonlinear_arith);
                seed_count = seed_count + 1;
            }
            x = x + 1;
        }
        assert((y + 1) * w == y * w + w) by (nonlinear_arith);
        y = y + 1;
    }

    assert(counting ==> seed_count == count_grid(g0, w, h));
    let mut rng = thread_rng();
    let mut particles_spawned: usize = 0;
    let mut filled: usize = 0;
    let ghost mut added: Seq<(int, int)> = Seq::empty();
    assert(added.take(0) =~= added);
    let ghost sp: (int, int) = if spawn_points@.len() > 0 { pos(spawn_points@[0]) } else { (0, 0) };
    let ghost special: bool = target_tiles > 0 && max_particles > 0 && spawn_points@.len() == 1
        && !g0[sp.1][sp.0] && touches_floor(g0, w, h, sp.0, sp.1);
    let ghost mut walks: Seq<Seq<(int, int)>> = Seq::empty();

    while filled < target_tiles && particles_spawned < max_particles
        invariant
            height == g0.len(),
            w == width,
            h == height,
            rows_at_least(g0, w),
            grown_from(g0, grid_view(map), w, h, added),
            added.len() == filled,
            filled <= particles_spawned,
            filled <= target_tiles,
            particles_spawned <= max_particles,
            target_tiles > 0 && max_particles > 0 ==> {
                &&& spawn_points@.len() > 0
                &&& forall|i: int| 0 <= i < spawn_points@.len() ==> in_bounds(
                    pos(#[trigger] spawn_points@[i]),
                    w,
                    h,
                )
                &&& w * h <= usize::MAX
                &&& w <= i32::MAX
                &&& h <= i32::MAX
                &&& 0 < bias_denominator
                &&& bias_numerator <= bias_denominator
                &&& bias_numerator > 0 ==> bias_points@.len() > 0
            },
            target_tiles > 0 && max_particles > 0 ==> count_grid(grid_view(map), w, h) == seed_count + filled,
            forall|a: usize, b: usize, m: &Vec<Vec<bool>>| progress_callback.requires((a, b, m)),
            spawn_points@.len() > 0 ==> sp == pos(spawn_points@[0]),
            special == (target_tiles > 0 && max_particles > 0 && spawn_points@.len() == 1
                && !g0[sp.1][sp.0] && touches_floor(g0, w, h, sp.0, sp.1)),
            special && particles_spawned > 0 ==> added.contains(sp),
            forall|k: int| 0 <= k < added.len() ==> stuck_by_walk(
                g0, w, h, added.take(k), #[trigger] added[k],
                spawn_points@, bias_points@, bias_numerator as int, bias_denominator as int,
            ),
            walks.len() == particles_spawned,
            added == walks_added(walks, g0, w, h),
            forall|i: int| 0 <= i < walks.len() ==> particle_attempt(
                #[trigger] walks[i], g0, w, h, walks_added(walks.take(i), g0, w, h),
                spawn_points@, bias_points@, bias_numerator as int, bias_denominator as int,
            ),
        decreases max_particles - particles_spawned,
    {
        // spawn a particle
        let spawn_idx = random_below(&mut rng, spawn_points.len());
        let (mut x, mut y) = spawn_points[spawn_idx];
        assert(in_bounds(pos(spawn_points@[spawn_idx as int]), w, h));

        // random walk until stuck
        let max_steps = if width * height / 100 > 10000 { width * height / 100 } else { 10000 };
        assert(max_steps == max_walk_steps(w, h));
        let mut step: usize = 0;
        let ghost mut stuck = false;
        let ghost mut path: Seq<(int, int)> = seq![(x as int, y as int)];
        while step < max_steps
            invariant_except_break
                filled <= particles_spawned,
                filled < target_tiles,
                !stuck,
                path.len() == step + 1,
                path.last() == (x as int, y as int),
                path[0] == pos(spawn_points@[spawn_idx as int]),
                forall|i: int| 0 <= i < path.len() - 1 ==> #[trigger] walk_link(
                    path, i, g0, w, h, added, bias_points@, bias_numerator as int, bias_denominator as int,
                ),
            invariant
                x < width,
                y < height,
                height == g0.len(),
                w == width,
                h == height,
                width >= 1,
                rows_at_least(g0, w),
                grown_from(g0, grid_view(map), w, h, added),
                added.len() == filled,
                filled <= particles_spawned + 1,
                filled <= target_tiles,
                particles_spawned < max_particles,
                w * h <= usize::MAX,
                0 < bias_denominator,
                bias_numerator <= bias_denominator,
                bias_numerator > 0 ==> bias_points@.len() > 0,
                count_grid(grid_view(map), w, h) == seed_count + filled,
                forall|a: usize, b: usize, m: &Vec<Vec<bool>>| progress_callback.requires((a, b, m)),
                special ==> spawn_points@.len() == 1 && sp == pos(spawn_points@[0]) && in_bounds(sp, w, h)
                    && !g0[sp.1][sp.0] && touches_floor(g0, w, h, sp.0, sp.1),
                special && particles_spawned > 0 ==> added.contains(sp),
                special && particles_spawned == 0 ==> (step == 0 && (x as int, y as int) == sp && !stuck)
                    || added.contains(sp),
                max_steps >= 10000,
                max_steps == max_walk_steps(w, h),
                spawn_idx < spawn_points@.len(),
                forall|k: int| 0 <= k < added.len() ==> stuck_by_walk(
                    g0, w, h, added.take(k), #[trigger] added[k],
                    spawn_points@, bias_points@, bias_numerator as int, bias_denominator as int,
                ),
                step <= max_steps,
                walks.len() == particles_spawned + (if stuck { 1int } else { 0int }),
                added == walks_added(walks, g0, w, h),
                forall|i: int| 0 <= i < walks.len() ==> particle_attempt(
                    #[trigger] walks[i], g0, w, h, walks_added(walks.take(i), g0, w, h),
                    spawn_points@, bias_points@, bias_numerator as int, bias_denominator as int,
                ),
            ensures
                special && particles_spawned == 0 ==> added.contains(sp),
                !stuck ==> {
                    &&& step == max_steps
                    &&& path.len() == max_steps + 1
                    &&& path[0] == pos(spawn_points@[spawn_idx as int])
                    &&& forall|i: int| 0 <= i < path.len() - 1 ==> #[trigger] walk_link(
                        path, i, g0, w, h, added, bias_points@, bias_numerator as int, bias_denominator as int,
                    )
                },
            decreases max_steps - step,
        {
            proof {
                assert(rows_at_least(grid_view(map), w)) by {
                    assert forall|j: int| 0 <= j < grid_view(map).len() implies #[trigger] grid_view(map)[j].len() >= w by {
                        assert(g0[j].len() >= w);
                    }
                }
            }
            proof {
                if special && particles_spawned == 0 && step == 0 {
                    let gm = grid_view(map);
                    assert(gm[y as int] == map@[y as int]@);
                    if y > 0 {
                        assert(gm[y - 1] == map@[y - 1]@);
                        assert(g0[y - 1].len() >= w);
                    }
                    if y + 1 < h {
                        assert(gm[y + 1] == map@[y + 1]@);
                        assert(g0[y + 1].len() >= w);
                    }
                    assert(g0[y as int].len() >= w);
                    assert(touches_floor(gm, w, h, x as int, y as int));
                }
            }
            if is_adjacent_to_occupied(x, y, map, width) {
                let ghost g = grid_view(map);
                proof {
                    // the tile touches the current floor, which is the old floor and `added`
                    assert(attached(g0, w, h, added, (x as int, y as int))) by {
                        if x > 0 && g[y as int][x - 1] {
                            assert(floor_in(g0, w, h, added, (x - 1, y as int)));
                        } else if x + 1 < w && g[y as int][x + 1] {
                            assert(floor_in(g0, w, h, added, (x + 1, y as int)));
                        } else if y > 0 && g[y - 1][x as int] {
                            assert(floor_in(g0, w, h, added, (x as int, y - 1)));
                        } else {
                            assert(floor_in(g0, w, h, added, (x as int, y + 1)));
                        }
                    }
                    assert(pos(spawn_points@[spawn_idx as int]) == path[0]);
                    assert(particle_walk(
                        path, g0, w, h, added, spawn_points@, bias_points@,
                        bias_numerator as int, bias_denominator as int,
                    ));
                }
                let ghost walk_before = added;
                let ghost was_floor = grid_view(map)[y as int][x as int];
                proof {
                    assert(g0[y as int].len() >= w);
                    assert(floor_in(g0, w, h, walk_before, (x as int, y as int)) == was_floor);
                    assert(map@[y as int]@[x as int] == was_floor);
                }
                if !map[y][x] {
                    proof {
                        assert(g[y as int][x as int] == map@[y as int]@[x as int]);
                        lemma_count_grid_set(g, w, h, x as int, y as int);
                        lemma_count_grid_bound(g.update(y as int, g[y as int].update(x as int, true)), w, h);
                        assert(h * w == w * h) by (nonlinear_arith);
                    }
                    map[y][x] = true;
                    filled = filled + 1;
                    proof {
                        let p = (x as int, y as int);
                        let old_added = added;
                        added = added.push(p);
                        assert(grid_view(map) =~= g.update(y as int, g[y as int].update(x as int, true)));
                        assert(!old_added.contains(p));
                        assert forall|k: int| 0 <= k < old_added.len() implies added.take(k) =~= old_added.take(k) by {}
                        assert(added.take(old_added.len() as int) =~= old_added);
                        let gn = grid_view(map);
                        assert forall|k: int| 0 <= k < added.len() implies attached(g0, w, h, added.take(k), #[trigger] added[k]) by {
                            if k < old_added.len() {
                                assert(added[k] == old_added[k]);
                                assert(added.take(k) =~= old_added.take(k));
                            }
                        }
                        assert forall|xx: int, yy: int| #![trigger gn[yy][xx]] 0 <= yy < g0.len() && 0 <= xx < g0[yy].len() implies
                            gn[yy][xx] == (g0[yy][xx] || (xx < w && added.contains((xx, yy)))) by {
                            if (xx, yy) != p {
                                assert(gn[yy][xx] == g[yy][xx]);
                                if old_added.contains((xx, yy)) {
                                    let k = choose|k: int| 0 <= k < old_added.len() && old_added[k] == (xx, yy);
                                    assert(added[k] == (xx, yy));
                                }
                                if added.contains((xx, yy)) {
                                    let k = choose|k: int| 0 <= k < added.len() && added[k] == (xx, yy);
                                    assert(old_added[k] == (xx, yy));
                                }
                            } else {
                                assert(added[added.len() - 1] == p);
                            }
                        }
                        assert forall|k: int| 0 <= k < added.len() implies stuck_by_walk(
                            g0, w, h, added.take(k), #[trigger] added[k],
                            spawn_points@, bias_points@, bias_numerator as int, bias_denominator as int,
                        ) by {
                            if k < old_added.len() {
                                assert(added[k] == old_added[k]);
                                assert(added.take(k) =~= old_added.take(k));
                            } else {
                                assert(added.take(k) =~= walk_before);
                                assert(particle_walk(
                                    path, g0, w, h, walk_before, spawn_points@, bias_points@,
                                    bias_numerator as int, bias_denominator as int,
                                ));
                            }
                        }
                    }
                }
                assert(seed_count + filled <= w * h) by {
                    lemma_count_grid_bound(grid_view(map), w, h);
                    assert(h * w == w * h) by (nonlinear_arith);
                }
                progress_callback(seed_count + filled, target_tiles, &*map);
                proof {
                    if special && particles_spawned == 0 && !added.contains(sp) {
                        assert((x as int, y as int) == sp);
                        let gm = grid_view(map);
                        assert(gm[y as int] == map@[y as int]@);
                        assert(gm[y as int][x as int]);
                        assert(g0[y as int].len() >= w);
                    }
                    stuck = true;
                    assert(added == (if was_floor { walk_before } else { walk_before.push((x as int, y as int)) }));
                    let old_walks = walks;
                    walks = walks.push(path);
                    assert(walks.drop_last() =~= old_walks);
                    assert(walks.last() == path);
                    assert(walks_added(walks, g0, w, h) == added);
                    assert forall|i: int| 0 <= i < walks.len() implies particle_attempt(
                        #[trigger] walks[i], g0, w, h, walks_added(walks.take(i), g0, w, h),
                        spawn_points@, bias_points@, bias_numerator as int, bias_denominator as int,
                    ) by {
                        if i < old_walks.len() {
                            assert(walks.take(i) =~= old_walks.take(i));
                            assert(walks[i] == old_walks[i]);
                        } else {
                            assert(walks.take(i) =~= old_walks);
                            assert(walks[i] == path);
                        }
                    }
                }
                break;
            }
            let biased = random_ratio(&mut rng, bias_numerator, bias_denominator);
            let bias = if biased {
                bias_points[random_below(&mut rng, bias_points.len())]
            } else {
                (0, 0)
            };
            let dir = if biased {
                0
            } else {
                random_below(&mut rng, 4)
            };
            let next = particle_step(x, y, width, height, biased, bias, dir);
            proof {
                let p = (x as int, y as int);
                let q = pos(next);
                assert(!attached(g0, w, h, added, p)) by {
                    if attached(g0, w, h, added, p) {
                        lemma_attached_touches(g0, grid_view(map), w, h, added, p);
                    }
                }
                if biased {
                    let j = choose|j: int| 0 <= j < bias_points@.len() && bias_points@[j] == bias;
                    assert(walk_step(p.0, p.1, w, h, true, pos(bias_points@[j]), 0) == q);
                } else {
                    assert(walk_step(p.0, p.1, w, h, false, (0, 0), dir as int) == q);
                }
                assert(step_possible(p, q, w, h, bias_points@, bias_numerator as int, bias_denominator as int));
                let old_path = path;
                path = path.push(q);
                assert forall|i: int| 0 <= i < path.len() - 1 implies #[trigger] walk_link(
                    path, i, g0, w, h, added, bias_points@, bias_numerator as int, bias_denominator as int,
                ) by {
                    assert(path[i] == old_path[i]);
                    if i < old_path.len() - 1 {
                        assert(walk_link(old_path, i, g0, w, h, added, bias_points@, bias_numerator as int, bias_denominator as int));
                        assert(path[i + 1] == old_path[i + 1]);
                    }
                }
            }
            x = next.0;
            y = next.1;
            step = step + 1;
        }
        proof {
            if !stuck {
                // the particle gave up: its walk is the `max_steps` tiles it checked
                let attempt = path.take(max_steps as int);
                assert(attempt[0] == path[0]);
                assert(pos(spawn_points@[spawn_idx as int]) == attempt[0]);
                assert forall|i: int| 0 <= i < attempt.len() - 1 implies #[trigger] walk_link(
                    attempt, i, g0, w, h, added, bias_points@, bias_numerator as int, bias_denominator as int,
                ) by {
                    assert(walk_link(path, i, g0, w, h, added, bias_points@, bias_numerator as int, bias_denominator as int));
                    assert(attempt[i] == path[i]);
                    assert(attempt[i + 1] == path[i + 1]);
                }
                assert(walk_link(path, max_steps - 1, g0, w, h, added, bias_points@, bias_numerator as int, bias_denominator as int));
                assert(attempt.last() == path[max_steps - 1]);
                let old_walks = walks;
                walks = walks.push(attempt);
                assert(walks.drop_last() =~= old_walks);
                assert(walks.last() == attempt);
                assert(walks_added(walks, g0, w, h) == added);
                assert(particle_attempt(
                    attempt, g0, w, h, added,
                    spawn_points@, bias_points@, bias_numerator as int, bias_denominator as int,
                ));
                assert forall|i: int| 0 <= i < walks.len() implies particle_attempt(
                    #[trigger] walks[i], g0, w, h, walks_added(walks.take(i), g0, w, h),
                    spawn_points@, bias_points@, bias_numerator as int, bias_denominator as int,
                ) by {
                    if i < old_walks.len() {
                        assert(walks.take(i) =~= old_walks.take(i));
                        assert(walks[i] == old_walks[i]);
                    } else {
                        assert(walks.take(i) =~= old_walks);
                        assert(walks[i] == attempt);
                    }
                }
            }
        }
        particles_spawned = particles_spawned + 1;
    }
}

} // verus!
