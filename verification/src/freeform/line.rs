//! Bresenham's line algorithm on tile coordinates.

use vstd::prelude::*;
use crate::grid::in_bounds;

verus! {

/// One step of Bresenham's algorithm from the state `(x, y, err)`, for a line
/// with `dx = |x1 - x0|`, `dy = -|y1 - y0|` and step directions `sx`, `sy`.
pub open spec fn bresenham_step(st: (int, int, int), dx: int, dy: int, sx: int, sy: int) -> (int, int, int) {
    let (x, y, err) = st;
    let e2 = 2 * err;
    let (x1, err1) = if e2 >= dy { (x + sx, err + dy) } else { (x, err) };
    if e2 <= dx { (x1, y + sy, err1 + dx) } else { (x1, y, err1) }
}

/// The tiles visited from state `st` until `end` is reached (at most `fuel` of them).
pub open spec fn bresenham_from(
    st: (int, int, int),
    end: (int, int),
    dx: int,
    dy: int,
    sx: int,
    sy: int,
    fuel: nat,
) -> Seq<(int, int)>
    decreases fuel,
{
    if fuel == 0 {
        Seq::empty()
    } else if (st.0, st.1) == end {
        seq![(st.0, st.1)]
    } else {
        seq![(st.0, st.1)] + bresenham_from(bresenham_step(st, dx, dy, sx, sy), end, dx, dy, sx, sy, (fuel - 1) as nat)
    }
}

/// The absolute value of `v`.
pub open spec fn abs(v: int) -> int {
    if v < 0 { -v } else { v }
}

/// The tiles of Bresenham's line from `a` to `b`, in order from `a`.
pub open spec fn bresenham(a: (int, int), b: (int, int)) -> Seq<(int, int)> {
    let dx = abs(b.0 - a.0);
    let dy = -abs(b.1 - a.1);
    let sx = if a.0 < b.0 { 1int } else { -1int };
    let sy = if a.1 < b.1 { 1int } else { -1int };
    bresenham_from((a.0, a.1, dx + dy), b, dx, dy, sx, sy, (dx - dy + 1) as nat)
}

/// The tiles of `s` that lie on a `w` by `h` map, in order.
pub open spec fn keep_on_map(s: Seq<(int, int)>, w: int, h: int) -> Seq<(usize, usize)>
    decreases s.len(),
{
    if s.len() == 0 {
        Seq::empty()
    } else {
        let first = if in_bounds(s[0], w, h) { seq![(s[0].0 as usize, s[0].1 as usize)] } else { Seq::empty() };
        first + keep_on_map(s.drop_first(), w, h)
    }
}

/// The tiles on Bresenham's line from `a` to `b` (both included, in order
/// from `a`) that lie on the map, whose width is the length of its first row.
pub fn line(map: &Vec<Vec<bool>>, a: (usize, usize), b: (usize, usize)) -> (points: Vec<(usize, usize)>)
    requires
        map@.len() > 0,
        // the algorithm works in `isize`, with doubled errors
        4 * a.0 <= isize::MAX,
        4 * a.1 <= isize::MAX,
        4 * b.0 <= isize::MAX,
        4 * b.1 <= isize::MAX,
    ensures
        points@ == keep_on_map(
            bresenham((a.0 as int, a.1 as int), (b.0 as int, b.1 as int)),
            map@[0]@.len() as int,
            map@.len() as int,
        ),
        in_bounds((a.0 as int, a.1 as int), map@[0]@.len() as int, map@.len() as int)
            && in_bounds((b.0 as int, b.1 as int), map@[0]@.len() as int, map@.len() as int) ==> {
            &&& points@.len() >= 1
            &&& points@[0] == a
            &&& points@.last() == b
            &&& forall|i: int| 0 <= i < points@.len() - 1 ==> king_step(
                (#[trigger] points@[i].0 as int, points@[i].1 as int),
                (points@[i + 1].0 as int, points@[i + 1].1 as int),
            )
        },
{
    proof {
        let (w, h) = (map@[0]@.len() as int, map@.len() as int);
        assert(map@[0]@.len() == map@[0].len());
        assert(map@.len() == map.len());
        if in_bounds((a.0 as int, a.1 as int), w, h) && in_bounds((b.0 as int, b.1 as int), w, h) {
            lemma_line_on_map((a.0 as int, a.1 as int), (b.0 as int, b.1 as int), w, h);
        }
    }
    let (x0, y0) = (a.0 as isize, a.1 as isize);
    let (x1, y1) = (b.0 as isize, b.1 as isize);
    let dx = if x1 >= x0 { x1 - x0 } else { x0 - x1 };
    let dy = -(if y1 >= y0 { y1 - y0 } else { y0 - y1 });
    let sx: isize = if x0 < x1 { 1 } else { -1 };
    let sy: isize = if y0 < y1 { 1 } else { -1 };
    let mut err = dx + dy;
    let mut points: Vec<(usize, usize)> = Vec::new();
    let width = map[0].len();
    let height = map.len();
    let ghost w = width as int;
    let ghost h = height as int;
    let ghost end = (x1 as int, y1 as int);
    let ghost full = bresenham((a.0 as int, a.1 as int), (b.0 as int, b.1 as int));

    let mut x = x0;
    let mut y = y0;
    // steps taken along each axis, and their contributions to the error
    let ghost mut steps_x: int = 0;
    let ghost mut steps_y: int = 0;
    let ghost mut fuel: nat = (dx - dy + 1) as nat;
    assert(full == bresenham_from((x as int, y as int, err as int), end, dx as int, dy as int, sx as int, sy as int, fuel));
    assert(points@ + keep_on_map(full, w, h) =~= keep_on_map(full, w, h));

    loop
        invariant_except_break
            points@ + keep_on_map(
                bresenham_from((x as int, y as int, err as int), end, dx as int, dy as int, sx as int, sy as int, fuel),
                w,
                h,
            ) == keep_on_map(full, w, h),
        invariant
            0 <= dx <= isize::MAX / 4,
            -(isize::MAX / 4) <= dy <= 0,
            sx == 1 || sx == -1,
            sy == 1 || sy == -1,
            sx == if x0 < x1 { 1int } else { -1int },
            sy == if y0 < y1 { 1int } else { -1int },
            dx == abs(x1 - x0),
            dy == -abs(y1 - y0),
            0 <= x0 <= isize::MAX / 4,
            0 <= y0 <= isize::MAX / 4,
            0 <= x1 <= isize::MAX / 4,
            0 <= y1 <= isize::MAX / 4,
            end == (x1 as int, y1 as int),
            w == width,
            h == height,
            height == map@.len(),
            width == map@[0]@.len(),
            height > 0,
            0 <= steps_x <= dx,
            0 <= steps_y <= -dy,
            x == if sx == 1 { x0 + steps_x } else { x0 - steps_x },
            y == if sy == 1 { y0 + steps_y } else { y0 - steps_y },
            err == dx + dy + steps_x * dy + steps_y * dx,
            2 * dy <= err <= 2 * dx,
            fuel >= dx - steps_x + (-dy - steps_y) + 1,
        ensures
            points@ == keep_on_map(full, w, h),
        decreases fuel,
    {
        let ghost st = (x as int, y as int, err as int);
        let ghost rest = bresenham_from(st, end, dx as int, dy as int, sx as int, sy as int, fuel);
        let ghost first = if in_bounds((x as int, y as int), w, h) {
            seq![(x as usize, y as usize)]
        } else {
            Seq::<(usize, usize)>::empty()
        };
        proof {
            assert(rest.len() > 0 && rest[0] == (x as int, y as int));
            assert(keep_on_map(rest, w, h) == first + keep_on_map(rest.drop_first(), w, h));
        }
        let ghost before = points@;
        if x >= 0 && y >= 0 && (x as usize) < width && (y as usize) < height {
            points.push((x as usize, y as usize));
        }
        assert(points@ =~= before + first);
        if x == x1 && y == y1 {
            proof {
                assert(rest =~= seq![(x as int, y as int)]);
                assert(rest.drop_first() =~= Seq::<(int, int)>::empty());
                assert(points@ =~= before + keep_on_map(rest, w, h));
            }
            break;
        }
        let ghost next = bresenham_step(st, dx as int, dy as int, sx as int, sy as int);
        proof {
            assert(rest.drop_first() =~= bresenham_from(next, end, dx as int, dy as int, sx as int, sy as int, (fuel - 1) as nat));
            // neither coordinate overshoots its end
            if steps_x == dx {
                assert(x == x1);
                assert(steps_y < -dy);
                assert(2 * err < dy) by (nonlinear_arith)
                    requires
                        err == dx + dy + steps_x * dy + steps_y * dx,
                        steps_x == dx,
                        0 <= steps_y < -dy,
                        dx >= 0;
            }
            if steps_y == -dy {
                assert(y == y1);
                assert(steps_x < dx);
                assert(2 * err > dx) by (nonlinear_arith)
                    requires
                        err == dx + dy + steps_x * dy + steps_y * dx,
                        steps_y == -dy,
                        0 <= steps_x < dx,
                        dy <= 0;
            }
        }
        let e2 = 2 * err;
        if e2 >= dy {
            err = err + dy;
            x = x + sx;
            proof {
                assert((steps_x + 1) * dy == steps_x * dy + dy) by (nonlinear_arith);
                steps_x = steps_x + 1;
            }
        }
        if e2 <= dx {
            err = err + dx;
            y = y + sy;
            proof {
                assert((steps_y + 1) * dx == steps_y * dx + dx) by (nonlinear_arith);
                steps_y = steps_y + 1;
            }
        }
        proof {
            fuel = (fuel - 1) as nat;
            assert((x as int, y as int, err as int) == next);
            assert(before + first + keep_on_map(rest.drop_first(), w, h) == keep_on_map(full, w, h));
            assert(points@ + keep_on_map(bresenham_from(next, end, dx as int, dy as int, sx as int, sy as int, fuel), w, h)
                =~= before + (first + keep_on_map(rest.drop_first(), w, h)));
        }
    }
    points
}

/// `q` is one of the eight tiles around `p`.
pub open spec fn king_step(p: (int, int), q: (int, int)) -> bool {
    &&& -1 <= q.0 - p.0 <= 1
    &&& -1 <= q.1 - p.1 <= 1
    &&& p != q
}

proof fn lemma_bresenham_from(
    st: (int, int, int),
    end: (int, int),
    dx: int,
    dy: int,
    sx: int,
    sy: int,
    fuel: nat,
    x0: int,
    y0: int,
    steps_x: int,
    steps_y: int,
)
    requires
        dx >= 0,
        dy <= 0,
        sx == if x0 < end.0 { 1int } else { -1int },
        sy == if y0 < end.1 { 1int } else { -1int },
        dx == abs(end.0 - x0),
        dy == -abs(end.1 - y0),
        0 <= steps_x <= dx,
        0 <= steps_y <= -dy,
        st.0 == if sx == 1 { x0 + steps_x } else { x0 - steps_x },
        st.1 == if sy == 1 { y0 + steps_y } else { y0 - steps_y },
        st.2 == dx + dy + steps_x * dy + steps_y * dx,
        fuel >= dx - steps_x + (-dy - steps_y) + 1,
    ensures
        ({
            let s = bresenham_from(st, end, dx, dy, sx, sy, fuel);
            &&& s.len() >= 1
            &&& s[0] == (st.0, st.1)
            &&& s.last() == end
            &&& forall|i: int| 0 <= i < s.len() - 1 ==> king_step(#[trigger] s[i], s[i + 1])
            &&& forall|i: int| 0 <= i < s.len() ==> in_box(#[trigger] s[i], (x0, y0), end)
        }),
    decreases fuel,
{
    let s = bresenham_from(st, end, dx, dy, sx, sy, fuel);
    if (st.0, st.1) != end {
        let (x, y, err) = st;
        if steps_x == dx {
            assert(x == end.0);
            assert(2 * err < dy) by (nonlinear_arith)
                requires
                    err == dx + dy + steps_x * dy + steps_y * dx,
                    steps_x == dx,
                    0 <= steps_y < -dy,
                    dx >= 0;
        }
        if steps_y == -dy {
            assert(y == end.1);
            assert(2 * err > dx) by (nonlinear_arith)
                requires
                    err == dx + dy + steps_x * dy + steps_y * dx,
                    steps_y == -dy,
                    0 <= steps_x < dx,
                    dy <= 0;
        }
        let next = bresenham_step(st, dx, dy, sx, sy);
        let e2 = 2 * err;
        let nsx = if e2 >= dy { steps_x + 1 } else { steps_x };
        let nsy = if e2 <= dx { steps_y + 1 } else { steps_y };
        assert((steps_x + 1) * dy == steps_x * dy + dy) by (nonlinear_arith);
        assert((steps_y + 1) * dx == steps_y * dx + dx) by (nonlinear_arith);
        assert(next.2 == dx + dy + nsx * dy + nsy * dx);
        lemma_bresenham_from(next, end, dx, dy, sx, sy, (fuel - 1) as nat, x0, y0, nsx, nsy);
        let rest = bresenham_from(next, end, dx, dy, sx, sy, (fuel - 1) as nat);
        assert(s == seq![(st.0, st.1)] + rest);
        assert forall|i: int| 0 <= i < s.len() - 1 implies king_step(#[trigger] s[i], s[i + 1]) by {
            if i == 0 {
                assert(s[1] == rest[0]);
            } else {
                assert(s[i] == rest[i - 1]);
                assert(s[i + 1] == rest[i]);
            }
        }
        assert forall|i: int| 0 <= i < s.len() implies in_box(#[trigger] s[i], (x0, y0), end) by {
            if i > 0 {
                assert(s[i] == rest[i - 1]);
            }
        }
    }
}

/// `p` lies in the rectangle spanned by `a` and `b`.
pub open spec fn in_box(p: (int, int), a: (int, int), b: (int, int)) -> bool {
    &&& (a.0 <= p.0 <= b.0 || b.0 <= p.0 <= a.0)
    &&& (a.1 <= p.1 <= b.1 || b.1 <= p.1 <= a.1)
}

proof fn lemma_keep_all_on_map(s: Seq<(int, int)>, w: int, h: int)
    requires
        forall|i: int| 0 <= i < s.len() ==> in_bounds(#[trigger] s[i], w, h),
    ensures
        keep_on_map(s, w, h).len() == s.len(),
        forall|i: int| 0 <= i < s.len() ==> #[trigger] keep_on_map(s, w, h)[i] == (s[i].0 as usize, s[i].1 as usize),
    decreases s.len(),
{
    if s.len() > 0 {
        let t = s.drop_first();
        assert forall|i: int| 0 <= i < t.len() implies in_bounds(#[trigger] t[i], w, h) by {
            assert(t[i] == s[i + 1]);
        }
        lemma_keep_all_on_map(t, w, h);
        assert(in_bounds(s[0], w, h));
        assert forall|i: int| 0 <= i < s.len() implies #[trigger] keep_on_map(s, w, h)[i] == (s[i].0 as usize, s[i].1 as usize) by {
            if i > 0 {
                assert(s[i] == t[i - 1]);
            }
        }
    }
}

/// When both ends lie on the map, the whole line does: it starts at `a`,
/// ends at `b`, and each tile is one of the eight around the one before.
pub proof fn lemma_line_on_map(a: (int, int), b: (int, int), w: int, h: int)
    requires
        in_bounds(a, w, h),
        in_bounds(b, w, h),
        w <= usize::MAX,
        h <= usize::MAX,
    ensures
        ({
            let p = keep_on_map(bresenham(a, b), w, h);
            &&& p.len() >= 1
            &&& p[0] == (a.0 as usize, a.1 as usize)
            &&& p.last() == (b.0 as usize, b.1 as usize)
            &&& forall|i: int| 0 <= i < p.len() - 1 ==> king_step(
                (#[trigger] p[i].0 as int, p[i].1 as int),
                (p[i + 1].0 as int, p[i + 1].1 as int),
            )
        }),
{
    let dx = abs(b.0 - a.0);
    let dy = -abs(b.1 - a.1);
    let sx = if a.0 < b.0 { 1int } else { -1int };
    let sy = if a.1 < b.1 { 1int } else { -1int };
    assert(0int * dy == 0 && 0int * dx == 0);
    lemma_bresenham_from((a.0, a.1, dx + dy), b, dx, dy, sx, sy, (dx - dy + 1) as nat, a.0, a.1, 0, 0);
    let s = bresenham(a, b);
    assert forall|i: int| 0 <= i < s.len() implies in_bounds(#[trigger] s[i], w, h) by {
        assert(in_box(s[i], a, b));
    }
    lemma_keep_all_on_map(s, w, h);
    let p = keep_on_map(s, w, h);
    assert(p[p.len() - 1] == (s[s.len() - 1].0 as usize, s[s.len() - 1].1 as usize));
    assert forall|i: int| 0 <= i < p.len() - 1 implies king_step(
        (#[trigger] p[i].0 as int, p[i].1 as int),
        (p[i + 1].0 as int, p[i + 1].1 as int),
    ) by {
        assert(p[i] == (s[i].0 as usize, s[i].1 as usize));
        assert(p[i + 1] == (s[i + 1].0 as usize, s[i + 1].1 as usize));
        assert(in_bounds(s[i], w, h) && in_bounds(s[i + 1], w, h));
        assert(king_step(s[i], s[i + 1]));
    }
}

/// Bresenham's line from `a` to `b` starts at `a`, ends at `b`, and each
/// tile is one of the eight tiles around the one before it.
pub proof fn lemma_bresenham_connects(a: (int, int), b: (int, int))
    ensures
        ({
            let s = bresenham(a, b);
            &&& s.len() >= 1
            &&& s[0] == a
            &&& s.last() == b
            &&& forall|i: int| 0 <= i < s.len() - 1 ==> king_step(#[trigger] s[i], s[i + 1])
        }),
{
    let dx = abs(b.0 - a.0);
    let dy = -abs(b.1 - a.1);
    let sx = if a.0 < b.0 { 1int } else { -1int };
    let sy = if a.1 < b.1 { 1int } else { -1int };
    assert(0int * dy == 0 && 0int * dx == 0);
    lemma_bresenham_from((a.0, a.1, dx + dy), b, dx, dy, sx, sy, (dx - dy + 1) as nat, a.0, a.1, 0, 0);
}

} // verus!
