//! Straight lines between map positions on a character grid.

use vstd::prelude::*;

verus! {

/// Distance between two integers.
pub open spec fn dist(a: int, b: int) -> int {
    if a <= b {
        b - a
    } else {
        a - b
    }
}

/// `v` lies between `a` and `b`, inclusive.
pub open spec fn between(v: int, a: int, b: int) -> bool {
    (a <= v <= b) || (b <= v <= a)
}

/// One coordinate of a grid step from `a` to `c`, heading from `from` to
/// `to`: unchanged, or one unit toward `to`.
pub open spec fn coord_step(a: int, c: int, from: int, to: int) -> bool {
    c == a || (from < to && c == a + 1) || (from >= to && c == a - 1)
}

/// A step of the line: to one of the eight neighbouring cells, toward the
/// end point in each coordinate.
pub open spec fn line_step(p: (i32, i32), q: (i32, i32), x0: i32, y0: i32, x1: i32, y1: i32) -> bool {
    &&& coord_step(p.0 as int, q.0 as int, x0 as int, x1 as int)
    &&& coord_step(p.1 as int, q.1 as int, y0 as int, y1 as int)
    &&& p != q
}

/// Point `p` keeps close to the straight line: with `i` and `j` its
/// distances from the start along each axis, the cross product
/// `dx * j - dy * i` stays within a cell's width of zero.
pub open spec fn near_line(p: (i32, i32), x0: i32, y0: i32, x1: i32, y1: i32) -> bool {
    let d = dist(x0 as int, x1 as int);
    let e = dist(y0 as int, y1 as int);
    let i = dist(x0 as int, p.0 as int);
    let j = dist(y0 as int, p.1 as int);
    -(e + 2 * d) <= 2 * (d * j - e * i) <= d + 2 * e
}

proof fn lemma_mul_succ(a: int, b: int)
    ensures
        a * (b + 1) == a * b + a,
{
    assert(a * (b + 1) == a * b + a) by (nonlinear_arith);
}

/// With x at its end and y short of it, the error term forbids an x step.
proof fn lemma_x_done(d: int, e: int, j: int)
    requires
        d >= 0,
        0 <= j < e,
    ensures
        d * (j + 1) - e * (d + 1) <= -e,
{
    assert(d * (j + 1) <= d * e) by (nonlinear_arith)
        requires
            d >= 0,
            j + 1 <= e,
    ;
    lemma_mul_succ(e, d);
    assert(e * d == d * e) by (nonlinear_arith);
}

/// With y at its end and x short of it, the error term forbids a y step.
proof fn lemma_y_done(d: int, e: int, i: int)
    requires
        e >= 0,
        0 <= i < d,
    ensures
        d * (e + 1) - e * (i + 1) >= d,
{
    assert(e * (i + 1) <= e * d) by (nonlinear_arith)
        requires
            e >= 0,
            i + 1 <= d,
    ;
    lemma_mul_succ(d, e);
    assert(e * d == d * e) by (nonlinear_arith);
}

/// Bresenham's line from `(x0, y0)` to `(x1, y1)`, both ends included:
/// each point a step from the last to one of its eight neighbours, toward
/// the end in each coordinate, inside the box of the two ends, and close
/// to the straight line.
pub fn bresenham_line(x0: i32, y0: i32, x1: i32, y1: i32) -> (points: Vec<(i32, i32)>)
    ensures
        points@.len() >= 1,
        points@[0] == (x0, y0),
        points@.last() == (x1, y1),
        forall|k: int|
            0 <= k < points@.len() ==> between((#[trigger] points@[k]).0 as int, x0 as int, x1 as int)
                && between(points@[k].1 as int, y0 as int, y1 as int) && near_line(points@[k], x0, y0, x1, y1),
        forall|k: int|
            0 <= k < points@.len() - 1 ==> line_step(#[trigger] points@[k], points@[k + 1], x0, y0, x1, y1),
{
    let mut points: Vec<(i32, i32)> = Vec::new();
    let dx: i64 = if x0 <= x1 {
        x1 as i64 - x0 as i64
    } else {
        x0 as i64 - x1 as i64
    };
    let dy: i64 = if y0 <= y1 {
        y0 as i64 - y1 as i64
    } else {
        y1 as i64 - y0 as i64
    };
    let sx: i64 = if x0 < x1 {
        1
    } else {
        -1
    };
    let sy: i64 = if y0 < y1 {
        1
    } else {
        -1
    };
    let mut err: i64 = dx + dy;
    let mut x: i64 = x0 as i64;
    let mut y: i64 = y0 as i64;
    let ghost d: int = dx as int;
    let ghost e: int = -dy;
    let ghost mut i: int = 0;
    let ghost mut j: int = 0;
    proof {
        lemma_mul_succ(d, 0);
        lemma_mul_succ(e, 0);
    }
    loop
        invariant_except_break
            d == dx,
            e == -dy,
            d == dist(x0 as int, x1 as int),
            e == dist(y0 as int, y1 as int),
            sx == (if x0 < x1 { 1int } else { -1int }),
            sy == (if y0 < y1 { 1int } else { -1int }),
            0 <= i <= d,
            0 <= j <= e,
            x == (if x0 < x1 { x0 + i } else { x0 - i }),
            y == (if y0 < y1 { y0 + j } else { y0 - j }),
            err == d * (j + 1) - e * (i + 1),
            -3 * e <= 2 * err <= 3 * d,
            points@.len() == 0 ==> i == 0 && j == 0,
            points@.len() > 0 ==> points@[0] == (x0, y0),
            points@.len() > 0 ==> line_step(points@.last(), (x as i32, y as i32), x0, y0, x1, y1),
            forall|k: int|
                0 <= k < points@.len() ==> between((#[trigger] points@[k]).0 as int, x0 as int, x1 as int)
                    && between(points@[k].1 as int, y0 as int, y1 as int) && near_line(points@[k], x0, y0, x1, y1),
            forall|k: int|
                0 <= k < points@.len() - 1 ==> line_step(#[trigger] points@[k], points@[k + 1], x0, y0, x1, y1),
        ensures
            points@.len() >= 1,
            points@[0] == (x0, y0),
            points@.last() == (x1, y1),
            forall|k: int|
                0 <= k < points@.len() ==> between((#[trigger] points@[k]).0 as int, x0 as int, x1 as int)
                    && between(points@[k].1 as int, y0 as int, y1 as int) && near_line(points@[k], x0, y0, x1, y1),
            forall|k: int|
                0 <= k < points@.len() - 1 ==> line_step(#[trigger] points@[k], points@[k + 1], x0, y0, x1, y1),
        decreases (d - i) + (e - j),
    {
        proof {
            lemma_mul_succ(d, j);
            lemma_mul_succ(e, i);
            assert(near_line((x as i32, y as i32), x0, y0, x1, y1));
        }
        let ghost before = points@;
        points.push((x as i32, y as i32));
        proof {
            assert forall|k: int| 0 <= k < points@.len() - 1 implies line_step(
                #[trigger] points@[k],
                points@[k + 1],
                x0,
                y0,
                x1,
                y1,
            ) by {
                if k < before.len() - 1 {
                    assert(points@[k] == before[k] && points@[k + 1] == before[k + 1]);
                } else {
                    assert(points@[k] == before.last());
                }
            }
        }
        if x == x1 as i64 && y == y1 as i64 {
            break;
        }
        let e2: i64 = 2 * err;
        proof {
            if i == d && j < e {
                lemma_x_done(d, e, j);
            }
            if j == e && i < d {
                lemma_y_done(d, e, i);
            }
        }
        let ghost px = x;
        let ghost py = y;
        if e2 >= dy {
            err = err + dy;
            x = x + sx;
            proof {
                i = i + 1;
                lemma_mul_succ(e, i);
            }
        }
        if e2 <= dx {
            err = err + dx;
            y = y + sy;
            proof {
                lemma_mul_succ(d, j + 1);
                j = j + 1;
            }
        }
        proof {
            assert(points@.last() == (px as i32, py as i32));
        }
    }
    points
}

} // verus!
