use vstd::prelude::*;
use vstd::arithmetic::div_mod::{lemma_fundamental_div_mod, lemma_fundamental_div_mod_converse};

verus! {

/// Absolute value of an integer.
pub open spec fn abs_int(v: int) -> int {
    if v < 0 {
        -v
    } else {
        v
    }
}

/// Offset along the minor axis of the `i`-th pixel of a line whose extent is
/// `major` along its major axis and `minor` along its minor axis: the ideal offset
/// `minor * i / major`, rounded to the nearest integer, halves rounded up.
pub open spec fn minor_offset(major: int, minor: int, i: int) -> int {
    if major == 0 {
        0
    } else {
        (2 * minor * i + major) / (2 * major)
    }
}

/// Number of pixels of the line from `(x1, y1)` to `(x2, y2)`: one per step along
/// the major axis, both ends included.
pub open spec fn line_len(x1: int, y1: int, x2: int, y2: int) -> nat {
    let a = abs_int(x2 - x1);
    let b = abs_int(y2 - y1);
    (if a >= b { a + 1 } else { b + 1 }) as nat
}

/// Moves `from` by `dist` steps towards `to`.
pub open spec fn step_towards(from: int, to: int, dist: int) -> int {
    if from < to {
        from + dist
    } else {
        from - dist
    }
}

/// The `i`-th pixel of the line from `(x1, y1)` to `(x2, y2)`: the major axis advances
/// by one pixel per index, the minor axis follows the ideal line rounded to the nearest
/// pixel.
pub open spec fn line_point(x1: int, y1: int, x2: int, y2: int, i: int) -> (int, int) {
    let a = abs_int(x2 - x1);
    let b = abs_int(y2 - y1);
    if a >= b {
        (step_towards(x1, x2, i), step_towards(y1, y2, minor_offset(a, b, i)))
    } else {
        (step_towards(x1, x2, minor_offset(b, a, i)), step_towards(y1, y2, i))
    }
}

/// The offset `q` whose deviation from the ideal line lies in `(-major, major]`
/// (scaled by `2`) is the rounded ideal offset.
proof fn lemma_rounded_offset(major: int, minor: int, i: int, q: int)
    requires
        major > 0,
        -major < 2 * (major * q - minor * i) <= major,
    ensures
        q == minor_offset(major, minor, i),
{
    let x = 2 * minor * i + major;
    let d = 2 * major;
    let r = x - q * d;
    assert(q * d == 2 * (major * q)) by (nonlinear_arith)
        requires
            d == 2 * major,
    ;
    assert(2 * minor * i == 2 * (minor * i)) by (nonlinear_arith);
    lemma_fundamental_div_mod_converse(x, d, q, r);
}

/// At the last index the rounded offset reaches the full minor extent.
proof fn lemma_offset_at_end(major: int, minor: int)
    requires
        major > 0,
        0 <= minor <= major,
    ensures
        minor_offset(major, minor, major) == minor,
{
    assert(2 * (major * minor - minor * major) == 0) by (nonlinear_arith);
    lemma_rounded_offset(major, minor, major, minor);
}

/// A minor offset whose deviation stays within half a pixel of an ideal point inside
/// the segment does not pass the end of the segment.
proof fn lemma_minor_within_extent(major: int, minor: int, p: int, q: int)
    requires
        major > 0,
        0 <= minor,
        0 <= p <= major,
        2 * (major * q - minor * p) <= major,
    ensures
        q <= minor,
{
    assert(minor * p <= minor * major) by (nonlinear_arith)
        requires
            0 <= minor,
            p <= major,
    ;
    assert(q <= minor) by (nonlinear_arith)
        requires
            major > 0,
            2 * (major * q) <= major + 2 * (minor * major),
    ;
}

/// How the deviation `a * py - b * px` changes when either coordinate advances.
proof fn lemma_deviation_step(a: int, b: int, px: int, py: int)
    ensures
        a * (py + 1) - b * px == (a * py - b * px) + a,
        a * py - b * (px + 1) == (a * py - b * px) - b,
{
    assert(a * (py + 1) == a * py + a) by (nonlinear_arith);
    assert(b * (px + 1) == b * px + b) by (nonlinear_arith);
}

/// The rounded offset deviates from the ideal line by at most half a pixel, and by a
/// full half only past the ideal point.
proof fn lemma_offset_bounds(major: int, minor: int, i: int)
    requires
        major > 0,
    ensures
        -major < 2 * (major * minor_offset(major, minor, i) - minor * i) <= major,
{
    let x = 2 * minor * i + major;
    let d = 2 * major;
    let q = x / d;
    lemma_fundamental_div_mod(x, d);
    assert(d * q == 2 * (major * q)) by (nonlinear_arith)
        requires
            d == 2 * major,
    ;
    assert(2 * minor * i == 2 * (minor * i)) by (nonlinear_arith);
}

/// Between consecutive indices the rounded offset stays or advances by one.
proof fn lemma_offset_step(major: int, minor: int, i: int)
    requires
        major > 0,
        0 <= minor <= major,
    ensures
        minor_offset(major, minor, i + 1) == minor_offset(major, minor, i) || minor_offset(
            major,
            minor,
            i + 1,
        ) == minor_offset(major, minor, i) + 1,
{
    let q = minor_offset(major, minor, i);
    lemma_offset_bounds(major, minor, i);
    lemma_deviation_step(major, minor, i, q);
    if 2 * (major * q - minor * (i + 1)) > -major {
        lemma_rounded_offset(major, minor, i + 1, q);
    } else {
        lemma_rounded_offset(major, minor, i + 1, q + 1);
    }
}

/// Two pixels that differ and touch by a side or a corner.
pub open spec fn adjacent_pixels(p: (int, int), q: (int, int)) -> bool {
    &&& p != q
    &&& abs_int(p.0 - q.0) <= 1
    &&& abs_int(p.1 - q.1) <= 1
}

/// A rasterized line starts at its first end point, ends at its second, and each of
/// its pixels touches the next one.
pub proof fn lemma_line_shape(x1: int, y1: int, x2: int, y2: int)
    ensures
        line_point(x1, y1, x2, y2, 0) == (x1, y1),
        line_point(x1, y1, x2, y2, line_len(x1, y1, x2, y2) - 1) == (x2, y2),
        forall|i: int|
            0 <= i < line_len(x1, y1, x2, y2) - 1 ==> adjacent_pixels(
                #[trigger] line_point(x1, y1, x2, y2, i),
                line_point(x1, y1, x2, y2, i + 1),
            ),
{
    let a = abs_int(x2 - x1);
    let b = abs_int(y2 - y1);
    assert(2 * (a * 0 - b * 0) == 0 && 2 * (b * 0 - a * 0) == 0) by (nonlinear_arith);
    if a >= b {
        if a > 0 {
            lemma_rounded_offset(a, b, 0, 0);
            lemma_offset_at_end(a, b);
        }
        assert forall|i: int| 0 <= i < line_len(x1, y1, x2, y2) - 1 implies adjacent_pixels(
            #[trigger] line_point(x1, y1, x2, y2, i),
            line_point(x1, y1, x2, y2, i + 1),
        ) by {
            lemma_offset_step(a, b, i);
        }
    } else {
        lemma_rounded_offset(b, a, 0, 0);
        lemma_offset_at_end(b, a);
        assert forall|i: int| 0 <= i < line_len(x1, y1, x2, y2) - 1 implies adjacent_pixels(
            #[trigger] line_point(x1, y1, x2, y2, i),
            line_point(x1, y1, x2, y2, i + 1),
        ) by {
            lemma_offset_step(b, a, i);
        }
    }
}

/// Rasterizes the segment from `(x1, y1)` to `(x2, y2)` with Bresenham's algorithm and
/// returns its pixels in drawing order.
pub fn draw_line(x1: isize, y1: isize, x2: isize, y2: isize) -> (pts: Vec<(isize, isize)>)
    requires
        abs_int(x2 - x1) <= isize::MAX,
        abs_int(y2 - y1) <= isize::MAX,
    ensures
        pts.len() == line_len(x1 as int, y1 as int, x2 as int, y2 as int),
        forall|i: int|
            0 <= i < pts.len() ==> (#[trigger] pts@[i].0 as int, pts@[i].1 as int) == line_point(
                x1 as int,
                y1 as int,
                x2 as int,
                y2 as int,
                i,
            ),
{
    let dx: isize = if x2 >= x1 {
        x2 - x1
    } else {
        x1 - x2
    };
    let sx: isize = if x1 < x2 {
        1
    } else {
        -1
    };
    let dy: isize = if y2 >= y1 {
        y1 - y2
    } else {
        y2 - y1
    };
    let sy: isize = if y1 < y2 {
        1
    } else {
        -1
    };
    // The error term is kept in a wider integer so that doubling it cannot overflow.
    let mut err: i128 = dx as i128 + dy as i128;
    let mut x: isize = x1;
    let mut y: isize = y1;
    let mut pts: Vec<(isize, isize)> = Vec::new();
    let ghost a: int = dx as int;
    let ghost b: int = -(dy as int);
    let ghost mut px: int = 0;
    let ghost mut py: int = 0;
    let ghost mut dev: int = 0;
    proof {
        assert(a * 0 - b * 0 == 0) by (nonlinear_arith);
    }
    loop
        invariant_except_break
            a == abs_int(x2 - x1),
            b == abs_int(y2 - y1),
            dx == a,
            dy == -b,
            a <= isize::MAX,
            b <= isize::MAX,
            sx == (if x1 < x2 { 1int } else { -1int }),
            sy == (if y1 < y2 { 1int } else { -1int }),
            0 <= px <= a,
            0 <= py <= b,
            x == step_towards(x1 as int, x2 as int, px),
            y == step_towards(y1 as int, y2 as int, py),
            dev == a * py - b * px,
            err == a - b + dev,
            a >= b ==> px == pts.len() && (a == 0 || -a < 2 * dev <= a),
            a < b ==> py == pts.len() && -b <= 2 * dev < b,
            pts.len() < line_len(x1 as int, y1 as int, x2 as int, y2 as int),
            forall|j: int|
                0 <= j < pts.len() ==> (#[trigger] pts@[j].0 as int, pts@[j].1 as int)
                    == line_point(x1 as int, y1 as int, x2 as int, y2 as int, j),
        ensures
            pts.len() == line_len(x1 as int, y1 as int, x2 as int, y2 as int),
            forall|j: int|
                0 <= j < pts.len() ==> (#[trigger] pts@[j].0 as int, pts@[j].1 as int)
                    == line_point(x1 as int, y1 as int, x2 as int, y2 as int, j),
        decreases line_len(x1 as int, y1 as int, x2 as int, y2 as int) - pts.len(),
    {
        proof {
            let i = pts.len() as int;
            if a >= b {
                if a > 0 {
                    lemma_rounded_offset(a, b, i, py);
                }
            } else {
                lemma_rounded_offset(b, a, i, px);
            }
        }
        pts.push((x, y));
        if x == x2 && y == y2 {
            break;
        }
        let ghost i: int = pts.len() - 1;
        proof {
            // Before the last index the line has not reached its end point.
            if a >= b {
                if i == a && a > 0 {
                    lemma_offset_at_end(a, b);
                    lemma_rounded_offset(a, b, i, py);
                }
            } else {
                if i == b {
                    lemma_offset_at_end(b, a);
                    lemma_rounded_offset(b, a, i, px);
                }
            }
            lemma_deviation_step(a, b, px, py);
            lemma_deviation_step(a, b, px + 1, py);
        }
        let e2: i128 = 2 * err;
        let step_x = e2 >= dy as i128;
        let step_y = e2 <= dx as i128;
        let ghost px2: int = if step_x { px + 1 } else { px };
        let ghost py2: int = if step_y { py + 1 } else { py };
        let ghost dev2: int = dev + (if step_y { a } else { 0 }) - (if step_x { b } else { 0 });
        proof {
            assert(dev2 == a * py2 - b * px2);
            if a >= b {
                assert(step_x);
                assert(px2 <= a);
                if a > 0 {
                    lemma_minor_within_extent(a, b, px2, py2);
                }
            } else {
                assert(step_y);
                assert(2 * (b * px2 - a * py2) <= b);
                lemma_minor_within_extent(b, a, py2, px2);
            }
        }
        if step_x {
            err = err + dy as i128;
            x = x + sx;
        }
        if step_y {
            err = err + dx as i128;
            y = y + sy;
        }
        proof {
            px = px2;
            py = py2;
            dev = dev2;
        }
    }
    pts
}

/// Every pixel of a rasterized line lies within half a pixel of the ideal segment along
/// the minor axis (measured as a deviation scaled by twice the major extent), a full
/// half only on the far side; the major axis advances one pixel per index.
pub proof fn lemma_line_close_to_ideal(x1: int, y1: int, x2: int, y2: int, i: int)
    ensures
        ({
            let a = abs_int(x2 - x1);
            let b = abs_int(y2 - y1);
            let p = line_point(x1, y1, x2, y2, i);
            let px = abs_int(p.0 - x1);
            let py = abs_int(p.1 - y1);
            0 <= i ==> (if a >= b {
                px == i && (a == 0 || -a < 2 * (a * py - b * i) <= a)
            } else {
                py == i && -b < 2 * (b * px - a * i) <= b
            })
        }),
{
    let a = abs_int(x2 - x1);
    let b = abs_int(y2 - y1);
    if 0 <= i {
        if a >= b {
            if a > 0 {
                lemma_offset_bounds(a, b, i);
                lemma_offset_nonneg(a, b, i);
            }
        } else {
            lemma_offset_bounds(b, a, i);
            lemma_offset_nonneg(b, a, i);
        }
    }
}

/// The rounded offset of a nonnegative index is nonnegative.
proof fn lemma_offset_nonneg(major: int, minor: int, i: int)
    requires
        major > 0,
        0 <= minor,
        0 <= i,
    ensures
        minor_offset(major, minor, i) >= 0,
{
    assert(2 * minor * i + major >= 0) by (nonlinear_arith)
        requires
            major > 0,
            0 <= minor,
            0 <= i,
    ;
}

} // verus!
