//! The disc of a brush, the disc of an explosion, and the impulse of an
//! explosion.

use vstd::prelude::*;
use crate::element::Velocity;
use crate::fixed::{
    clamped_sum, integer_sqrt, isqrt, lemma_isqrt_at_least, lemma_isqrt_of_square, magnitude,
    truncated, SUBCELL,
};

verus! {

/// The largest amount by which painting darkens a color.
pub const MAX_SHADE: u8 = 40;

/// The offset `(x, y)` lies in the disc of a brush of the given size. With `r`
/// half the size, rounded down, `x` runs from `-r` to `r` and `y` from `-r` to
/// `r - 1`: the disc lacks the cells at `y == r`. A size of one or less gives an
/// empty disc.
pub open spec fn in_disc(x: int, y: int, size: int) -> bool {
    let r = size / 2;
    size > 0 && -r <= x <= r && -r <= y < r && x * x + y * y <= r * r
}

/// The offset `(x, y)` lies in the disc of an explosion of the given size: with
/// `r` half the size, rounded down, it is no farther than `r` from the centre.
/// Unlike the disc of a brush this one is whole. A size of zero or less gives an
/// empty disc.
pub open spec fn in_blast(x: int, y: int, size: int) -> bool {
    let r = size / 2;
    size > 0 && -r <= x <= r && -r <= y <= r && x * x + y * y <= r * r
}

/// The velocity that an explosion of the given force adds to a cell from which
/// the centre of the explosion is offset by `(x, y)`: `-force` times the unit
/// vector along `(x, y)`, which points away from the centre where `force` is
/// positive; nothing at the centre itself. The length of `(x, y)` is taken in
/// velocity units, rounded down, and each component is rounded toward zero.
pub open spec fn impulse(x: int, y: int, force: int) -> (int, int) {
    if x == 0 && y == 0 {
        (0, 0)
    } else {
        let length = isqrt((x * x + y * y) * SUBCELL * SUBCELL);
        (truncated(-force * x * SUBCELL, length), truncated(-force * y * SUBCELL, length))
    }
}

/// The velocity `v` after an explosion of the given force whose centre is offset
/// by `(x, y)`.
pub open spec fn pushed(v: Velocity, x: int, y: int, force: int) -> Velocity {
    Velocity {
        x: clamped_sum(v.x as int, impulse(x, y, force).0),
        y: clamped_sum(v.y as int, impulse(x, y, force).1),
    }
}

/// The quotient of `a * b` by `d`, rounded toward zero, is no larger in
/// magnitude than `a` where `b` is no larger in magnitude than `d`.
proof fn lemma_scaled_quotient_bounded(a: int, b: int, d: int)
    requires
        0 < d,
        magnitude(b) <= d,
    ensures
        magnitude(truncated(a * b, d)) <= magnitude(a),
{
    let p = magnitude(a);
    let q = magnitude(b);
    assert(magnitude(a * b) == p * q) by (nonlinear_arith)
        requires
            p == magnitude(a),
            q == magnitude(b),
    ;
    assert(0 <= p * q <= p * d) by (nonlinear_arith)
        requires
            0 <= p,
            0 <= q <= d,
    ;
    vstd::arithmetic::div_mod::lemma_div_is_ordered(p * q, p * d, d);
    vstd::arithmetic::div_mod::lemma_div_multiples_vanish(p, d);
    vstd::arithmetic::div_mod::lemma_div_pos_is_pos(p * q, d);
    assert(p * d == d * p) by (nonlinear_arith);
}

/// No component of an impulse is larger in magnitude than the force.
pub proof fn lemma_impulse_within_force(x: int, y: int, force: int)
    ensures
        magnitude(impulse(x, y, force).0) <= magnitude(force),
        magnitude(impulse(x, y, force).1) <= magnitude(force),
{
    if x != 0 || y != 0 {
        let unit = SUBCELL as int;
        let squares = (x * x + y * y) * unit * unit;
        let length = isqrt(squares);
        let bx = magnitude(x) * unit;
        let by = magnitude(y) * unit;
        assert(bx * bx <= squares && by * by <= squares && 0 <= bx && 0 <= by && (bx > 0 || by
            > 0)) by (nonlinear_arith)
            requires
                bx == magnitude(x) * unit,
                by == magnitude(y) * unit,
                squares == (x * x + y * y) * unit * unit,
                unit == 1000,
                x != 0 || y != 0,
        ;
        lemma_isqrt_at_least(squares, bx);
        lemma_isqrt_at_least(squares, by);
        assert(magnitude(x * unit) == bx && magnitude(y * unit) == by) by (nonlinear_arith)
            requires
                bx == magnitude(x) * unit,
                by == magnitude(y) * unit,
                unit == 1000,
        ;
        assert(-force * x * unit == (-force) * (x * unit) && -force * y * unit == (-force) * (y
            * unit)) by (nonlinear_arith);
        lemma_scaled_quotient_bounded(-force, x * unit, length);
        lemma_scaled_quotient_bounded(-force, y * unit, length);
    }
}

/// The disc of an explosion is whole: it holds an offset together with the
/// opposite one and with the one mirrored in either axis, and it reaches as far
/// as `r`, half its size, along both axes in both directions.
pub proof fn lemma_blast_is_symmetric(x: int, y: int, size: int)
    ensures
        in_blast(x, y, size) == in_blast(-x, -y, size),
        in_blast(x, y, size) == in_blast(-x, y, size),
        in_blast(x, y, size) == in_blast(x, -y, size),
        in_blast(x, y, size) == in_blast(y, x, size),
        size > 0 ==> in_blast(0, size / 2, size) && in_blast(0, -(size / 2), size) && in_blast(
            size / 2,
            0,
            size,
        ) && in_blast(-(size / 2), 0, size),
        in_disc(x, y, size) ==> in_blast(x, y, size),
{
    assert((-x) * (-x) == x * x && (-y) * (-y) == y * y) by (nonlinear_arith);
    let r = size / 2;
    assert((-r) * (-r) == r * r && 0 * 0 == 0) by (nonlinear_arith);
}

/// Opposite offsets receive opposite impulses.
pub proof fn lemma_impulse_of_opposite_offset(x: int, y: int, force: int)
    ensures
        impulse(-x, -y, force).0 == -impulse(x, y, force).0,
        impulse(-x, -y, force).1 == -impulse(x, y, force).1,
{
    if x != 0 || y != 0 {
        let unit = SUBCELL as int;
        let squares = (x * x + y * y) * unit * unit;
        let length = isqrt(squares);
        let nx = -force * x * unit;
        let ny = -force * y * unit;
        assert(((-x) * (-x) + (-y) * (-y)) * unit * unit == squares && 1 <= squares)
            by (nonlinear_arith)
            requires
                squares == (x * x + y * y) * unit * unit,
                unit == 1000,
                x != 0 || y != 0,
        ;
        assert(-force * (-x) * unit == -nx && -force * (-y) * unit == -ny) by (nonlinear_arith)
            requires
                nx == -force * x * unit,
                ny == -force * y * unit,
        ;
        lemma_isqrt_at_least(squares, 1);
        assert(truncated(-nx, length) == -truncated(nx, length));
        assert(truncated(-ny, length) == -truncated(ny, length));
    }
}

/// Along a row or a column the impulse is the force itself, away from the centre:
/// where the centre is offset by `x` columns and no rows, or by `x` rows and no
/// columns, the cell receives `-force` along that axis if `x` is positive and
/// `force` if it is negative.
pub proof fn lemma_impulse_along_axis(x: int, force: int)
    requires
        x != 0,
    ensures
        impulse(x, 0, force) == (if x > 0 { -force } else { force }, 0int),
        impulse(0, x, force) == (0int, if x > 0 { -force } else { force }),
{
    let unit = SUBCELL as int;
    let b = magnitude(x) * unit;
    assert((x * x + 0 * 0) * unit * unit == b * b && (0 * 0 + x * x) * unit * unit == b * b && b
        > 0) by (nonlinear_arith)
        requires
            b == magnitude(x) * unit,
            unit == 1000,
            x != 0,
    ;
    lemma_isqrt_of_square(b);
    let n = -force * x * unit;
    assert(-force * 0 * unit == 0) by (nonlinear_arith);
    assert(magnitude(n) == magnitude(force) * b) by (nonlinear_arith)
        requires
            n == -force * x * unit,
            b == magnitude(x) * unit,
            unit == 1000,
    ;
    vstd::arithmetic::div_mod::lemma_div_multiples_vanish(magnitude(force), b);
    assert(magnitude(force) * b == b * magnitude(force)) by (nonlinear_arith);
    assert((n >= 0) == (x > 0 && force <= 0 || x < 0 && force >= 0) || n == 0) by (nonlinear_arith)
        requires
            n == -force * x * unit,
            unit == 1000,
            x != 0,
    ;
    assert(n == 0 ==> force == 0) by (nonlinear_arith)
        requires
            n == -force * x * unit,
            unit == 1000,
            x != 0,
    ;
}

/// Whether the offset `(x, y)` lies in the disc of a brush of the given size.
pub fn within_disc(x: i32, y: i32, size: i32) -> (inside: bool)
    ensures
        inside == in_disc(x as int, y as int, size as int),
{
    within_blast(x, y, size) && y < size / 2
}

/// Whether the offset `(x, y)` lies in the disc of an explosion of the given
/// size.
pub fn within_blast(x: i32, y: i32, size: i32) -> (inside: bool)
    ensures
        inside == in_blast(x as int, y as int, size as int),
{
    if size <= 0 {
        return false;
    }
    let r: i128 = (size / 2) as i128;
    let x: i128 = x as i128;
    let y: i128 = y as i128;
    assert(0 <= x * x <= 0x8000_0000 * 0x8000_0000 && 0 <= y * y <= 0x8000_0000 * 0x8000_0000 && 0
        <= r * r <= 0x8000_0000 * 0x8000_0000) by (nonlinear_arith)
        requires
            -0x8000_0000 <= x <= 0x8000_0000,
            -0x8000_0000 <= y <= 0x8000_0000,
            0 <= r <= 0x8000_0000,
    ;
    let squares: i128 = x * x + y * y;
    -r <= x && x <= r && -r <= y && y <= r && squares <= r * r
}

/// `sum + part`, held to the range of `i32`.
fn clamp_wide(sum: i32, part: i128) -> (held: i32)
    requires
        -0x1_0000_0000_0000_0000_0000_0000 <= part <= 0x1_0000_0000_0000_0000_0000_0000,
    ensures
        held == clamped_sum(sum as int, part as int),
{
    let wide: i128 = sum as i128 + part;
    if wide > i32::MAX as i128 {
        i32::MAX
    } else if wide < i32::MIN as i128 {
        i32::MIN
    } else {
        wide as i32
    }
}

/// The quotient of `n` by `d`, rounded toward zero.
fn divide_truncating(n: i128, d: i128) -> (q: i128)
    requires
        d > 0,
        -0x1_0000_0000_0000_0000_0000_0000 <= n <= 0x1_0000_0000_0000_0000_0000_0000,
    ensures
        q == truncated(n as int, d as int),
        -0x1_0000_0000_0000_0000_0000_0000 <= q <= 0x1_0000_0000_0000_0000_0000_0000,
{
    proof {
        let m: int = if n >= 0 { n as int } else { -(n as int) };
        vstd::arithmetic::div_mod::lemma_div_pos_is_pos(m, d as int);
        vstd::arithmetic::div_mod::lemma_div_is_ordered_by_denominator(m, 1, d as int);
    }
    if n >= 0 {
        n / d
    } else {
        -((-n) / d)
    }
}

/// Applies to `v` the impulse of an explosion of the given force whose centre
/// is offset by `(x, y)`.
pub fn push(v: Velocity, x: i32, y: i32, force: i32) -> (after: Velocity)
    ensures
        after == pushed(v, x as int, y as int, force as int),
{
    if x == 0 && y == 0 {
        return v;
    }
    let wx: i128 = x as i128;
    let wy: i128 = y as i128;
    let wf: i128 = force as i128;
    let unit: i128 = SUBCELL as i128;
    assert(0 <= wx * wx <= 0x8000_0000 * 0x8000_0000 && 0 <= wy * wy <= 0x8000_0000 * 0x8000_0000
        && wx * wx + wy * wy > 0) by (nonlinear_arith)
        requires
            -0x8000_0000 <= wx <= 0x8000_0000,
            -0x8000_0000 <= wy <= 0x8000_0000,
            wx != 0 || wy != 0,
    ;
    assert(-(0x8000_0000 * 0x8000_0000) <= wf * wx <= 0x8000_0000 * 0x8000_0000 && -(0x8000_0000
        * 0x8000_0000) <= wf * wy <= 0x8000_0000 * 0x8000_0000) by (nonlinear_arith)
        requires
            -0x8000_0000 <= wx <= 0x8000_0000,
            -0x8000_0000 <= wy <= 0x8000_0000,
            -0x8000_0000 <= wf <= 0x8000_0000,
    ;
    let squares: u128 = ((wx * wx + wy * wy) * unit * unit) as u128;
    let length: i128 = integer_sqrt(squares) as i128;
    assert(length > 0) by {
        if length == 0 {
            assert((length + 1) * (length + 1) == 1);
        }
    }
    assert(length == isqrt((x * x + y * y) * SUBCELL * SUBCELL));
    assert((-wf) * wx == -(wf * wx) && (-wf) * wy == -(wf * wy)) by (nonlinear_arith);
    let px = divide_truncating((-wf) * wx * unit, length);
    let py = divide_truncating((-wf) * wy * unit, length);
    Velocity { x: clamp_wide(v.x, px), y: clamp_wide(v.y, py) }
}

} // verus!
