use vstd::prelude::*;

use vstd::arithmetic::mul::{
    lemma_mul_is_associative, lemma_mul_is_commutative, lemma_mul_is_distributive_add,
};

use crate::vec2::Vec2;

verus! {

/// Steps between the two ends of a flattened segment: `t` runs over
/// `0/STEPS, 1/STEPS, ..., STEPS/STEPS`.
pub const STEPS: u8 = 10;

/// `100 * B(step / 10)` on one axis, for the quadratic curve `a, b, c`.
pub open spec fn quad_num(step: int, a: int, b: int, c: int) -> int {
    (10 - step) * (10 - step) * a + 2 * (10 - step) * step * b + step * step * c
}

/// `1000 * B(step / 10)` on one axis, for the cubic curve `a, b, c, d`.
pub open spec fn cubic_num(step: int, a: int, b: int, c: int, d: int) -> int {
    (10 - step) * (10 - step) * (10 - step) * a + 3 * (10 - step) * (10 - step) * step * b + 3 * (10
        - step) * step * step * c + step * step * step * d
}

/// The quadratic sample at `t = step / 10`, rounded down to whole units.
pub open spec fn quad_point(step: int, start: Vec2, control: Vec2, end: Vec2) -> Vec2 {
    Vec2 {
        x: (quad_num(step, start.x as int, control.x as int, end.x as int) / 100) as i64,
        y: (quad_num(step, start.y as int, control.y as int, end.y as int) / 100) as i64,
    }
}

/// The cubic sample at `t = step / 10`, rounded down to whole units.
pub open spec fn cubic_point(step: int, start: Vec2, ca: Vec2, cb: Vec2, end: Vec2) -> Vec2 {
    Vec2 {
        x: (cubic_num(step, start.x as int, ca.x as int, cb.x as int, end.x as int) / 1000) as i64,
        y: (cubic_num(step, start.y as int, ca.y as int, cb.y as int, end.y as int) / 1000) as i64,
    }
}

/// Twice the signed area of the triangle `a, b, c`: zero exactly when the
/// three points lie on one line.
pub open spec fn cross(a: Vec2, b: Vec2, c: Vec2) -> int {
    (b.x - a.x) * (c.y - a.y) - (b.y - a.y) * (c.x - a.x)
}

proof fn lemma_floor_in_hull(n: int, d: int, lo: int, hi: int)
    requires
        d > 0,
        lo * d <= n <= hi * d,
    ensures
        lo <= n / d <= hi,
{
    assert(lo <= n / d) by (nonlinear_arith)
        requires d > 0, lo * d <= n;
    assert(n / d <= hi) by (nonlinear_arith)
        requires d > 0, n <= hi * d;
}

proof fn lemma_quad_hull(s: int, a: int, b: int, c: int)
    requires
        0 <= s <= 10,
        i64::MIN <= a <= i64::MAX,
        i64::MIN <= b <= i64::MAX,
        i64::MIN <= c <= i64::MAX,
    ensures
        i64::MIN * 100 <= quad_num(s, a, b, c) <= i64::MAX * 100,
        i64::MIN <= quad_num(s, a, b, c) / 100 <= i64::MAX,
{
    let u = 10 - s;
    let lo = i64::MIN as int;
    let hi = i64::MAX as int;
    assert(u * u * lo <= u * u * a <= u * u * hi) by (nonlinear_arith)
        requires 0 <= u, lo <= a <= hi;
    assert(2 * u * s * lo <= 2 * u * s * b <= 2 * u * s * hi) by (nonlinear_arith)
        requires 0 <= u, 0 <= s, lo <= b <= hi;
    assert(s * s * lo <= s * s * c <= s * s * hi) by (nonlinear_arith)
        requires lo <= c <= hi;
    assert(u * u + 2 * u * s + s * s == 100) by (nonlinear_arith)
        requires u == 10 - s;
    assert(u * u * lo + 2 * u * s * lo + s * s * lo == 100 * lo) by (nonlinear_arith)
        requires u * u + 2 * u * s + s * s == 100;
    assert(u * u * hi + 2 * u * s * hi + s * s * hi == 100 * hi) by (nonlinear_arith)
        requires u * u + 2 * u * s + s * s == 100;
    lemma_floor_in_hull(quad_num(s, a, b, c), 100, lo, hi);
}

proof fn lemma_cubic_hull(s: int, a: int, b: int, c: int, d: int)
    requires
        0 <= s <= 10,
        i64::MIN <= a <= i64::MAX,
        i64::MIN <= b <= i64::MAX,
        i64::MIN <= c <= i64::MAX,
        i64::MIN <= d <= i64::MAX,
    ensures
        i64::MIN * 1000 <= cubic_num(s, a, b, c, d) <= i64::MAX * 1000,
        i64::MIN <= cubic_num(s, a, b, c, d) / 1000 <= i64::MAX,
{
    let u = 10 - s;
    let lo = i64::MIN as int;
    let hi = i64::MAX as int;
    let k0 = u * u * u;
    let k1 = 3 * u * u * s;
    let k2 = 3 * u * s * s;
    let k3 = s * s * s;
    assert(k0 >= 0 && k1 >= 0 && k2 >= 0 && k3 >= 0) by (nonlinear_arith)
        requires 0 <= u, 0 <= s, k0 == u * u * u, k1 == 3 * u * u * s, k2 == 3 * u * s * s,
            k3 == s * s * s;
    assert(k0 + k1 + k2 + k3 == 1000) by (nonlinear_arith)
        requires u == 10 - s, k0 == u * u * u, k1 == 3 * u * u * s, k2 == 3 * u * s * s,
            k3 == s * s * s;
    assert(k0 * lo <= k0 * a <= k0 * hi) by (nonlinear_arith)
        requires k0 >= 0, lo <= a <= hi;
    assert(k1 * lo <= k1 * b <= k1 * hi) by (nonlinear_arith)
        requires k1 >= 0, lo <= b <= hi;
    assert(k2 * lo <= k2 * c <= k2 * hi) by (nonlinear_arith)
        requires k2 >= 0, lo <= c <= hi;
    assert(k3 * lo <= k3 * d <= k3 * hi) by (nonlinear_arith)
        requires k3 >= 0, lo <= d <= hi;
    assert(cubic_num(s, a, b, c, d) == k0 * a + k1 * b + k2 * c + k3 * d) by (nonlinear_arith)
        requires u == 10 - s, k0 == u * u * u, k1 == 3 * u * u * s, k2 == 3 * u * s * s,
            k3 == s * s * s;
    assert(k0 * lo + k1 * lo + k2 * lo + k3 * lo == 1000 * lo) by (nonlinear_arith)
        requires k0 + k1 + k2 + k3 == 1000;
    assert(k0 * hi + k1 * hi + k2 * hi + k3 * hi == 1000 * hi) by (nonlinear_arith)
        requires k0 + k1 + k2 + k3 == 1000;
    lemma_floor_in_hull(cubic_num(s, a, b, c, d), 1000, lo, hi);
}

/// `n / d` rounded towards negative infinity.
fn floor_div(n: i128, d: i128) -> (r: i128)
    requires
        d > 0,
    ensures
        r == n / d,
{
    if n >= 0 {
        n / d
    } else {
        let m = -(n + 1);
        let q = m / d;
        proof {
            assert(m == -n - 1);
            assert(q == m / d);
            assert(-q - 1 == n / d) by (nonlinear_arith)
                requires m >= 0, d > 0, q == m / d, m == -n - 1;
        }
        -q - 1
    }
}

fn quad_axis(step: u8, a: i64, b: i64, c: i64) -> (r: i64)
    requires
        step <= STEPS,
    ensures
        r == quad_num(step as int, a as int, b as int, c as int) / 100,
{
    let s = step as i128;
    let u = 10 - s;
    proof {
        lemma_quad_hull(s as int, a as int, b as int, c as int);
        assert(0 <= u * u <= 100 && 0 <= 2 * u * s <= 200 && 0 <= s * s <= 100 && 0 <= u * s <= 100) by (nonlinear_arith)
            requires 0 <= s <= 10, u == 10 - s;
    }
    let k0 = u * u;
    let k1 = 2 * u * s;
    let k2 = s * s;
    proof {
        assert(-200 * 0x8000_0000_0000_0000 <= k0 * (a as i128) <= 200 * 0x8000_0000_0000_0000) by (nonlinear_arith)
            requires 0 <= k0 <= 100, i64::MIN <= a <= i64::MAX;
        assert(-200 * 0x8000_0000_0000_0000 <= k1 * (b as i128) <= 200 * 0x8000_0000_0000_0000) by (nonlinear_arith)
            requires 0 <= k1 <= 200, i64::MIN <= b <= i64::MAX;
        assert(-200 * 0x8000_0000_0000_0000 <= k2 * (c as i128) <= 200 * 0x8000_0000_0000_0000) by (nonlinear_arith)
            requires 0 <= k2 <= 100, i64::MIN <= c <= i64::MAX;
    }
    let n = k0 * (a as i128) + k1 * (b as i128) + k2 * (c as i128);
    floor_div(n, 100) as i64
}

fn cubic_axis(step: u8, a: i64, b: i64, c: i64, d: i64) -> (r: i64)
    requires
        step <= STEPS,
    ensures
        r == cubic_num(step as int, a as int, b as int, c as int, d as int) / 1000,
{
    let s = step as i128;
    let u = 10 - s;
    proof {
        lemma_cubic_hull(s as int, a as int, b as int, c as int, d as int);
        assert(0 <= u * u <= 100 && 0 <= s * s <= 100 && 0 <= u * s <= 100 && 0 <= 3 * u * u
            <= 300 && 0 <= 3 * u * s <= 300) by (nonlinear_arith)
            requires 0 <= s <= 10, u == 10 - s;
        assert(0 <= u * u * u <= 1000 && 0 <= 3 * u * u * s <= 3000 && 0 <= 3 * u * s * s <= 3000
            && 0 <= s * s * s <= 1000) by (nonlinear_arith)
            requires 0 <= s <= 10, u == 10 - s;
    }
    let k0 = u * u * u;
    let k1 = 3 * u * u * s;
    let k2 = 3 * u * s * s;
    let k3 = s * s * s;
    proof {
        assert(-3000 * 0x8000_0000_0000_0000 <= k0 * (a as i128) <= 3000 * 0x8000_0000_0000_0000) by (nonlinear_arith)
            requires 0 <= k0 <= 1000, i64::MIN <= a <= i64::MAX;
        assert(-3000 * 0x8000_0000_0000_0000 <= k1 * (b as i128) <= 3000 * 0x8000_0000_0000_0000) by (nonlinear_arith)
            requires 0 <= k1 <= 3000, i64::MIN <= b <= i64::MAX;
        assert(-3000 * 0x8000_0000_0000_0000 <= k2 * (c as i128) <= 3000 * 0x8000_0000_0000_0000) by (nonlinear_arith)
            requires 0 <= k2 <= 3000, i64::MIN <= c <= i64::MAX;
        assert(-3000 * 0x8000_0000_0000_0000 <= k3 * (d as i128) <= 3000 * 0x8000_0000_0000_0000) by (nonlinear_arith)
            requires 0 <= k3 <= 1000, i64::MIN <= d <= i64::MAX;
    }
    let n = k0 * (a as i128) + k1 * (b as i128) + k2 * (c as i128) + k3 * (d as i128);
    floor_div(n, 1000) as i64
}

/// The quadratic Bezier curve `start, control, end` at `t = step / 10`,
/// `B(t) = (1-t)^2 start + 2(1-t)t control + t^2 end`, rounded down.
pub fn quadratic_bezier(step: u8, start: Vec2, control: Vec2, end: Vec2) -> (r: Vec2)
    requires
        step <= STEPS,
    ensures
        r == quad_point(step as int, start, control, end),
{
    Vec2 {
        x: quad_axis(step, start.x, control.x, end.x),
        y: quad_axis(step, start.y, control.y, end.y),
    }
}

/// The cubic Bezier curve `start, control_a, control_b, end` at
/// `t = step / 10`, `B(t) = (1-t)^3 start + 3(1-t)^2 t control_a + 3(1-t)t^2 control_b + t^3 end`,
/// rounded down.
pub fn cubic_bezier(step: u8, start: Vec2, control_a: Vec2, control_b: Vec2, end: Vec2) -> (r: Vec2)
    requires
        step <= STEPS,
    ensures
        r == cubic_point(step as int, start, control_a, control_b, end),
{
    Vec2 {
        x: cubic_axis(step, start.x, control_a.x, control_b.x, end.x),
        y: cubic_axis(step, start.y, control_a.y, control_b.y, end.y),
    }
}

/// Both flatteners start exactly at the start point (`t = 0`) and end
/// exactly at the end point (`t = 1`).
pub proof fn lemma_curve_endpoints(start: Vec2, ca: Vec2, cb: Vec2, end: Vec2)
    ensures
        quad_point(0, start, ca, end) == start,
        quad_point(10, start, ca, end) == end,
        cubic_point(0, start, ca, cb, end) == start,
        cubic_point(10, start, ca, cb, end) == end,
{
    lemma_endpoint_axis(start.x as int, ca.x as int, cb.x as int, end.x as int);
    lemma_endpoint_axis(start.y as int, ca.y as int, cb.y as int, end.y as int);
}

proof fn lemma_endpoint_axis(a: int, b: int, c: int, d: int)
    ensures
        quad_num(0, a, b, d) / 100 == a,
        quad_num(10, a, b, d) / 100 == d,
        cubic_num(0, a, b, c, d) / 1000 == a,
        cubic_num(10, a, b, c, d) / 1000 == d,
{
    assert((10 - 0) * (10 - 0) * a + 2 * (10 - 0) * 0 * b + 0 * 0 * d == 100 * a) by (nonlinear_arith);
    assert((10 - 10) * (10 - 10) * a + 2 * (10 - 10) * 10 * b + 10 * 10 * d == 100 * d) by (nonlinear_arith);
    assert((10 - 0) * (10 - 0) * (10 - 0) * a + 3 * (10 - 0) * (10 - 0) * 0 * b + 3 * (10 - 0) * 0
        * 0 * c + 0 * 0 * 0 * d == 1000 * a) by (nonlinear_arith);
    assert((10 - 10) * (10 - 10) * (10 - 10) * a + 3 * (10 - 10) * (10 - 10) * 10 * b + 3 * (10
        - 10) * 10 * 10 * c + 10 * 10 * 10 * d == 1000 * d) by (nonlinear_arith);
    assert((100 * a) / 100 == a && (100 * d) / 100 == d) by (nonlinear_arith);
    assert((1000 * a) / 1000 == a && (1000 * d) / 1000 == d) by (nonlinear_arith);
}

/// When the control point lies on the line through start and end, so does
/// every exact quadratic sample `quad_num / 100`, at each of the steps: the
/// scaled point `quad_num` sits on the line scaled by 100 about the start.
pub proof fn lemma_quadratic_exact_collinear(step: int, start: Vec2, control: Vec2, end: Vec2)
    requires
        0 <= step <= 10,
        cross(start, end, control) == 0,
    ensures
        ({
            let nx = quad_num(step, start.x as int, control.x as int, end.x as int);
            let ny = quad_num(step, start.y as int, control.y as int, end.y as int);
            (end.x - start.x) * (ny - 100 * start.y) - (end.y - start.y) * (nx - 100 * start.x) == 0
        }),
{
    let u = 10 - step;
    let (sx, sy, cx, cy, ex, ey) = (start.x as int, start.y as int, control.x as int,
        control.y as int, end.x as int, end.y as int);
    let nx = quad_num(step, sx, cx, ex);
    let ny = quad_num(step, sy, cy, ey);
    let k1 = 2 * u * step;
    let k2 = step * step;
    let dx = ex - sx;
    let dy = ey - sy;
    assert(nx - 100 * sx == k1 * (cx - sx) + k2 * dx) by (nonlinear_arith)
        requires u == 10 - step, nx == quad_num(step, sx, cx, ex), k1 == 2 * u * step, k2 == step
            * step, dx == ex - sx;
    assert(ny - 100 * sy == k1 * (cy - sy) + k2 * dy) by (nonlinear_arith)
        requires u == 10 - step, ny == quad_num(step, sy, cy, ey), k1 == 2 * u * step, k2 == step
            * step, dy == ey - sy;
    lemma_scale_sum3(dx, k1, cy - sy, 0, 0, k2, dy);
    lemma_scale_sum3(dy, k1, cx - sx, 0, 0, k2, dx);
    assert(dx * (cy - sy) == dy * (cx - sx));
}

/// When the control point lies on the line through start and end, every
/// quadratic sample lies on it too, wherever the sample needs no rounding.
pub proof fn lemma_quadratic_collinear(step: int, start: Vec2, control: Vec2, end: Vec2)
    requires
        0 <= step <= 10,
        cross(start, end, control) == 0,
        quad_num(step, start.x as int, control.x as int, end.x as int) % 100 == 0,
        quad_num(step, start.y as int, control.y as int, end.y as int) % 100 == 0,
    ensures
        cross(start, end, quad_point(step, start, control, end)) == 0,
{
    let (sx, sy) = (start.x as int, start.y as int);
    let nx = quad_num(step, sx, control.x as int, end.x as int);
    let ny = quad_num(step, sy, control.y as int, end.y as int);
    lemma_quad_hull(step, sx, control.x as int, end.x as int);
    lemma_quad_hull(step, sy, control.y as int, end.y as int);
    lemma_quadratic_exact_collinear(step, start, control, end);
    let (px, py) = (nx / 100, ny / 100);
    let (dx, dy) = (end.x - sx, end.y - sy);
    assert(nx == 100 * px && ny == 100 * py);
    assert(100 * (dx * (py - sy) - dy * (px - sx)) == dx * (ny - 100 * sy) - dy * (nx - 100 * sx))
        by (nonlinear_arith)
        requires nx == 100 * px, ny == 100 * py;
}

proof fn lemma_scale_sum3(d: int, k1: int, a: int, k2: int, b: int, k3: int, c: int)
    ensures
        d * (k1 * a + k2 * b + k3 * c) == k1 * (d * a) + k2 * (d * b) + k3 * (d * c),
{
    lemma_mul_is_distributive_add(d, k1 * a + k2 * b, k3 * c);
    lemma_mul_is_distributive_add(d, k1 * a, k2 * b);
    lemma_mul_is_associative(d, k1, a);
    lemma_mul_is_associative(k1, d, a);
    lemma_mul_is_commutative(d, k1);
    lemma_mul_is_associative(d, k2, b);
    lemma_mul_is_associative(k2, d, b);
    lemma_mul_is_commutative(d, k2);
    lemma_mul_is_associative(d, k3, c);
    lemma_mul_is_associative(k3, d, c);
    lemma_mul_is_commutative(d, k3);
}

/// When both control points lie on the line through start and end, so does
/// every exact cubic sample `cubic_num / 1000`, at each of the steps: the
/// scaled point `cubic_num` sits on the line scaled by 1000 about the start.
pub proof fn lemma_cubic_exact_collinear(step: int, start: Vec2, ca: Vec2, cb: Vec2, end: Vec2)
    requires
        0 <= step <= 10,
        cross(start, end, ca) == 0,
        cross(start, end, cb) == 0,
    ensures
        ({
            let nx = cubic_num(step, start.x as int, ca.x as int, cb.x as int, end.x as int);
            let ny = cubic_num(step, start.y as int, ca.y as int, cb.y as int, end.y as int);
            (end.x - start.x) * (ny - 1000 * start.y) - (end.y - start.y) * (nx - 1000 * start.x)
                == 0
        }),
{
    let u = 10 - step;
    let (sx, sy, ax, ay, bx, by, ex, ey) = (start.x as int, start.y as int, ca.x as int,
        ca.y as int, cb.x as int, cb.y as int, end.x as int, end.y as int);
    let nx = cubic_num(step, sx, ax, bx, ex);
    let ny = cubic_num(step, sy, ay, by, ey);
    let k1 = 3 * u * u * step;
    let k2 = 3 * u * step * step;
    let k3 = step * step * step;
    let dx = ex - sx;
    let dy = ey - sy;
    assert(nx - 1000 * sx == k1 * (ax - sx) + k2 * (bx - sx) + k3 * dx) by (nonlinear_arith)
        requires u == 10 - step, nx == cubic_num(step, sx, ax, bx, ex), k1 == 3 * u * u * step,
            k2 == 3 * u * step * step, k3 == step * step * step, dx == ex - sx;
    assert(ny - 1000 * sy == k1 * (ay - sy) + k2 * (by - sy) + k3 * dy) by (nonlinear_arith)
        requires u == 10 - step, ny == cubic_num(step, sy, ay, by, ey), k1 == 3 * u * u * step,
            k2 == 3 * u * step * step, k3 == step * step * step, dy == ey - sy;
    lemma_scale_sum3(dx, k1, ay - sy, k2, by - sy, k3, dy);
    lemma_scale_sum3(dy, k1, ax - sx, k2, bx - sx, k3, dx);
    assert(dx * (ay - sy) == dy * (ax - sx));
    assert(dx * (by - sy) == dy * (bx - sx));
}

/// When both control points lie on the line through start and end, every
/// cubic sample lies on it too, wherever the sample needs no rounding.
pub proof fn lemma_cubic_collinear(step: int, start: Vec2, ca: Vec2, cb: Vec2, end: Vec2)
    requires
        0 <= step <= 10,
        cross(start, end, ca) == 0,
        cross(start, end, cb) == 0,
        cubic_num(step, start.x as int, ca.x as int, cb.x as int, end.x as int) % 1000 == 0,
        cubic_num(step, start.y as int, ca.y as int, cb.y as int, end.y as int) % 1000 == 0,
    ensures
        cross(start, end, cubic_point(step, start, ca, cb, end)) == 0,
{
    let (sx, sy) = (start.x as int, start.y as int);
    let nx = cubic_num(step, sx, ca.x as int, cb.x as int, end.x as int);
    let ny = cubic_num(step, sy, ca.y as int, cb.y as int, end.y as int);
    lemma_cubic_hull(step, sx, ca.x as int, cb.x as int, end.x as int);
    lemma_cubic_hull(step, sy, ca.y as int, cb.y as int, end.y as int);
    lemma_cubic_exact_collinear(step, start, ca, cb, end);
    let (px, py) = (nx / 1000, ny / 1000);
    let (dx, dy) = (end.x - sx, end.y - sy);
    assert(nx == 1000 * px && ny == 1000 * py);
    assert(1000 * (dx * (py - sy) - dy * (px - sx)) == dx * (ny - 1000 * sy) - dy * (nx - 1000
        * sx)) by (nonlinear_arith)
        requires nx == 1000 * px, ny == 1000 * py;
}

} // verus!
