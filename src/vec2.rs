use vstd::prelude::*;

use crate::error::PathError;

verus! {

/// True when `v` can be stored in an `i64` coordinate.
pub open spec fn fits(v: int) -> bool {
    i64::MIN <= v <= i64::MAX
}

/// The magnitude of `a`.
pub open spec fn abs(a: int) -> int {
    if a < 0 {
        -a
    } else {
        a
    }
}

/// `a / b` rounded towards zero, as Rust's integer division does.
pub open spec fn trunc_div(a: int, b: int) -> int {
    if (a < 0) != (b < 0) {
        -(abs(a) / abs(b))
    } else {
        abs(a) / abs(b)
    }
}

/// The remainder of `trunc_div`: it takes the sign of `a`, as Rust's `%` does.
pub open spec fn trunc_rem(a: int, b: int) -> int {
    if a < 0 {
        -(abs(a) % abs(b))
    } else {
        abs(a) % abs(b)
    }
}

/// One component of a componentwise operation, or `None` where it is
/// undefined or leaves the `i64` range.
pub open spec fn in_range(v: int) -> Option<i64> {
    if fits(v) {
        Some(v as i64)
    } else {
        None
    }
}

/// Combines two optional components into a point.
pub open spec fn both(x: Option<i64>, y: Option<i64>) -> Option<Vec2> {
    match (x, y) {
        (Some(x), Some(y)) => Some(Vec2 { x, y }),
        _ => None,
    }
}

pub open spec fn diff_of(a: Vec2, b: Vec2) -> Option<Vec2> {
    both(in_range(a.x - b.x), in_range(a.y - b.y))
}

pub open spec fn prod_of(a: Vec2, b: Vec2) -> Option<Vec2> {
    both(in_range(a.x * b.x), in_range(a.y * b.y))
}

pub open spec fn quot_of(a: Vec2, b: Vec2) -> Option<Vec2> {
    if b.x == 0 || b.y == 0 {
        None
    } else {
        both(in_range(trunc_div(a.x as int, b.x as int)), in_range(trunc_div(a.y as int, b.y as int)))
    }
}

pub open spec fn rem_of(a: Vec2, b: Vec2) -> Option<Vec2> {
    if b.x == 0 || b.y == 0 {
        None
    } else {
        both(in_range(trunc_rem(a.x as int, b.x as int)), in_range(trunc_rem(a.y as int, b.y as int)))
    }
}

pub open spec fn sum_of(a: Vec2, b: Vec2) -> Option<Vec2> {
    both(in_range(a.x + b.x), in_range(a.y + b.y))
}

fn magnitude(a: i64) -> (r: u64)
    ensures
        r == abs(a as int),
{
    if a < 0 {
        (-(a as i128)) as u64
    } else {
        a as u64
    }
}

fn checked(v: i128) -> (r: Option<i64>)
    ensures
        r == in_range(v as int),
{
    if i64::MIN as i128 <= v && v <= i64::MAX as i128 {
        Some(v as i64)
    } else {
        None
    }
}

fn div_axis(a: i64, b: i64) -> (r: Option<i64>)
    requires
        b != 0,
    ensures
        r == in_range(trunc_div(a as int, b as int)),
{
    let q = (magnitude(a) / magnitude(b)) as i128;
    if (a < 0) != (b < 0) {
        checked(-q)
    } else {
        checked(q)
    }
}

fn rem_axis(a: i64, b: i64) -> (r: Option<i64>)
    requires
        b != 0,
    ensures
        r == in_range(trunc_rem(a as int, b as int)),
{
    let m = (magnitude(a) % magnitude(b)) as i128;
    if a < 0 {
        checked(-m)
    } else {
        checked(m)
    }
}

fn mul_axis(a: i64, b: i64) -> (r: Option<i64>)
    ensures
        r == in_range(a * b),
{
    let (x, y) = (a as i128, b as i128);
    assert(-0x4000_0000_0000_0000_0000_0000_0000_0000 <= x * y <= 0x4000_0000_0000_0000_0000_0000_0000_0000)
        by (nonlinear_arith)
        requires -0x8000_0000_0000_0000 <= x <= 0x7fff_ffff_ffff_ffff, -0x8000_0000_0000_0000 <= y
            <= 0x7fff_ffff_ffff_ffff;
    checked(x * y)
}

/// A point or offset in the plane, in integer drawing units.
#[derive(Debug, Clone, Copy, PartialEq, Eq, Structural)]
pub struct Vec2 {
    pub x: i64,
    pub y: i64,
}

impl Vec2 {
    /// Both components of `self + o` fit in an `i64`.
    pub open spec fn sum_fits(self, o: Vec2) -> bool {
        fits(self.x + o.x) && fits(self.y + o.y)
    }

    /// The componentwise sum, for use where it is known to fit.
    pub open spec fn plus(self, o: Vec2) -> Vec2 {
        Vec2 { x: (self.x + o.x) as i64, y: (self.y + o.y) as i64 }
    }

    pub fn splat(v: i64) -> (r: Vec2)
        ensures
            r.x == v,
            r.y == v,
    {
        Vec2 { x: v, y: v }
    }

    /// The origin of the plane.
    pub fn origin() -> (r: Vec2)
        ensures
            r == (Vec2 { x: 0, y: 0 }),
    {
        Vec2::splat(0)
    }

    /// Componentwise sum, or `None` when a component leaves the `i64` range.
    pub fn checked_add(self, rhs: Vec2) -> (r: Option<Vec2>)
        ensures
            r is Some <==> self.sum_fits(rhs),
            r is Some ==> r->0 == self.plus(rhs),
    {
        match (self.x.checked_add(rhs.x), self.y.checked_add(rhs.y)) {
            (Some(x), Some(y)) => Some(Vec2 { x, y }),
            _ => None,
        }
    }

    /// Componentwise difference; `None` when a component leaves the range.
    pub fn checked_sub(self, rhs: Vec2) -> (r: Option<Vec2>)
        ensures
            r == diff_of(self, rhs),
    {
        match (checked(self.x as i128 - rhs.x as i128), checked(self.y as i128 - rhs.y as i128)) {
            (Some(x), Some(y)) => Some(Vec2 { x, y }),
            _ => None,
        }
    }

    /// Componentwise product; `None` when a component leaves the range.
    pub fn checked_mul(self, rhs: Vec2) -> (r: Option<Vec2>)
        ensures
            r == prod_of(self, rhs),
    {
        match (mul_axis(self.x, rhs.x), mul_axis(self.y, rhs.y)) {
            (Some(x), Some(y)) => Some(Vec2 { x, y }),
            _ => None,
        }
    }

    /// Componentwise quotient, rounded towards zero; `None` for a zero
    /// divisor or a quotient out of range.
    pub fn checked_div(self, rhs: Vec2) -> (r: Option<Vec2>)
        ensures
            r == quot_of(self, rhs),
    {
        if rhs.x == 0 || rhs.y == 0 {
            return None;
        }
        match (div_axis(self.x, rhs.x), div_axis(self.y, rhs.y)) {
            (Some(x), Some(y)) => Some(Vec2 { x, y }),
            _ => None,
        }
    }

    /// Componentwise remainder of `checked_div`; `None` for a zero divisor.
    pub fn checked_rem(self, rhs: Vec2) -> (r: Option<Vec2>)
        ensures
            r == rem_of(self, rhs),
    {
        if rhs.x == 0 || rhs.y == 0 {
            return None;
        }
        match (rem_axis(self.x, rhs.x), rem_axis(self.y, rhs.y)) {
            (Some(x), Some(y)) => Some(Vec2 { x, y }),
            _ => None,
        }
    }

    /// Adds `s` to both components.
    pub fn add_scalar(self, s: i64) -> (r: Option<Vec2>)
        ensures
            r == sum_of(self, Vec2 { x: s, y: s }),
    {
        match self.checked_add(Vec2::splat(s)) {
            Some(v) => Some(v),
            None => None,
        }
    }

    /// Subtracts `s` from both components.
    pub fn sub_scalar(self, s: i64) -> (r: Option<Vec2>)
        ensures
            r == diff_of(self, Vec2 { x: s, y: s }),
    {
        self.checked_sub(Vec2::splat(s))
    }

    /// Multiplies both components by `s`.
    pub fn mul_scalar(self, s: i64) -> (r: Option<Vec2>)
        ensures
            r == prod_of(self, Vec2 { x: s, y: s }),
    {
        self.checked_mul(Vec2::splat(s))
    }

    /// Divides both components by `s`, rounding towards zero.
    pub fn div_scalar(self, s: i64) -> (r: Option<Vec2>)
        ensures
            r == quot_of(self, Vec2 { x: s, y: s }),
    {
        self.checked_div(Vec2::splat(s))
    }

    /// The remainders of `div_scalar`.
    pub fn rem_scalar(self, s: i64) -> (r: Option<Vec2>)
        ensures
            r == rem_of(self, Vec2 { x: s, y: s }),
    {
        self.checked_rem(Vec2::splat(s))
    }

    pub fn add_assign(&mut self, rhs: Vec2)
        requires
            old(self).sum_fits(rhs),
        ensures
            *final(self) == old(self).plus(rhs),
    {
        self.x = self.x + rhs.x;
        self.y = self.y + rhs.y;
    }

    /// Pairs a flat coordinate list `x0, y0, x1, y1, ...` into points.
    pub fn many_from_params(params: &Vec<i64>) -> (r: Result<Vec<Vec2>, PathError>)
        ensures
            r is Ok <==> params@.len() % 2 == 0,
            r is Err ==> r->Err_0 == PathError::MalformedParameters,
            r is Ok ==> r->Ok_0@ == pairs_of(params@),
    {
        if params.len() % 2 != 0 {
            return Err(PathError::MalformedParameters);
        }
        let mut out: Vec<Vec2> = Vec::new();
        let mut i: usize = 0;
        while i < params.len() / 2
            invariant
                params@.len() % 2 == 0,
                i <= params@.len() / 2,
                out@ =~= pairs_of(params@).take(i as int),
            decreases params@.len() / 2 - i,
        {
            out.push(Vec2 { x: params[2 * i], y: params[2 * i + 1] });
            i = i + 1;
            assert(out@ =~= pairs_of(params@).take(i as int));
        }
        assert(pairs_of(params@).take(i as int) =~= pairs_of(params@));
        Ok(out)
    }

    /// The single point of a coordinate list that holds exactly one pair.
    pub fn one_from_params(params: &Vec<i64>) -> (r: Result<Vec2, PathError>)
        ensures
            r is Ok <==> params@.len() == 2,
            r is Err ==> r->Err_0 == PathError::MalformedParameters,
            r is Ok ==> r->Ok_0 == (Vec2 { x: params@[0], y: params@[1] }),
    {
        let many = Vec2::many_from_params(params)?;
        if many.len() != 1 {
            return Err(PathError::MalformedParameters);
        }
        Ok(many[0])
    }
}

/// The points `(c[0], c[1]), (c[2], c[3]), ...` of a flat coordinate list.
pub open spec fn pairs_of(c: Seq<i64>) -> Seq<Vec2> {
    Seq::new((c.len() / 2) as nat, |i: int| Vec2 { x: c[2 * i], y: c[2 * i + 1] })
}

} // verus!
