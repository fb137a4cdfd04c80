//! Integer arithmetic as Rust's `i32` operators define it.
use vstd::prelude::*;

verus! {

/// Whether an exact result lies outside `i32`.
pub open spec fn out_of_i32(x: int) -> bool {
    x < i32::MIN || x > i32::MAX
}

pub open spec fn abs_int(x: int) -> int {
    if x < 0 {
        -x
    } else {
        x
    }
}

/// Division rounding toward zero.
pub open spec fn trunc_div(a: int, b: int) -> int {
    if (a < 0) == (b < 0) {
        abs_int(a) / abs_int(b)
    } else {
        -(abs_int(a) / abs_int(b))
    }
}

/// The remainder of `trunc_div`: the sign of `a`, the size of `|a| mod |b|`.
pub open spec fn trunc_rem(a: int, b: int) -> int {
    if a < 0 {
        -(abs_int(a) % abs_int(b))
    } else {
        abs_int(a) % abs_int(b)
    }
}

/// `a / b` rounded toward zero, as Rust's `/` on `i32` gives it.
pub fn div_i32(a: i32, b: i32) -> (r: i32)
    requires
        b != 0,
        !(a == i32::MIN && b == -1),
    ensures
        r == trunc_div(a as int, b as int),
{
    let aa: u64 = if a < 0 {
        (-(a as i64)) as u64
    } else {
        a as u64
    };
    let bb: u64 = if b < 0 {
        (-(b as i64)) as u64
    } else {
        b as u64
    };
    let q: u64 = aa / bb;
    proof {
        assert(q <= aa) by (nonlinear_arith)
            requires
                bb >= 1,
                q == aa / bb,
        ;
        if (a < 0) == (b < 0) && q > i32::MAX {
            assert(q * bb <= aa) by (nonlinear_arith)
                requires
                    bb >= 1,
                    q == aa / bb,
            ;
            if bb >= 2 {
                assert(q * bb >= q * 2) by (nonlinear_arith)
                    requires
                        bb >= 2,
                ;
            }
        }
    }
    if (a < 0) == (b < 0) {
        q as i32
    } else {
        (-(q as i64)) as i32
    }
}

/// The remainder of `a / b` with the sign of `a`, as Rust's `%` on `i32`
/// gives it.
pub fn rem_i32(a: i32, b: i32) -> (r: i32)
    requires
        b != 0,
        !(a == i32::MIN && b == -1),
    ensures
        r == trunc_rem(a as int, b as int),
{
    let aa: u64 = if a < 0 {
        (-(a as i64)) as u64
    } else {
        a as u64
    };
    let bb: u64 = if b < 0 {
        (-(b as i64)) as u64
    } else {
        b as u64
    };
    let m: u64 = aa % bb;
    proof {
        assert(m < bb && m <= aa) by (nonlinear_arith)
            requires
                bb >= 1,
                m == aa % bb,
        ;
    }
    if a < 0 {
        (-(m as i64)) as i32
    } else {
        m as i32
    }
}

} // verus!
