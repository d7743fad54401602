//! Byte counts for people to read.

use crate::number::{self, write_uint};
use vstd::arithmetic::div_mod::lemma_fundamental_div_mod;
use vstd::prelude::*;
use vstd::string::*;

verus! {

/// `a / b` rounded to the nearest integer, and halfway between two integers
/// to the even one.
pub open spec fn rounded_quotient(a: nat, b: nat) -> nat
    recommends
        b > 0,
{
    let q = a / b;
    let r = a % b;
    if 2 * r < b || (2 * r == b && q % 2 == 0) {
        q
    } else {
        q + 1
    }
}

/// The distance between neighbouring double-precision numbers about `n`, from
/// 2^53 on: what it takes to count `n` in 53 bits.
pub open spec fn double_step(n: nat) -> nat
    decreases n,
{
    if n < 0x20_0000_0000_0000 {
        1
    } else {
        2 * double_step(n / 2)
    }
}

/// The double-precision number nearest to `n`.
pub open spec fn as_double(n: nat) -> nat {
    rounded_quotient(n, double_step(n)) * double_step(n)
}

/// `h` hundredths, with two decimals.
pub open spec fn two_decimals(h: nat) -> Seq<char> {
    number::decimal(h / 100) + "."@ + number::decimal(h / 10 % 10) + number::decimal(h % 10)
}

/// `n` counted in `unit`s, with two decimals.
pub open spec fn in_units(n: nat, unit: nat) -> Seq<char> {
    two_decimals(rounded_quotient(100 * as_double(n), unit))
}

/// `n` bytes, counted in the largest of bytes, KiB, MiB and GiB that there is
/// one of.
pub open spec fn human(n: nat) -> Seq<char> {
    if n >= 0x4000_0000 {
        in_units(n, 0x4000_0000) + " GiB"@
    } else if n >= 0x10_0000 {
        in_units(n, 0x10_0000) + " MiB"@
    } else if n >= 0x400 {
        in_units(n, 0x400) + " KiB"@
    } else {
        number::decimal(n) + " B"@
    }
}

fn round_quotient(a: u128, b: u128) -> (q: u128)
    requires
        0 < b <= 0x4000_0000,
        a < 0x1000_0000_0000_0000_0000,
    ensures
        q == rounded_quotient(a as nat, b as nat),
{
    let q = a / b;
    let r = a % b;
    if 2 * r < b || (2 * r == b && q % 2 == 0) {
        q
    } else {
        q + 1
    }
}

fn nearest_double(n: u64) -> (d: u128)
    ensures
        d == as_double(n as nat),
        d < 0x2_0000_0000_0000_0000,
{
    let mut m: u64 = n;
    let mut step: u64 = 1;
    while m >= 0x20_0000_0000_0000
        invariant
            double_step(n as nat) == step * double_step(m as nat),
            m * step <= n,
            0 < step <= 0x1000,
        decreases m,
    {
        assert(step <= 0x800) by (nonlinear_arith)
            requires
                m * step <= n,
                m >= 0x20_0000_0000_0000,
                n <= 0xffff_ffff_ffff_ffff,
        ;
        let ghost s = double_step((m / 2) as nat);
        assert(step * (2 * s) == (step * 2) * s) by (nonlinear_arith);
        assert((m / 2) * (step * 2) <= m * step) by (nonlinear_arith)
            requires
                m >= 0,
                step >= 0,
        ;
        m = m / 2;
        step = step * 2;
    }
    let ghost one = double_step(m as nat);
    assert(step * one == step) by (nonlinear_arith)
        requires
            one == 1,
    ;
    let q = round_quotient(n as u128, step as u128);
    proof {
        lemma_fundamental_div_mod(n as int, step as int);
        let whole = n as nat / step as nat;
        assert(whole * step <= n) by (nonlinear_arith)
            requires
                n == step * whole + n as nat % step as nat,
        ;
        assert(q * step <= n + step) by (nonlinear_arith)
            requires
                q <= whole + 1,
                whole * step <= n,
        ;
    }
    q * (step as u128)
}

fn write_units(n: u64, unit: u128) -> (s: String)
    requires
        0 < unit <= 0x4000_0000,
    ensures
        s@ == in_units(n as nat, unit as nat),
{
    let h = round_quotient(100 * nearest_double(n), unit);
    let mut s = write_uint(h / 100);
    s.append(".");
    s.append(write_uint(h / 10 % 10).as_str());
    s.append(write_uint(h % 10).as_str());
    s
}

/// Writes `n` bytes for people to read.
pub fn human_bytes(n: u64) -> (s: String)
    ensures
        s@ == human(n as nat),
{
    if n >= 0x4000_0000 {
        let mut s = write_units(n, 0x4000_0000);
        s.append(" GiB");
        s
    } else if n >= 0x10_0000 {
        let mut s = write_units(n, 0x10_0000);
        s.append(" MiB");
        s
    } else if n >= 0x400 {
        let mut s = write_units(n, 0x400);
        s.append(" KiB");
        s
    } else {
        let mut s = write_uint(n as u128);
        s.append(" B");
        s
    }
}

} // verus!
