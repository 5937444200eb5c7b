//! Masses of the scene and their Schwarzschild radii.

use vstd::prelude::*;
use vstd::arithmetic::div_mod::lemma_fundamental_div_mod_converse;

verus! {

/// The gravitational constant is `G_NUM * 10^-16` in SI units.
pub const G_NUM: u128 = 667430;

/// Speed of light, metres per second.
pub const C: u128 = 299792458;

/// `2 G / c^2 == RS_NUM / RS_DEN` exactly, in metres per kilogram.
pub const RS_NUM: u128 = 66743;

pub const RS_DEN: u128 = 44937758936840882000000000000000;

/// Mass of the black hole, kilograms.
pub const BH_MASS: u128 = 8540000000000000000000000000000000000;

/// Largest coordinate magnitude, in metres, of a body or of a queried point.
pub const WORLD_LIMIT: i64 = 0x4_0000_0000_0000;

/// Schwarzschild radius `2 G m / c^2`, in whole metres, rounded up so that
/// every positive mass has a horizon.
pub open spec fn rs_of(mass: nat) -> nat {
    ((RS_NUM as int * mass + RS_DEN as int - 1) / (RS_DEN as int)) as nat
}

/// A positive mass has a positive Schwarzschild radius.
pub proof fn lemma_positive_mass_has_horizon(mass: nat)
    requires
        mass > 0,
    ensures
        rs_of(mass) > 0,
{
    let x: int = RS_NUM as int * mass + RS_DEN as int - 1;
    assert(x >= RS_DEN) by (nonlinear_arith)
        requires
            x == RS_NUM as int * mass + RS_DEN as int - 1,
            mass >= 1,
    ;
    vstd::arithmetic::div_mod::lemma_div_is_ordered(RS_DEN as int, x, RS_DEN as int);
    vstd::arithmetic::div_mod::lemma_div_basics(RS_DEN as int);
}

/// `RS_NUM / RS_DEN` is `2 G / c^2`.
pub proof fn lemma_rs_fraction()
    ensures
        RS_NUM * 10000000000000000 * C * C == 2 * G_NUM * RS_DEN,
{
}

/// Schwarzschild radius of `mass` kilograms, in whole metres.
pub fn schwarzschild_radius(mass: u128) -> (r: u64)
    ensures
        r as nat == rs_of(mass as nat),
        r < 0x100_0000_0000,
{
    let q: u128 = mass / RS_DEN;
    let m: u128 = mass % RS_DEN;
    assert(q <= 10000000) by (nonlinear_arith)
        requires
            q == mass / RS_DEN,
            mass <= u128::MAX,
    ;
    assert(m * RS_NUM < 0x1_0000_0000_0000_0000_0000_0000_0000_0000int) by (nonlinear_arith)
        requires
            m < RS_DEN,
    ;
    let hi: u128 = q * RS_NUM;
    let lo: u128 = m * RS_NUM / RS_DEN;
    proof {
        let x: int = RS_NUM as int * mass as int;
        let qq: int = hi as int + lo as int;
        let rr: int = (m as int * RS_NUM as int) % (RS_DEN as int);
        assert(mass == q * RS_DEN + m);
        assert(m * RS_NUM == lo * RS_DEN + rr);
        assert(x == qq * RS_DEN + rr) by (nonlinear_arith)
            requires
                x == RS_NUM * mass,
                mass == q * RS_DEN + m,
                m * RS_NUM == lo * RS_DEN + rr,
                hi == q * RS_NUM,
                qq == hi + lo,
        ;
        assert(lo <= RS_NUM);
        if rr == 0 {
            lemma_fundamental_div_mod_converse(x + RS_DEN - 1, RS_DEN as int, qq, RS_DEN - 1);
        } else {
            lemma_fundamental_div_mod_converse(x + RS_DEN - 1, RS_DEN as int, qq + 1, rr - 1);
        }
    }
    if (m * RS_NUM) % RS_DEN == 0 {
        (hi + lo) as u64
    } else {
        (hi + lo + 1) as u64
    }
}

} // verus!
