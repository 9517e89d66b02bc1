//! Slashing penalties and how they compound.
//!
//! A penalty is the fraction of a delegation pool that is forfeited, as a
//! fixed-point number with eight decimal places: `PENALTY_SCALE` is the whole
//! pool and 0 is no discount. Two penalties compound by multiplying the
//! fractions they leave over, rounded down to the fixed-point grid.

use vstd::prelude::*;

verus! {

/// The fixed-point representation of 1: eight decimal places.
pub const PENALTY_SCALE: u64 = 100_000_000;

/// A slashing penalty: the hundred-millionths of a delegation pool that are
/// forfeited.
#[derive(Clone, Copy, Debug, PartialEq, Eq, Structural)]
pub struct Penalty(pub u64);

/// The fraction that a penalty of `p` leaves over, on the same scale.
pub open spec fn kept(p: int) -> int {
    PENALTY_SCALE - p
}

/// The penalty that leaves over the rounded-down product of what `first` and
/// `second` leave over.
pub open spec fn compounded(first: int, second: int) -> int {
    PENALTY_SCALE - (kept(first) * kept(second)) / (PENALTY_SCALE as int)
}

impl Penalty {
    /// A penalty forfeits at most the whole pool.
    pub open spec fn wf(self) -> bool {
        self.0 <= PENALTY_SCALE
    }

    /// This penalty compounded with another one.
    pub open spec fn spec_compound(self, other: Penalty) -> Penalty {
        Penalty(compounded(self.0 as int, other.0 as int) as u64)
    }

    /// The penalty with the given number of hundred-millionths, if that is
    /// no more than the whole.
    pub fn new(hundred_millionths: u64) -> (r: Option<Penalty>)
        ensures
            r == if hundred_millionths <= PENALTY_SCALE {
                Some(Penalty(hundred_millionths))
            } else {
                None
            },
    {
        if hundred_millionths <= PENALTY_SCALE {
            Some(Penalty(hundred_millionths))
        } else {
            None
        }
    }

    /// The penalty that takes nothing.
    pub fn identity() -> (r: Penalty)
        ensures
            r == Penalty(0),
            r.wf(),
    {
        Penalty(0)
    }

    /// Compounds this penalty with another one.
    pub fn compound(&self, other: Penalty) -> (r: Penalty)
        requires
            self.wf(),
            other.wf(),
        ensures
            r == self.spec_compound(other),
            r.0 == compounded(self.0 as int, other.0 as int),
            r.wf(),
    {
        let one: u128 = 100_000_000;
        let a: u128 = one - self.0 as u128;
        let b: u128 = one - other.0 as u128;
        proof {
            lemma_kept_product_bounds(a as int, b as int);
        }
        let product: u128 = a * b;
        let left: u128 = product / one;
        Penalty((one - left) as u64)
    }
}

impl Default for Penalty {
    fn default() -> (r: Penalty)
        ensures
            r == Penalty(0),
    {
        Penalty(0)
    }
}

/// The product of two kept fractions stays on the scale after rounding.
pub proof fn lemma_kept_product_bounds(a: int, b: int)
    requires
        0 <= a <= PENALTY_SCALE,
        0 <= b <= PENALTY_SCALE,
    ensures
        0 <= a * b <= PENALTY_SCALE * PENALTY_SCALE,
        0 <= (a * b) / (PENALTY_SCALE as int) <= a,
        (a * b) / (PENALTY_SCALE as int) <= b,
{
    assert(0 <= a * b <= 100_000_000 * a && a * b <= 100_000_000 * b) by (nonlinear_arith)
        requires
            0 <= a <= 100_000_000,
            0 <= b <= 100_000_000,
    ;
}

/// Compounding keeps a penalty valid and never makes it smaller than either
/// of the two it was made from.
pub proof fn lemma_compound_bounds(first: Penalty, second: Penalty)
    requires
        first.wf(),
        second.wf(),
    ensures
        first.spec_compound(second).wf(),
        first.spec_compound(second).0 == compounded(first.0 as int, second.0 as int),
        first.spec_compound(second).0 >= first.0,
        first.spec_compound(second).0 >= second.0,
{
    lemma_kept_product_bounds(kept(first.0 as int), kept(second.0 as int));
}

/// The penalty that takes nothing is the identity of compounding, on either
/// side.
pub proof fn lemma_compound_identity(p: Penalty)
    requires
        p.wf(),
    ensures
        Penalty(0).spec_compound(p) == p,
        p.spec_compound(Penalty(0)) == p,
{
    let k = kept(p.0 as int);
    assert(kept(0) * k == 100_000_000 * k);
    assert(k * kept(0) == 100_000_000 * k) by (nonlinear_arith)
        requires
            kept(0) == 100_000_000,
    ;
}

/// Compounding does not depend on the order of the two penalties.
pub proof fn lemma_compound_commutative(first: Penalty, second: Penalty)
    ensures
        first.spec_compound(second) == second.spec_compound(first),
{
    assert(kept(first.0 as int) * kept(second.0 as int) == kept(second.0 as int) * kept(first.0 as int))
        by (nonlinear_arith);
}

/// Rounding down after every step loses less than one unit twice: the kept
/// fraction of a threefold compound, whichever way it was grouped, is the
/// rounded-down exact product or one less.
proof fn lemma_threefold_window(ka: int, kb: int, kc: int)
    requires
        0 <= ka <= 100_000_000,
        0 <= kb <= 100_000_000,
        0 <= kc <= 100_000_000,
    ensures
        ({
            let whole = ((ka * kb) * kc) / 10_000_000_000_000_000;
            let grouped = (((ka * kb) / 100_000_000) * kc) / 100_000_000;
            whole - 1 <= grouped <= whole
        }),
{
    let product = ka * kb;
    let rounded = product / 100_000_000;
    let m = rounded * kc;
    let grouped = m / 100_000_000;
    let x = product * kc;
    assert(0 <= product) by (nonlinear_arith)
        requires
            0 <= ka,
            0 <= kb,
            product == ka * kb,
    ;
    assert(100_000_000 * rounded <= product <= 100_000_000 * rounded + 99_999_999);
    assert(0 <= rounded);
    assert(100_000_000 * m <= x <= 100_000_000 * m + 99_999_999 * kc) by (nonlinear_arith)
        requires
            100_000_000 * rounded <= product <= 100_000_000 * rounded + 99_999_999,
            0 <= kc,
            m == rounded * kc,
            x == product * kc,
    ;
    assert(0 <= m) by (nonlinear_arith)
        requires
            0 <= rounded,
            0 <= kc,
            m == rounded * kc,
    ;
    assert(100_000_000 * grouped <= m <= 100_000_000 * grouped + 99_999_999);
    assert(10_000_000_000_000_000 * grouped <= x);
    assert(x < 10_000_000_000_000_000 * grouped + 20_000_000_000_000_000);
    let whole = x / 10_000_000_000_000_000;
    assert(10_000_000_000_000_000 * whole <= x < 10_000_000_000_000_000 * whole
        + 10_000_000_000_000_000);
}

/// Compounding three penalties gives the same result either way it is
/// grouped, up to one unit in the last place. (With rounding after every
/// step the two groupings can differ by that unit.)
pub proof fn lemma_compound_associative_within_one(first: Penalty, second: Penalty, third: Penalty)
    requires
        first.wf(),
        second.wf(),
        third.wf(),
    ensures
        ({
            let left = first.spec_compound(second).spec_compound(third).0 as int;
            let right = first.spec_compound(second.spec_compound(third)).0 as int;
            left - 1 <= right <= left + 1
        }),
{
    let ka = kept(first.0 as int);
    let kb = kept(second.0 as int);
    let kc = kept(third.0 as int);
    lemma_compound_bounds(first, second);
    lemma_compound_bounds(second, third);
    lemma_compound_bounds(first.spec_compound(second), third);
    lemma_compound_bounds(first, second.spec_compound(third));
    lemma_kept_product_bounds(ka, kb);
    lemma_kept_product_bounds(kb, kc);
    lemma_threefold_window(ka, kb, kc);
    lemma_threefold_window(kc, kb, ka);
    assert((ka * kb) * kc == (kc * kb) * ka) by (nonlinear_arith);
    assert(kb * kc == kc * kb) by (nonlinear_arith);
    let inner = (kc * kb) / 100_000_000;
    assert(ka * inner == inner * ka) by (nonlinear_arith);
}

/// Compounding is associative wherever the inner compounds round nothing
/// away: where the product of the kept fractions of `first` and `second`,
/// and that of `second` and `third`, are whole multiples of the scale.
pub proof fn lemma_compound_associative_when_exact(first: Penalty, second: Penalty, third: Penalty)
    requires
        first.wf(),
        second.wf(),
        third.wf(),
        (kept(first.0 as int) * kept(second.0 as int)) % (PENALTY_SCALE as int) == 0,
        (kept(second.0 as int) * kept(third.0 as int)) % (PENALTY_SCALE as int) == 0,
    ensures
        first.spec_compound(second).spec_compound(third) == first.spec_compound(
            second.spec_compound(third),
        ),
{
    let s = PENALTY_SCALE as int;
    let ka = kept(first.0 as int);
    let kb = kept(second.0 as int);
    let kc = kept(third.0 as int);
    lemma_compound_bounds(first, second);
    lemma_compound_bounds(second, third);
    lemma_kept_product_bounds(ka, kb);
    lemma_kept_product_bounds(kb, kc);
    let left = (ka * kb) / s;
    let right = (kb * kc) / s;
    assert(left * s == ka * kb);
    assert(right * s == kb * kc);
    assert(left * kc == ka * right) by (nonlinear_arith)
        requires
            left * s == ka * kb,
            right * s == kb * kc,
            s == 100_000_000,
    ;
}

/// Compounding is associative wherever one of the three penalties takes
/// nothing.
pub proof fn lemma_compound_associative_with_identity(
    first: Penalty,
    second: Penalty,
    third: Penalty,
)
    requires
        first.wf(),
        second.wf(),
        third.wf(),
        first == Penalty(0) || second == Penalty(0) || third == Penalty(0),
    ensures
        first.spec_compound(second).spec_compound(third) == first.spec_compound(
            second.spec_compound(third),
        ),
{
    lemma_compound_bounds(first, second);
    lemma_compound_bounds(second, third);
    lemma_compound_identity(first);
    lemma_compound_identity(second);
    lemma_compound_identity(third);
    lemma_compound_identity(first.spec_compound(second));
    lemma_compound_identity(second.spec_compound(third));
}

} // verus!
