//! Arithmetic on thousandths: integer square roots and the growth of a backoff.
use vstd::prelude::*;

verus! {

/// The largest backoff whose third power, in thousandths, fits 128 bits: the
/// power three halves of a larger one does not fit `u64`.
const RAISE_BOUND: u64 = 69_814_636_583_315;

/// `r` is the square root of `n`, rounded down.
pub open spec fn is_floor_sqrt(n: nat, r: nat) -> bool {
    r * r <= n && n < (r + 1) * (r + 1)
}

/// The square root of `n`, rounded down.
pub open spec fn floor_sqrt(n: nat) -> nat {
    choose|r: nat| is_floor_sqrt(n, r)
}

/// Squaring keeps the order of natural numbers.
pub proof fn lemma_square_le(a: nat, b: nat)
    requires
        a <= b,
    ensures
        a * a <= b * b,
{
    assert(a * a <= b * b) by (nonlinear_arith)
        requires
            a <= b,
    ;
}

/// A number has one rounded-down square root, and `floor_sqrt` is it.
pub proof fn lemma_floor_sqrt(n: nat, r: nat)
    requires
        is_floor_sqrt(n, r),
    ensures
        floor_sqrt(n) == r,
{
    let s = floor_sqrt(n);
    assert(is_floor_sqrt(n, s));
    if s < r {
        lemma_square_le(s + 1, r);
    } else if r < s {
        lemma_square_le(r + 1, s);
    }
}

/// Every number has a rounded-down square root.
pub proof fn lemma_floor_sqrt_exists(n: nat)
    ensures
        is_floor_sqrt(n, floor_sqrt(n)),
    decreases n,
{
    if n == 0 {
        assert(is_floor_sqrt(0, 0)) by (nonlinear_arith);
    } else {
        lemma_floor_sqrt_exists((n - 1) as nat);
        let r = floor_sqrt((n - 1) as nat);
        if n < (r + 1) * (r + 1) {
            assert(is_floor_sqrt(n, r));
        } else {
            assert((r + 1) * (r + 1) == n);
            assert(n < (r + 2) * (r + 2)) by (nonlinear_arith)
                requires
                    (r + 1) * (r + 1) == n,
            ;
            assert(is_floor_sqrt(n, r + 1));
        }
    }
}

/// The root of a number that is at least a square is at least that square's root.
pub proof fn lemma_floor_sqrt_at_least(n: nat, b: nat)
    requires
        b * b <= n,
    ensures
        b <= floor_sqrt(n),
{
    lemma_floor_sqrt_exists(n);
    let r = floor_sqrt(n);
    if r < b {
        lemma_square_le(r + 1, b);
    }
}

/// The square root of `n`, rounded down.
pub fn isqrt(n: u128) -> (r: u64)
    ensures
        r == floor_sqrt(n as nat),
{
    let mut lo: u128 = 0;
    let mut hi: u128 = 0x1_0000_0000_0000_0000;
    assert(n < hi * hi) by (nonlinear_arith)
        requires
            hi == 0x1_0000_0000_0000_0000,
            n <= u128::MAX,
    ;
    while hi - lo > 1
        invariant
            lo < hi <= 0x1_0000_0000_0000_0000,
            lo * lo <= n,
            n < hi * hi,
        decreases hi - lo,
    {
        let mid: u128 = lo + (hi - lo) / 2;
        assert(mid * mid <= 0xFFFF_FFFF_FFFF_FFFF * 0xFFFF_FFFF_FFFF_FFFF) by (nonlinear_arith)
            requires
                mid <= 0xFFFF_FFFF_FFFF_FFFF,
        ;
        if mid * mid <= n {
            lo = mid;
        } else {
            hi = mid;
        }
    }
    proof {
        assert(is_floor_sqrt(n as nat, lo as nat));
        lemma_floor_sqrt(n as nat, lo as nat);
    }
    lo as u64
}

/// A backoff of `b` thousandths raised to the power three halves, rounded
/// down to thousandths; `u64::MAX` where the power does not fit `u64`.
pub open spec fn raised(b: nat) -> nat {
    let root = floor_sqrt(b * b * b / 1000);
    if root < u64::MAX {
        root
    } else {
        u64::MAX as nat
    }
}

/// Raises a backoff to the power three halves.
pub fn raise(b: u64) -> (r: u64)
    ensures
        r == raised(b as nat),
{
    if b > RAISE_BOUND {
        proof {
            let n = b as nat;
            assert(n * n * n >= 69_814_636_583_316 * 69_814_636_583_316 * 69_814_636_583_316)
                by (nonlinear_arith)
                requires
                    n >= 69_814_636_583_316,
            ;
            assert(69_814_636_583_316int * 69_814_636_583_316 * 69_814_636_583_316
                == 340282366920944445091406173694601699698496int) by (nonlinear_arith);
            assert(0xFFFF_FFFF_FFFF_FFFFnat * 0xFFFF_FFFF_FFFF_FFFF
                == 340282366920938463426481119284349108225nat) by (nonlinear_arith);
            lemma_floor_sqrt_at_least(n * n * n / 1000, 0xFFFF_FFFF_FFFF_FFFF);
        }
        u64::MAX
    } else {
        let wide: u128 = b as u128;
        assert(wide * wide <= 69_814_636_583_315 * 69_814_636_583_315) by (nonlinear_arith)
            requires
                wide <= 69_814_636_583_315,
        ;
        assert(69_814_636_583_315int * 69_814_636_583_315 == 4874083481260345136936389225int)
            by (nonlinear_arith);
        let square: u128 = wide * wide;
        let thousands: u128 = square / 1000;
        let rest: u128 = square % 1000;
        proof {
            assert(wide * wide * wide == 1000 * (thousands * wide) + rest * wide)
                by (nonlinear_arith)
                requires
                    wide * wide == 1000 * thousands + rest,
            ;
            assert(wide * wide * wide <= 69_814_636_583_315 * 69_814_636_583_315
                * 69_814_636_583_315) by (nonlinear_arith)
                requires
                    wide <= 69_814_636_583_315,
            ;
            assert(69_814_636_583_315int * 69_814_636_583_315 * 69_814_636_583_315
                == 340282366920929822840962392449746980780875int) by (nonlinear_arith);
            assert(0 <= rest * wide <= 999 * 69_814_636_583_315) by (nonlinear_arith)
                requires
                    0 <= rest <= 999,
                    0 <= wide <= 69_814_636_583_315,
            ;
            assert(0 <= thousands * wide) by (nonlinear_arith)
                requires
                    0 <= thousands,
                    0 <= wide,
            ;
        }
        let cube_thousandth: u128 = thousands * wide + rest * wide / 1000;
        assert(cube_thousandth == (b as nat) * (b as nat) * (b as nat) / 1000);
        isqrt(cube_thousandth)
    }
}

/// The delay before the next probe of a peer, in milliseconds: the shortest
/// delay times the peer's backoff raised to the power three halves, and not
/// more than the longest delay.
pub open spec fn probe_delay(min_delay: nat, max_delay: nat, backoff: nat) -> nat {
    let stretched = min_delay * raised(backoff) / 1000;
    if stretched < max_delay {
        stretched
    } else {
        max_delay
    }
}

/// Computes the delay before the next probe of a peer.
pub fn delay_for(min_delay: u64, max_delay: u64, backoff: u64) -> (delay: u64)
    ensures
        delay == probe_delay(min_delay as nat, max_delay as nat, backoff as nat),
{
    let wide_delay: u128 = min_delay as u128;
    let wide_power: u128 = raise(backoff) as u128;
    assert(wide_delay * wide_power <= 0xFFFF_FFFF_FFFF_FFFF * 0xFFFF_FFFF_FFFF_FFFF)
        by (nonlinear_arith)
        requires
            wide_delay <= 0xFFFF_FFFF_FFFF_FFFF,
            wide_power <= 0xFFFF_FFFF_FFFF_FFFF,
    ;
    let stretched: u128 = wide_delay * wide_power / 1000;
    if stretched < max_delay as u128 {
        stretched as u64
    } else {
        max_delay
    }
}

} // verus!
