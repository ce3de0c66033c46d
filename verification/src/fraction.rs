//! Fractions of a sample count.
//!
//! A fraction is given as a real number in the 64-bit binary interchange
//! format of IEEE 754 (one sign bit, eleven exponent bits, fifty-two fraction
//! bits). The share that it takes of a sample count is computed in integer
//! arithmetic, with the roundings that the format prescribes: the count and
//! the product are each rounded to 53 significant bits, ties to even, and the
//! product is then rounded to the nearest whole number, ties away from zero.

use vstd::prelude::*;
use vstd::arithmetic::power2::{pow2, lemma_pow2_pos, lemma_pow2_unfold, lemma_pow2_adds,
    lemma_pow2_strictly_increases, lemma2_to64, lemma2_to64_rest};

verus! {

/// The encoding of the number one.
pub const ONE_BITS: u64 = 0x3FF0_0000_0000_0000;

/// Two to the power 52: the weight of the implicit leading bit of a significand.
pub const HIDDEN_BIT: u64 = 0x10_0000_0000_0000;

/// Two to the power 53: significands lie below it.
pub const SIGNIFICAND_LIMIT: u128 = 0x20_0000_0000_0000;

/// The largest scale: that of the subnormal numbers.
pub const MAX_SCALE: u32 = 1074;

/// The number of bits that `x` has beyond the 53 of a significand.
pub open spec fn excess_bits(x: nat) -> nat
    decreases x,
{
    if x < SIGNIFICAND_LIMIT {
        0
    } else {
        1 + excess_bits(x / 2)
    }
}

/// `x` rounded to 53 significant bits: the nearest multiple of two to the
/// power `excess_bits(x)`, and of two such multiples equally near, the one
/// whose quotient is even.
pub open spec fn round_to_significand(x: nat) -> nat {
    let d = pow2(excess_bits(x));
    let q = x / d;
    let r = x % d;
    if 2 * r > d || (2 * r == d && q % 2 == 1) {
        (q + 1) * d
    } else {
        q * d
    }
}

/// `x / d` rounded to the nearest whole number, a half being rounded up.
pub open spec fn round_half_up(x: nat, d: nat) -> nat {
    (2 * x + d) / (2 * d)
}

/// The significand of a number strictly between 0 and 1 with encoding `bits`.
pub open spec fn significand_of(bits: u64) -> nat {
    if bits < HIDDEN_BIT {
        bits as nat
    } else {
        (HIDDEN_BIT + bits % HIDDEN_BIT) as nat
    }
}

/// The scale of a number strictly between 0 and 1 with encoding `bits`: the
/// number is `significand_of(bits)` divided by two to the power `scale_of(bits)`.
pub open spec fn scale_of(bits: u64) -> nat {
    if bits < HIDDEN_BIT {
        MAX_SCALE as nat
    } else {
        (1075 - bits / HIDDEN_BIT) as nat
    }
}

/// The share that the number with encoding `bits` takes of `n`, as a whole
/// number: `n` is rounded to a significand, multiplied by the number, the
/// product rounded to a significand and then to the nearest whole number.
pub open spec fn share(n: nat, bits: u64) -> nat {
    round_half_up(
        round_to_significand(round_to_significand(n) * significand_of(bits)),
        pow2(scale_of(bits)),
    )
}

/// A real number in the 64-bit binary interchange format, meant as a
/// fraction of a whole.
#[derive(Clone, Copy, Debug, PartialEq, Eq, Structural)]
pub struct Fraction {
    bits: u64,
}

impl Fraction {
    /// The encoding of the number.
    pub closed spec fn spec_bits(&self) -> u64 {
        self.bits
    }

    /// The number is strictly between 0 and 1: its sign bit is clear, it is
    /// not zero, and it is below one. No infinity and no NaN is.
    pub open spec fn is_proper(&self) -> bool {
        0 < self.spec_bits() < ONE_BITS
    }

    /// The fraction with the given encoding.
    pub fn from_bits(bits: u64) -> (fraction: Self)
        ensures
            fraction.spec_bits() == bits,
    {
        Fraction { bits }
    }

    /// The encoding of the number.
    pub fn to_bits(&self) -> (bits: u64)
        ensures
            bits == self.spec_bits(),
    {
        self.bits
    }

    /// Whether the number is strictly between 0 and 1.
    pub fn is_between_zero_and_one(&self) -> (proper: bool)
        ensures
            proper == self.is_proper(),
    {
        0 < self.bits && self.bits < ONE_BITS
    }

    /// The share that the fraction takes of `n`, rounded to a whole number.
    pub fn share_of(&self, n: usize) -> (count: usize)
        requires
            self.is_proper(),
        ensures
            count == share(n as nat, self.spec_bits()),
            count <= n,
    {
        let bits: u64 = self.bits;
        let significand: u64 = if bits < HIDDEN_BIT {
            bits
        } else {
            HIDDEN_BIT + bits % HIDDEN_BIT
        };
        let scale: u32 = if bits < HIDDEN_BIT {
            MAX_SCALE
        } else {
            (1075 - bits / HIDDEN_BIT) as u32
        };
        let n_rounded: u128 = round_to_significand_exec(n as u128);
        assert(n_rounded * significand < 0x40_0000_0000_0000_0000_0000_0000_0000) by (nonlinear_arith)
            requires
                n_rounded <= 2 * 0x1_0000_0000_0000_0000,
                significand < 0x20_0000_0000_0000,
        ;
        let product: u128 = round_to_significand_exec(n_rounded * (significand as u128));
        assert(product < 0x80_0000_0000_0000_0000_0000_0000_0000);
        proof {
            lemma_share_at_most(n as nat, bits);
        }
        if scale >= 120 {
            proof {
                lemma2_to64();
                lemma2_to64_rest();
                lemma_pow2_adds(60, 60);
                assert(pow2(120) == 0x100_0000_0000_0000_0000_0000_0000_0000);
                if scale > 120 {
                    lemma_pow2_strictly_increases(120, scale as nat);
                }
                let d = pow2(scale as nat) as int;
                let x = 2 * product + d;
                assert(x < 2 * d);
                assert(x / (2 * d) == 0) by (nonlinear_arith)
                    requires
                        0 <= x < 2 * d,
                ;
            }
            0
        } else {
            let d: u128 = pow2_exec(scale);
            proof {
                lemma2_to64();
                lemma2_to64_rest();
                lemma_pow2_adds(60, 60);
                assert(pow2(120) == 0x100_0000_0000_0000_0000_0000_0000_0000);
                lemma_pow2_strictly_increases(scale as nat, 120);
                lemma_pow2_pos(scale as nat);
            }
            let count: u128 = (2 * product + d) / (2 * d);
            count as usize
        }
    }
}

/// Two to the power `e`.
fn pow2_exec(e: u32) -> (p: u128)
    requires
        e < 127,
    ensures
        p == pow2(e as nat),
{
    let mut p: u128 = 1;
    let mut i: u32 = 0;
    proof {
        lemma2_to64();
    }
    while i < e
        invariant
            0 <= i <= e < 127,
            p == pow2(i as nat),
        decreases e - i,
    {
        proof {
            lemma_pow2_unfold((i + 1) as nat);
            lemma2_to64();
            lemma2_to64_rest();
            lemma_pow2_adds(63, 63);
            if i + 1 < 126 {
                lemma_pow2_strictly_increases((i + 1) as nat, 126);
            }
        }
        p = p * 2;
        i = i + 1;
    }
    p
}

/// `x` rounded to 53 significant bits, ties to even.
fn round_to_significand_exec(x: u128) -> (rounded: u128)
    requires
        x < 0x8000_0000_0000_0000_0000_0000_0000_0000,
    ensures
        rounded == round_to_significand(x as nat),
        rounded <= 2 * x,
{
    let mut q: u128 = x;
    let mut d: u128 = 1;
    let ghost mut s: nat = 0;
    proof {
        lemma2_to64();
    }
    while q >= SIGNIFICAND_LIMIT
        invariant
            x < 0x8000_0000_0000_0000_0000_0000_0000_0000,
            d == pow2(s),
            d >= 1,
            q == x / d,
            q * d <= x,
            excess_bits(x as nat) == s + excess_bits(q as nat),
        decreases q,
    {
        proof {
            lemma_pow2_unfold(s + 1);
            let xi = x as int;
            let di = d as int;
            assert((xi / di) / 2 == xi / (di * 2)) by (nonlinear_arith)
                requires
                    di >= 1,
                    xi >= 0,
            ;
            assert(di * 2 <= xi) by (nonlinear_arith)
                requires
                    q * di <= xi,
                    q >= 2,
                    di >= 1,
            ;
            assert((xi / (di * 2)) * (di * 2) <= xi) by (nonlinear_arith)
                requires
                    di >= 1,
                    xi >= 0,
            ;
        }
        q = q / 2;
        d = d * 2;
        proof {
            s = s + 1;
        }
    }
    assert(x % d == x - q * d && x % d < d) by (nonlinear_arith)
        requires
            q == x / d,
            d >= 1,
    ;
    let r: u128 = x - q * d;
    let up: bool = 2 * r > d || (2 * r == d && q % 2 == 1);
    if up {
        assert((q + 1) * d == q * d + d && (q + 1) * d <= 2 * x) by (nonlinear_arith)
            requires
                q * d <= x,
                r == x - q * d,
                2 * r >= d,
                d >= 1,
        ;
        (q + 1) * d
    } else {
        q * d
    }
}

/// Dividing `x` by two to the power `excess_bits(x)` leaves a significand,
/// and one with its leading bit set if `x` is no significand itself.
pub proof fn lemma_excess_bits_quotient(x: nat)
    ensures
        pow2(excess_bits(x)) >= 1,
        x / pow2(excess_bits(x)) < SIGNIFICAND_LIMIT,
        x >= SIGNIFICAND_LIMIT ==> excess_bits(x) >= 1 && x / pow2(excess_bits(x)) >= HIDDEN_BIT,
    decreases x,
{
    lemma2_to64();
    if x >= SIGNIFICAND_LIMIT {
        let half = x / 2;
        let e = excess_bits(half);
        lemma_excess_bits_quotient(half);
        lemma_pow2_unfold(e + 1);
        let d = pow2(e) as int;
        let xi = x as int;
        assert((xi / 2) / d == xi / (2 * d)) by (nonlinear_arith)
            requires
                d >= 1,
                xi >= 0,
        ;
    }
}

/// The only exponent that leaves a significand with its leading bit set is
/// `excess_bits(x)`.
pub proof fn lemma_excess_bits_unique(x: nat, e: nat)
    requires
        HIDDEN_BIT <= x / pow2(e) < SIGNIFICAND_LIMIT,
    ensures
        excess_bits(x) == e,
    decreases e,
{
    lemma2_to64();
    if e > 0 {
        lemma_pow2_unfold(e);
        lemma_pow2_pos((e - 1) as nat);
        let d = pow2((e - 1) as nat) as int;
        let xi = x as int;
        assert((xi / 2) / d == xi / (2 * d)) by (nonlinear_arith)
            requires
                d >= 1,
                xi >= 0,
        ;
        assert(xi >= 0x20_0000_0000_0000) by (nonlinear_arith)
            requires
                xi / (2 * d) >= 0x10_0000_0000_0000,
                d >= 1,
                xi >= 0,
        ;
        assert((x / 2) / pow2((e - 1) as nat) == x / pow2(e));
        lemma_excess_bits_unique(x / 2, (e - 1) as nat);
    } else {
        assert(x / pow2(0) == x);
    }
}

/// Rounding to a significand never passes a number that is a significand
/// times a power of two.
pub proof fn lemma_round_at_most_representable(x: nat, a: nat, b: nat)
    requires
        x <= a * pow2(b),
        a <= SIGNIFICAND_LIMIT,
    ensures
        round_to_significand(x) <= a * pow2(b),
{
    lemma2_to64();
    lemma_excess_bits_quotient(x);
    let s = excess_bits(x);
    let d = pow2(s) as int;
    let xi = x as int;
    let q = xi / d;
    let r = xi % d;
    let y = (a * pow2(b)) as int;
    assert(xi == q * d + r && 0 <= r < d) by (nonlinear_arith)
        requires
            q == xi / d,
            r == xi % d,
            d >= 1,
            xi >= 0,
    ;
    if round_to_significand(x) != q * d {
        assert(round_to_significand(x) == (q + 1) * d);
        assert(r > 0);
        if x < SIGNIFICAND_LIMIT {
            assert(d == 1);
            assert(false);
        }
        assert(q >= HIDDEN_BIT);
        if b >= s {
            lemma_pow2_adds((b - s) as nat, s);
            let c = (a * pow2((b - s) as nat)) as int;
            assert(y == c * d) by (nonlinear_arith)
                requires
                    y == a * pow2(b),
                    pow2(b) == pow2((b - s) as nat) * d,
                    c == a * pow2((b - s) as nat),
            ;
            assert((q + 1) * d <= c * d) by (nonlinear_arith)
                requires
                    q * d < c * d,
                    d >= 1,
            ;
        } else {
            if b + 1 < s {
                lemma_pow2_strictly_increases(b + 1, s);
            }
            lemma_pow2_unfold(b + 1);
            let pb = pow2(b) as int;
            assert(y <= q * d) by (nonlinear_arith)
                requires
                    y == a * pb,
                    a <= 0x20_0000_0000_0000,
                    2 * pb <= d,
                    q >= 0x10_0000_0000_0000,
                    pb >= 0,
            ;
            assert(false);
        }
    }
}

/// A significand is not changed by rounding to a significand.
pub proof fn lemma_round_keeps_significand(x: nat)
    requires
        x < SIGNIFICAND_LIMIT,
    ensures
        round_to_significand(x) == x,
{
    lemma2_to64();
    assert(excess_bits(x) == 0);
    assert(x / 1 == x && x % 1 == 0 && x * 1 == x);
}

/// Where the product of the count and the significand is a significand
/// itself, nothing is lost before the last rounding: the share is the exact
/// product of the count and the fraction, rounded to the nearest whole
/// number, a half being rounded up.
pub proof fn lemma_share_of_exact_product(n: nat, bits: u64)
    requires
        0 < bits < ONE_BITS,
        n * significand_of(bits) < SIGNIFICAND_LIMIT,
    ensures
        share(n, bits) == round_half_up(n * significand_of(bits), pow2(scale_of(bits))),
{
    lemma2_to64();
    let m = significand_of(bits);
    assert(n < SIGNIFICAND_LIMIT) by (nonlinear_arith)
        requires
            n * m < SIGNIFICAND_LIMIT,
            m >= 1,
    ;
    lemma_round_keeps_significand(n);
    lemma_round_keeps_significand(n * m);
}

/// The share of a fraction strictly between 0 and 1 is at most the whole.
pub proof fn lemma_share_at_most(n: nat, bits: u64)
    requires
        0 < bits < ONE_BITS,
    ensures
        share(n, bits) <= n,
{
    lemma2_to64();
    lemma2_to64_rest();
    let m = significand_of(bits) as int;
    let k = scale_of(bits);
    let p = pow2(k) as int;
    assert(53 <= k <= 1074);
    assert(m < 0x20_0000_0000_0000);
    if k > 53 {
        lemma_pow2_strictly_increases(53, k);
    }
    assert(m < p);
    lemma_excess_bits_quotient(n);
    let s = excess_bits(n);
    let d = pow2(s) as int;
    let ni = n as int;
    let q = ni / d;
    let r = ni % d;
    assert(ni == q * d + r && 0 <= r < d && q >= 0) by (nonlinear_arith)
        requires
            q == ni / d,
            r == ni % d,
            d >= 1,
            ni >= 0,
    ;
    let nf = round_to_significand(n) as int;
    let x = (round_to_significand(n) * significand_of(bits)) as int;
    assert(x == nf * m);
    let rounded = round_to_significand(x as nat) as int;
    // the rounded product is at most `n` times two to the power of the scale
    assert(rounded <= ni * p) by {
        if nf == q * d {
            lemma_pow2_adds(s, k);
            let big = pow2(s + k) as int;
            assert(x <= q * big && q * big <= ni * p) by (nonlinear_arith)
                requires
                    x == (q * d) * m,
                    big == d * p,
                    0 <= m < p,
                    q >= 0,
                    d >= 1,
                    ni == q * d + r,
                    r >= 0,
            ;
            lemma_round_at_most_representable(x as nat, q as nat, s + k);
        } else {
            assert(nf == (q + 1) * d);
            assert(2 * r >= d);
            assert(n >= SIGNIFICAND_LIMIT) by {
                if n < SIGNIFICAND_LIMIT {
                    assert(d == 1);
                }
            }
            assert(q >= 0x10_0000_0000_0000);
            if k >= 54 {
                let k_less = (k - 1) as nat;
                lemma_pow2_unfold(k);
                if k_less > 53 {
                    lemma_pow2_strictly_increases(53, k_less);
                }
                let p_half = pow2(k_less) as int;
                lemma_pow2_adds(s, k_less);
                let big = pow2(s + k_less) as int;
                assert(x <= (q + 1) * big && (q + 1) * big <= ni * p) by (nonlinear_arith)
                    requires
                        x == ((q + 1) * d) * m,
                        big == d * p_half,
                        p == 2 * p_half,
                        0 <= m <= p_half,
                        q >= 1,
                        d >= 1,
                        ni == q * d + r,
                        r >= 0,
                ;
                lemma_round_at_most_representable(x as nat, (q + 1) as nat, s + k_less);
            } else {
                assert(k == 53);
                assert(p == 0x20_0000_0000_0000);
                lemma_pow2_adds(s, 53);
                let big = pow2(s + 53) as int;
                assert(big == d * p);
                assert(q * big <= ni * p) by (nonlinear_arith)
                    requires
                        big == d * p,
                        ni == q * d + r,
                        r >= 0,
                        p >= 0,
                        q >= 0,
                ;
                if x <= q * big {
                    lemma_round_at_most_representable(x as nat, q as nat, s + 53);
                } else {
                    assert(x < (q + 1) * big && 2 * (x - q * big) < big) by (nonlinear_arith)
                        requires
                            x == ((q + 1) * d) * m,
                            big == d * 0x20_0000_0000_0000,
                            0 <= m <= 0x20_0000_0000_0000 - 1,
                            q >= 0x10_0000_0000_0000,
                            d >= 1,
                    ;
                    let rem = x - q * big;
                    assert(x / big == q && x % big == rem) by (nonlinear_arith)
                        requires
                            x == q * big + rem,
                            0 <= rem < big,
                    ;
                    lemma_excess_bits_unique(x as nat, s + 53);
                    assert(rounded == q * big);
                }
            }
        }
    }
    assert((2 * rounded + p) / (2 * p) <= ni) by (nonlinear_arith)
        requires
            0 <= rounded <= ni * p,
            p >= 1,
            ni >= 0,
    ;
}

} // verus!
