//! IEEE-754 binary64 numbers as their bit patterns.
//!
//! The ledger stores every value as the eight bytes of a binary64 number. This
//! module converts between such bit patterns and whole numbers with integer
//! arithmetic alone.
use vstd::prelude::*;
use vstd::arithmetic::div_mod::{
    lemma_basic_div, lemma_div_multiples_vanish, lemma_fundamental_div_mod,
    lemma_fundamental_div_mod_converse, lemma_small_mod,
};
use vstd::arithmetic::mul::{lemma_mul_inequality, lemma_mul_is_commutative};
use vstd::arithmetic::power2::{
    lemma2_to64, lemma2_to64_rest, lemma_pow2_adds, lemma_pow2_pos, lemma_pow2_strictly_increases,
    lemma_pow2_unfold, pow2,
};

verus! {

/// The position of the highest set bit of a number, and zero for zero.
pub open spec fn floor_log2(a: nat) -> nat
    decreases a,
{
    if a < 2 {
        0
    } else {
        1 + floor_log2(a / 2)
    }
}

/// `a` divided by two to the power `s`, rounded to the nearest whole number,
/// and to the even one of two that are equally near.
pub open spec fn rounded_shift(a: nat, s: nat) -> nat {
    let d = pow2(s);
    let q = a / d;
    let r = a % d;
    if 2 * r > d || (2 * r == d && q % 2 == 1) {
        q + 1
    } else {
        q
    }
}

/// The bit pattern of the binary64 number nearest to a whole number below two
/// to the power 64, ties going to the even significand.
pub open spec fn binary64_of_nat(a: nat) -> nat {
    if a == 0 {
        0
    } else {
        let k = floor_log2(a);
        let significand = if k <= 52 {
            a * pow2((52 - k) as nat)
        } else {
            rounded_shift(a, (k - 52) as nat)
        };
        ((1022 + k) * pow2(52) + significand) as nat
    }
}

/// The sign bit of a bit pattern.
pub open spec fn sign_of(bits: u64) -> nat {
    bits as nat / pow2(63)
}

/// The eleven exponent bits of a bit pattern.
pub open spec fn exponent_of(bits: u64) -> nat {
    (bits as nat / pow2(52)) % 2048
}

/// The 52 fraction bits of a bit pattern.
pub open spec fn fraction_of(bits: u64) -> nat {
    bits as nat % pow2(52)
}

/// `num` times two to the power `ex`, rounded down to a whole number.
pub open spec fn scaled_floor(num: int, ex: int) -> int {
    if ex >= 0 {
        num * pow2(ex as nat)
    } else {
        num / (pow2((-ex) as nat) as int)
    }
}

/// The largest whole number that is not above the number that a bit pattern
/// stands for; `None` for the infinities and for what is not a number.
pub open spec fn binary64_floor(bits: u64) -> Option<int> {
    let e = exponent_of(bits);
    let m = fraction_of(bits);
    if e == 2047 {
        None
    } else {
        let significand: int = if e == 0 {
            m as int
        } else {
            (pow2(52) + m) as int
        };
        let ex: int = if e == 0 {
            -1074
        } else {
            e - 1075
        };
        let num = if sign_of(bits) == 1 {
            -significand
        } else {
            significand
        };
        Some(scaled_floor(num, ex))
    }
}

/// The floor of the number as a signed 64-bit number: the nearest bound where
/// the floor lies outside the range, and zero for what is not a number.
pub open spec fn binary64_to_i64(bits: u64) -> i64 {
    match binary64_floor(bits) {
        Some(v) => if v > i64::MAX {
            i64::MAX
        } else if v < i64::MIN {
            i64::MIN
        } else {
            v as i64
        },
        None => if fraction_of(bits) != 0 {
            0
        } else if sign_of(bits) == 1 {
            i64::MIN
        } else {
            i64::MAX
        },
    }
}

/// Two to the power `n`.
pub fn pow2_u64(n: u64) -> (p: u64)
    requires
        n <= 63,
    ensures
        p == pow2(n as nat),
{
    let mut p: u64 = 1;
    let mut i: u64 = 0;
    proof {
        lemma2_to64();
    }
    while i < n
        invariant
            i <= n <= 63,
            p == pow2(i as nat),
        decreases n - i,
    {
        proof {
            lemma2_to64_rest();
            lemma_pow2_unfold((i + 1) as nat);
            if i + 1 < 63 {
                lemma_pow2_strictly_increases((i + 1) as nat, 63);
            }
        }
        p = p * 2;
        i = i + 1;
    }
    p
}

/// A number with its highest set bit at `k` lies between two to the power `k`
/// and twice that.
pub proof fn lemma_floor_log2_bounds(a: nat)
    requires
        a > 0,
    ensures
        pow2(floor_log2(a)) <= a < 2 * pow2(floor_log2(a)),
    decreases a,
{
    lemma2_to64();
    if a >= 2 {
        lemma_floor_log2_bounds(a / 2);
        lemma_pow2_unfold(floor_log2(a));
    }
}

/// A number below two to the power `n` has its highest set bit below `n`.
pub proof fn lemma_floor_log2_below(a: nat, n: nat)
    requires
        0 < a < pow2(n),
    ensures
        floor_log2(a) < n,
{
    lemma_floor_log2_bounds(a);
    if floor_log2(a) > n {
        lemma_pow2_strictly_increases(n, floor_log2(a));
    }
}

/// The position of the highest set bit of a number that is not zero.
pub fn highest_bit(a: u64) -> (k: u64)
    requires
        a > 0,
    ensures
        k == floor_log2(a as nat),
        k <= 63,
{
    let mut k: u64 = 0;
    let mut top: u64 = a;
    proof {
        lemma2_to64();
        lemma_floor_log2_below(a as nat, 64);
    }
    while top >= 2
        invariant
            top >= 1,
            floor_log2(a as nat) == k + floor_log2(top as nat),
            k + floor_log2(top as nat) <= 63,
        decreases top,
    {
        top = top / 2;
        k = k + 1;
    }
    k
}

/// The bit pattern of the binary64 number nearest to `a`; of two that are
/// equally near, the one with the even significand.
pub fn binary64_from_u64(a: u64) -> (bits: u64)
    ensures
        bits == binary64_of_nat(a as nat),
{
    if a == 0 {
        return 0;
    }
    let k: u64 = highest_bit(a);
    proof {
        lemma2_to64();
        lemma2_to64_rest();
        lemma_floor_log2_bounds(a as nat);
    }
    let significand: u64 = if k <= 52 {
        let scale: u64 = pow2_u64(52 - k);
        proof {
            lemma_pow2_adds(k as nat, (52 - k) as nat);
            lemma_mul_is_commutative(a as int, scale as int);
            lemma_mul_inequality(a as int, 2 * pow2(k as nat) - 1, scale as int);
            assert((2 * pow2(k as nat) - 1) * scale == 2 * (pow2(k as nat) * scale) - scale)
                by (nonlinear_arith);
            lemma_pow2_pos((52 - k) as nat);
        }
        a * scale
    } else {
        let d: u64 = pow2_u64(k - 52);
        let q: u64 = a / d;
        let r: u64 = a % d;
        proof {
            lemma_pow2_adds((k - 52) as nat, 53);
            lemma_pow2_strictly_increases((k - 52) as nat, 12);
            lemma_fundamental_div_mod(a as int, d as int);
            assert(q < pow2(53)) by (nonlinear_arith)
                requires
                    a == d * q + r,
                    0 <= r,
                    d > 0,
                    a < 2 * pow2(k as nat),
                    2 * pow2(k as nat) == d * pow2(53),
            ;
        }
        if 2 * r > d || (2 * r == d && q % 2 == 1) {
            q + 1
        } else {
            q
        }
    };
    proof {
        assert(significand <= pow2(53));
    }
    (1022 + k) * 0x10_0000_0000_0000 + significand
}

/// The quotient of a negated number by a positive divisor, rounded down.
pub proof fn lemma_negated_floor_div(s: int, d: int)
    requires
        0 <= s,
        0 < d,
    ensures
        (-s) / d == if s % d == 0 {
            -(s / d)
        } else {
            -(s / d) - 1
        },
{
    lemma_fundamental_div_mod(s, d);
    let q = s / d;
    let r = s % d;
    if r == 0 {
        assert(-s == (-q) * d + 0) by (nonlinear_arith)
            requires
                s == d * q + r,
                r == 0,
        ;
        lemma_fundamental_div_mod_converse(-s, d, -q, 0);
    } else {
        assert(-s == (-q - 1) * d + (d - r)) by (nonlinear_arith)
            requires
                s == d * q + r,
        ;
        lemma_fundamental_div_mod_converse(-s, d, -q - 1, d - r);
    }
}

/// The floor of the number that a bit pattern stands for, as a signed 64-bit
/// number: the nearest bound where the floor lies outside the range, and zero
/// for what is not a number.
pub fn binary64_floor_to_i64(bits: u64) -> (v: i64)
    ensures
        v == binary64_to_i64(bits),
{
    let sign: u64 = bits / 0x8000_0000_0000_0000;
    let e: u64 = (bits / 0x10_0000_0000_0000) % 2048;
    let m: u64 = bits % 0x10_0000_0000_0000;
    proof {
        lemma2_to64();
        lemma2_to64_rest();
    }
    if e == 2047 {
        return if m != 0 {
            0
        } else if sign == 1 {
            i64::MIN
        } else {
            i64::MAX
        };
    }
    let negative: bool = sign == 1;
    let significand: u64 = if e == 0 {
        m
    } else {
        0x10_0000_0000_0000 + m
    };
    if e >= 1075 {
        let up: u64 = e - 1075;
        if up >= 11 {
            proof {
                if up > 11 {
                    lemma_pow2_strictly_increases(11, up as nat);
                }
                lemma_mul_inequality(pow2(11) as int, pow2(up as nat) as int, significand as int);
                lemma_mul_is_commutative(pow2(up as nat) as int, significand as int);
                lemma_mul_is_commutative(pow2(11) as int, significand as int);
                assert((-(significand as int)) * pow2(up as nat) == -(significand * pow2(
                    up as nat,
                ))) by (nonlinear_arith);
            }
            return if negative {
                i64::MIN
            } else {
                i64::MAX
            };
        }
        let scale: u64 = pow2_u64(up);
        proof {
            if up < 10 {
                lemma_pow2_strictly_increases(up as nat, 10);
            }
            lemma_mul_inequality(scale as int, 1024, significand as int);
            lemma_mul_is_commutative(scale as int, significand as int);
            assert((-(significand as int)) * scale == -(significand * scale)) by (nonlinear_arith);
        }
        let magnitude: u64 = significand * scale;
        return if negative {
            -(magnitude as i64)
        } else {
            magnitude as i64
        };
    }
    let down: u64 = if e == 0 {
        1074
    } else {
        1075 - e
    };
    if down >= 53 {
        proof {
            let big = pow2(down as nat) as int;
            if down > 53 {
                lemma_pow2_strictly_increases(53, down as nat);
            }
            lemma_basic_div(significand as int, big);
            lemma_small_mod(significand as nat, big as nat);
            lemma_negated_floor_div(significand as int, big);
        }
        return if negative && significand != 0 {
            -1
        } else {
            0
        };
    }
    let d: u64 = pow2_u64(down);
    let q: u64 = significand / d;
    let r: u64 = significand % d;
    proof {
        lemma_negated_floor_div(significand as int, d as int);
    }
    if negative {
        if r == 0 {
            -(q as i64)
        } else {
            -(q as i64) - 1
        }
    } else {
        q as i64
    }
}

/// A whole number below two to the power 53 is stored exactly: the floor of
/// its binary64 number is the number itself.
pub proof fn lemma_binary64_exact(a: u64)
    requires
        a < pow2(53),
    ensures
        binary64_of_nat(a as nat) < pow2(63),
        binary64_floor(binary64_of_nat(a as nat) as u64) == Some(a as int),
        binary64_to_i64(binary64_of_nat(a as nat) as u64) == a,
{
    lemma2_to64();
    lemma2_to64_rest();
    if a == 0 {
        lemma_pow2_pos(1074);
        lemma_basic_div(0, pow2(1074) as int);
    } else {
        let k = floor_log2(a as nat);
        lemma_floor_log2_below(a as nat, 53);
        lemma_floor_log2_bounds(a as nat);
        let scale = pow2((52 - k) as nat);
        let sig = a * scale;
        lemma_pow2_adds(k, (52 - k) as nat);
        lemma_pow2_pos((52 - k) as nat);
        assert(pow2(52) <= sig < pow2(53)) by (nonlinear_arith)
            requires
                pow2(k) <= a < 2 * pow2(k),
                pow2(52) == pow2(k) * scale,
                pow2(53) == 2 * pow2(52),
                sig == a * scale,
                scale > 0,
        ;
        let bits = binary64_of_nat(a as nat);
        assert(bits == (1023 + k) * pow2(52) + (sig - pow2(52))) by (nonlinear_arith)
            requires
                bits == (1022 + k) * pow2(52) + sig,
        ;
        lemma_fundamental_div_mod_converse(
            bits as int,
            pow2(52) as int,
            (1023 + k) as int,
            sig - pow2(52),
        );
        assert(bits < pow2(63));
        lemma_basic_div(bits as int, pow2(63) as int);
        assert(exponent_of(bits as u64) == 1023 + k);
        assert(fraction_of(bits as u64) == sig - pow2(52));
        if k == 52 {
            assert(sig * pow2(0) == a) by (nonlinear_arith)
                requires
                    sig == a * scale,
                    scale == 1,
                    pow2(0) == 1,
            ;
        } else {
            lemma_div_multiples_vanish(a as int, scale as int);
            lemma_mul_is_commutative(a as int, scale as int);
        }
    }
}

} // verus!
