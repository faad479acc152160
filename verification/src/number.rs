//! Doubles as their bits.

use vstd::arithmetic::power2::pow2;
use vstd::prelude::*;

verus! {

/// Two to the power of 52: one more than the largest mantissa.
pub const MANTISSA_SPAN: u64 = 0x10_0000_0000_0000;

/// The largest exponent; infinities and what is no number have it.
pub const MAX_EXPONENT: u64 = 2047;

/// Two to the power of 63: the bit that holds the sign.
pub const SIGN_SPAN: u64 = 0x8000_0000_0000_0000;

/// The exponent whose numbers have a mantissa that counts units.
pub const UNIT_EXPONENT: u64 = 1075;

/// The exponent of the number one.
pub const ONE_EXPONENT: u64 = 1023;

/// The exponent in these bits.
pub open spec fn exponent_of(bits: u64) -> int {
    (bits / MANTISSA_SPAN) as int % (MAX_EXPONENT + 1)
}

/// The significand of a normal number with these bits: its mantissa with the
/// implied leading bit.
pub open spec fn significand_of(bits: u64) -> int {
    MANTISSA_SPAN + bits % MANTISSA_SPAN
}

/// These are the bits of a double that is neither infinite nor no number at all.
pub open spec fn finite(bits: u64) -> bool {
    exponent_of(bits) != MAX_EXPONENT
}

/// The magnitude of the double with these bits, if that is an integer.
pub open spec fn magnitude_of(bits: u64) -> Option<nat> {
    let e = exponent_of(bits);
    let s = significand_of(bits);
    if e == 0 && s == MANTISSA_SPAN {
        Some(0)
    } else if e < ONE_EXPONENT || e == MAX_EXPONENT {
        None
    } else if e >= UNIT_EXPONENT {
        Some((s * pow2((e - UNIT_EXPONENT) as nat)) as nat)
    } else if s % (pow2((UNIT_EXPONENT - e) as nat) as int) == 0 {
        Some((s / (pow2((UNIT_EXPONENT - e) as nat) as int)) as nat)
    } else {
        None
    }
}

/// The integer that the double with these bits is, if it is one.
pub open spec fn integer_of(bits: u64) -> Option<int> {
    match magnitude_of(bits) {
        Some(n) => Some(
            if bits < SIGN_SPAN {
                n as int
            } else {
                -(n as int)
            },
        ),
        None => None,
    }
}

/// Is the double with these bits neither infinite nor no number at all?
pub fn is_finite(bits: u64) -> (yes: bool)
    ensures
        yes == finite(bits),
{
    (bits / MANTISSA_SPAN) % (MAX_EXPONENT + 1) != MAX_EXPONENT
}

/// The largest token; every integer up to it is a double.
pub const MAX_TOKEN: u64 = 9007199254740992;

/// What the bits of a double say as a token: an integer from one up to the
/// largest token.
pub open spec fn token_of(bits: u64) -> Option<u64> {
    match integer_of(bits) {
        Some(n) => if 1 <= n <= MAX_TOKEN {
            Some(n as u64)
        } else {
            None
        },
        None => None,
    }
}

proof fn lemma_pow2_52()
    ensures
        pow2(0) == 1,
        pow2(1) == 2,
        pow2(52) == MANTISSA_SPAN,
{
    vstd::arithmetic::power2::lemma2_to64();
    vstd::arithmetic::power2::lemma_pow2_adds(26, 26);
}

fn power_of_two(n: u64) -> (p: u64)
    requires
        n <= 52,
    ensures
        p == pow2(n as nat),
{
    let mut p: u64 = 1;
    let mut i: u64 = 0;
    proof {
        lemma_pow2_52();
    }
    while i < n
        invariant
            i <= n <= 52,
            p == pow2(i as nat),
            pow2(52) == MANTISSA_SPAN,
        decreases n - i,
    {
        proof {
            vstd::arithmetic::power2::lemma_pow2_unfold((i + 1) as nat);
            if i + 1 < 52 {
                vstd::arithmetic::power2::lemma_pow2_strictly_increases((i + 1) as nat, 52);
            }
        }
        p = 2 * p;
        i = i + 1;
    }
    p
}

/// Reads a token: a value that is no number, or no integer, or out of range is
/// none.
pub fn transfer_token(bits: Option<u64>) -> (token: Option<u64>)
    ensures
        token == (match bits {
            Some(b) => token_of(b),
            None => None,
        }),
{
    let bits: u64 = match bits {
        Some(b) => b,
        None => {
            return None;
        },
    };
    let e: u64 = (bits / MANTISSA_SPAN) % (MAX_EXPONENT + 1);
    let s: u64 = MANTISSA_SPAN + bits % MANTISSA_SPAN;
    if bits >= SIGN_SPAN || e < ONE_EXPONENT {
        return None;
    }
    if e > UNIT_EXPONENT {
        proof {
            lemma_large_magnitudes(s as nat, (e - UNIT_EXPONENT) as nat);
        }
        if e == UNIT_EXPONENT + 1 && s == MANTISSA_SPAN {
            return Some(MAX_TOKEN);
        }
        return None;
    }
    let p: u64 = power_of_two(UNIT_EXPONENT - e);
    proof {
        vstd::arithmetic::power2::lemma_pow2_pos((UNIT_EXPONENT - e) as nat);
        lemma_pow2_52();
        if e > ONE_EXPONENT {
            vstd::arithmetic::power2::lemma_pow2_strictly_increases((UNIT_EXPONENT - e) as nat, 52);
        }
        assert(1 <= s / p <= s) by (nonlinear_arith)
            requires
                1 <= p <= s,
        ;
        if e == UNIT_EXPONENT {
            assert(s / p == s && s % p == 0 && s * p == s) by (nonlinear_arith)
                requires
                    p == 1,
            ;
        }
    }
    if s % p == 0 {
        Some(s / p)
    } else {
        None
    }
}

/// Above the unit exponent, only the largest token is no larger than the largest
/// token.
proof fn lemma_large_magnitudes(s: nat, n: nat)
    requires
        MANTISSA_SPAN <= s < 2 * MANTISSA_SPAN,
        n >= 1,
    ensures
        s * pow2(n) >= MAX_TOKEN,
        s * pow2(n) == MAX_TOKEN <==> n == 1 && s == MANTISSA_SPAN,
{
    lemma_pow2_52();
    if n > 1 {
        vstd::arithmetic::power2::lemma_pow2_strictly_increases(1, n);
    }
    let p = pow2(n);
    assert(s * p >= 2 * s) by (nonlinear_arith)
        requires
            p >= 2,
    ;
    if n > 1 {
        assert(s * p > 2 * s) by (nonlinear_arith)
            requires
                p > 2,
                s >= 1,
        ;
    }
}

/// A double is finite unless all the bits of its exponent are set.
pub proof fn law_finite_goes_by_the_exponent(bits: u64)
    ensures
        finite(bits) <==> (bits / 0x10_0000_0000_0000) % 2048 != 2047,
{
}

/// The integer that a double is taken for is the one that its bits stand for: its
/// significand, shifted by its exponent, with its sign. A double between two
/// integers is taken for none.
pub proof fn law_integer_is_what_the_bits_stand_for(bits: u64, n: int)
    requires
        1023 <= (bits / 0x10_0000_0000_0000) % 2048 < 2047,
    ensures
        ({
            let e = ((bits / 0x10_0000_0000_0000) % 2048) as int;
            let s = 0x10_0000_0000_0000 + bits % 0x10_0000_0000_0000;
            let m = if bits < 0x8000_0000_0000_0000 {
                n
            } else {
                -n
            };
            integer_of(bits) == Some(n) <==> (if e >= 1075 {
                m == s * pow2((e - 1075) as nat)
            } else {
                m * pow2((1075 - e) as nat) == s
            })
        }),
{
    let e = exponent_of(bits);
    let s = significand_of(bits);
    if e < UNIT_EXPONENT {
        let p = pow2((UNIT_EXPONENT - e) as nat) as int;
        vstd::arithmetic::power2::lemma_pow2_pos((UNIT_EXPONENT - e) as nat);
        let m = if bits < SIGN_SPAN {
            n
        } else {
            -n
        };
        if s % p == 0 {
            vstd::arithmetic::div_mod::lemma_fundamental_div_mod(s, p);
            assert(s == p * (s / p));
            assert(s / p >= 0) by (nonlinear_arith)
                requires
                    s >= 0,
                    p > 0,
            ;
            if m * p == s {
                assert(m == s / p) by (nonlinear_arith)
                    requires
                        m * p == s,
                        s == p * (s / p),
                        p > 0,
                ;
            }
            assert((s / p) * p == p * (s / p)) by (nonlinear_arith);
        } else if m * p == s {
            vstd::arithmetic::div_mod::lemma_mod_multiples_basic(m, p);
        }
    } else {
        vstd::arithmetic::power2::lemma_pow2_pos((e - UNIT_EXPONENT) as nat);
        let p = pow2((e - UNIT_EXPONENT) as nat) as int;
        assert(s * p >= 0) by (nonlinear_arith)
            requires
                s >= 0,
                p >= 0,
        ;
    }
}

/// A token is a double that is an integer from one up to two to the fifty-third,
/// and nothing else is one.
pub proof fn law_tokens_are_exact_integers(bits: u64, k: u64)
    ensures
        token_of(bits) == Some(k) <==> integer_of(bits) == Some(k as int) && 1 <= k
            <= 0x20_0000_0000_0000,
{
}

/// Of the doubles below one, only the two zeros are integers; those that are infinite,
/// or no number at all, are none.
pub proof fn law_nothing_below_one_is_an_integer_but_zero(bits: u64)
    requires
        (bits / 0x10_0000_0000_0000) % 2048 < 1023 || (bits / 0x10_0000_0000_0000) % 2048 == 2047,
    ensures
        bits == 0 || bits == 0x8000_0000_0000_0000 ==> integer_of(bits) == Some(0int),
        bits != 0 && bits != 0x8000_0000_0000_0000 ==> integer_of(bits) is None,
{
    assert((bits / 0x10_0000_0000_0000) % 2048 == 0 && bits % 0x10_0000_0000_0000 == 0 <==> bits == 0
        || bits == 0x8000_0000_0000_0000) by (bit_vector);
}

} // verus!
