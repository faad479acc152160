//! Reading hexadecimal numbers.

use vstd::prelude::*;

verus! {

const BYTE_PLUS: u8 = 0x2b;

const BYTE_0: u8 = 0x30;

const BYTE_9: u8 = 0x39;

const BYTE_UPPER_A: u8 = 0x41;

const BYTE_UPPER_F: u8 = 0x46;

const BYTE_LOWER_A: u8 = 0x61;

const BYTE_LOWER_F: u8 = 0x66;

/// The value of one hexadecimal digit, of either case.
pub open spec fn hex_digit(b: u8) -> Option<nat> {
    if '0' as int <= b <= '9' as int {
        Some((b - '0' as int) as nat)
    } else if 'a' as int <= b <= 'f' as int {
        Some((b - 'a' as int + 10) as nat)
    } else if 'A' as int <= b <= 'F' as int {
        Some((b - 'A' as int + 10) as nat)
    } else {
        None
    }
}

/// The value of a run of hexadecimal digits, most significant first.
pub open spec fn hex_run(bytes: Seq<u8>) -> Option<nat>
    decreases bytes.len(),
{
    if bytes.len() == 0 {
        Some(0)
    } else {
        match (hex_run(bytes.drop_last()), hex_digit(bytes.last())) {
            (Some(n), Some(d)) => Some(16 * n + d),
            _ => None,
        }
    }
}

/// A hexadecimal number: digits, at least one, behind at most one plus sign.
pub open spec fn hex_number(bytes: Seq<u8>) -> Option<nat> {
    let digits = if bytes.len() > 0 && bytes[0] as int == '+' as int {
        bytes.skip(1)
    } else {
        bytes
    };
    if digits.len() == 0 {
        None
    } else {
        hex_run(digits)
    }
}

/// A hexadecimal number that fits in 64 bits.
pub open spec fn hex_u64(bytes: Seq<u8>) -> Option<u64> {
    match hex_number(bytes) {
        Some(n) => if n <= u64::MAX {
            Some(n as u64)
        } else {
            None
        },
        None => None,
    }
}

/// Sixteen to the power of `n`.
pub open spec fn sixteen_to(n: nat) -> nat
    decreases n,
{
    if n == 0 {
        1
    } else {
        16 * sixteen_to((n - 1) as nat)
    }
}

pub proof fn lemma_sixteen_to_16()
    ensures
        sixteen_to(16) == 0x1_0000_0000_0000_0000nat,
{
    reveal_with_fuel(sixteen_to, 17);
}

pub proof fn lemma_sixteen_to_rises(m: nat, n: nat)
    requires
        m <= n,
    ensures
        1 <= sixteen_to(m) <= sixteen_to(n),
    decreases n,
{
    if n > 0 {
        if m < n {
            lemma_sixteen_to_rises(m, (n - 1) as nat);
        } else {
            lemma_sixteen_to_rises((m - 1) as nat, (n - 1) as nat);
        }
    }
}

/// So many digits make a number below that power of sixteen.
pub proof fn lemma_hex_run_bound(bytes: Seq<u8>)
    ensures
        hex_run(bytes) matches Some(n) ==> n < sixteen_to(bytes.len()),
    decreases bytes.len(),
{
    if bytes.len() > 0 {
        lemma_hex_run_bound(bytes.drop_last());
    }
}

/// What stands in front decides: a run is no number if its start is none, and it
/// is no smaller than its start.
proof fn lemma_hex_run_start(bytes: Seq<u8>, n: int)
    requires
        0 <= n <= bytes.len(),
    ensures
        match hex_run(bytes) {
            Some(all) => hex_run(bytes.take(n)) matches Some(start) && start <= all,
            None => true,
        },
    decreases bytes.len() - n,
{
    if n == bytes.len() {
        assert(bytes.take(n) =~= bytes);
    } else {
        assert(bytes.take(n + 1).drop_last() =~= bytes.take(n));
        lemma_hex_run_start(bytes, n + 1);
    }
}

/// The value of one hexadecimal digit.
fn parse_digit(b: u8) -> (d: Option<u64>)
    ensures
        match d {
            Some(v) => hex_digit(b) == Some(v as nat) && v < 16,
            None => hex_digit(b) is None,
        },
{
    if b >= BYTE_0 && b <= BYTE_9 {
        Some((b - BYTE_0) as u64)
    } else if b >= BYTE_LOWER_A && b <= BYTE_LOWER_F {
        Some((b - BYTE_LOWER_A + 10) as u64)
    } else if b >= BYTE_UPPER_A && b <= BYTE_UPPER_F {
        Some((b - BYTE_UPPER_A + 10) as u64)
    } else {
        None
    }
}

/// The number in `bytes[from..to]`.
pub fn parse_hex(bytes: &[u8], from: usize, to: usize) -> (word: Option<u64>)
    requires
        from <= to <= bytes@.len(),
    ensures
        word == hex_u64(bytes@.subrange(from as int, to as int)),
{
    let ghost piece = bytes@.subrange(from as int, to as int);
    let mut i: usize = from;
    if i < to && bytes[i] == BYTE_PLUS {
        i = i + 1;
    }
    let start: usize = i;
    let ghost digits = bytes@.subrange(start as int, to as int);
    assert(start > from ==> piece.skip(1) =~= digits);
    assert(start == from ==> piece =~= digits);
    if i == to {
        return None;
    }
    let mut n: u64 = 0;
    assert(digits.take(0) =~= seq![]);
    while i < to
        invariant
            start <= i <= to <= bytes@.len(),
            digits == bytes@.subrange(start as int, to as int),
            piece == bytes@.subrange(from as int, to as int),
            hex_number(piece) == hex_run(digits),
            hex_run(digits.take(i - start)) == Some(n as nat),
        decreases to - i,
    {
        let b = bytes[i];
        assert(digits.take(i - start + 1).drop_last() =~= digits.take(i - start));
        assert(digits.take(i - start + 1).last() == b);
        proof {
            lemma_hex_run_start(digits, i - start + 1);
        }
        match parse_digit(b) {
            Some(d) => {
                if n > (u64::MAX - d) / 16 {
                    return None;
                }
                n = 16 * n + d;
            },
            None => {
                return None;
            },
        }
        i = i + 1;
    }
    assert(digits.take(i - start) =~= digits);
    Some(n)
}

/// There are sixteen digits, those above nine in either case, and no other byte is
/// one.
pub proof fn law_sixteen_digits(b: u8, d: nat)
    ensures
        d < 10 && b == '0' as int + d ==> hex_digit(b) == Some(d),
        10 <= d < 16 && b == 'a' as int + d - 10 ==> hex_digit(b) == Some(d),
        10 <= d < 16 && b == 'A' as int + d - 10 ==> hex_digit(b) == Some(d),
        hex_digit(b) == Some(d) ==> if d < 10 {
            b == '0' as int + d
        } else {
            d < 16 && (b == 'a' as int + d - 10 || b == 'A' as int + d - 10)
        },
{
}

/// A number is read from all its digits, each of which counts sixteen times what the
/// next one counts. A plus in front changes nothing; with nothing behind it, or
/// with a byte that is no digit, there is no number.
pub proof fn law_number_is_read_from_its_digits(digits: Seq<u8>, b: u8)
    ensures
        hex_number(seq![]) is None,
        hex_number(seq![0x2bu8]) is None,
        digits.len() > 0 && digits[0] != 0x2b ==> hex_number(seq![0x2bu8] + digits) == hex_number(
            digits,
        ),
        digits.len() > 0 && digits[0] != 0x2b && hex_digit(b) is None ==> hex_number(digits.push(b))
            is None,
        digits.len() > 0 && digits[0] != 0x2b && hex_number(digits) is Some && hex_digit(b) is Some
            ==> hex_number(digits.push(b)) == Some(
            16 * hex_number(digits).unwrap() + hex_digit(b).unwrap(),
        ),
        hex_digit(b) is Some ==> hex_number(seq![b]) == hex_digit(b),
{
    assert((seq![0x2bu8] + digits).skip(1) =~= digits);
    assert(digits.push(b).drop_last() =~= digits);
    assert(seq![b].drop_last() =~= seq![]);
    assert(hex_run(seq![]) == Some(0nat));
}

/// A number that does not fit in 64 bits is not read; any other is read as it is.
pub proof fn law_only_numbers_that_fit_are_read(bytes: Seq<u8>, n: u64)
    ensures
        hex_u64(bytes) == Some(n) <==> hex_number(bytes) == Some(n as nat),
        hex_u64(bytes) is None <==> (hex_number(bytes) matches Some(m) ==> m
            >= 0x1_0000_0000_0000_0000),
{
}

} // verus!
