//! Integers of any size, as 64-bit limbs and as hexadecimal text.

use vstd::prelude::*;

use crate::hex::hex_digit;
use crate::hex::hex_run;
use crate::hex::hex_u64;
use crate::hex::lemma_sixteen_to_16;
use crate::hex::lemma_sixteen_to_rises;
use crate::hex::parse_hex;
use crate::hex::sixteen_to;
use crate::text::digit_char;
use crate::text::numeral;
use crate::text::padded;
use crate::text::write_number;
use crate::text::write_padded;

verus! {

/// How many hexadecimal digits one limb takes.
pub const LIMB_DIGITS: usize = 16;

/// The number that little-endian limbs stand for.
pub open spec fn magnitude(words: Seq<u64>) -> nat
    decreases words.len(),
{
    if words.len() == 0 {
        0
    } else {
        words[0] as nat + 0x1_0000_0000_0000_0000nat * magnitude(words.skip(1))
    }
}

/// Limbs as big-endian hexadecimal text: the top limb without leading zeros,
/// each lower limb in full.
pub open spec fn hex_of(words: Seq<u64>) -> Seq<char>
    decreases words.len(),
{
    if words.len() == 0 {
        seq!['0']
    } else if words.len() == 1 {
        numeral(words[0] as nat, 16)
    } else {
        hex_of(words.skip(1)) + padded(words[0] as nat, 16, LIMB_DIGITS as nat)
    }
}

/// The limbs of a hexadecimal text, cut into limbs from its end on. A piece that
/// is no number reads as zero.
pub open spec fn hex_pieces(bytes: Seq<u8>) -> Seq<u64>
    decreases bytes.len(),
{
    if bytes.len() == 0 {
        seq![]
    } else {
        let cut = if bytes.len() > LIMB_DIGITS {
            bytes.len() - LIMB_DIGITS
        } else {
            0
        };
        let piece = match hex_u64(bytes.skip(cut)) {
            Some(n) => n,
            None => 0,
        };
        seq![piece] + hex_pieces(bytes.take(cut))
    }
}

/// The limbs of a hexadecimal text; there is always at least one.
pub open spec fn hex_words(bytes: Seq<u8>) -> Seq<u64> {
    if bytes.len() == 0 {
        seq![0]
    } else {
        hex_pieces(bytes)
    }
}

/// Little-endian limbs as big-endian hexadecimal text, without sign or prefix.
pub fn words_to_hex(words: &Vec<u64>) -> (hex: String)
    ensures
        hex@ == hex_of(words@),
{
    let mut hex: String = String::new();
    if words.len() == 0 {
        proof {
            reveal_strlit("0");
        }
        hex.append("0");
        assert(hex@ =~= hex_of(words@));
        return hex;
    }
    let mut i: usize = words.len() - 1;
    write_number(&mut hex, words[i], 16);
    assert(words@.skip(i as int)[0] == words@[i as int]);
    assert(hex@ =~= hex_of(words@.skip(i as int)));
    while i > 0
        invariant
            i < words@.len(),
            hex@ == hex_of(words@.skip(i as int)),
        decreases i,
    {
        i = i - 1;
        write_padded(&mut hex, words[i], 16, LIMB_DIGITS);
        assert(words@.skip(i as int).skip(1) =~= words@.skip(i + 1));
        assert(words@.skip(i as int)[0] == words@[i as int]);
    }
    assert(words@.skip(0) =~= words@);
    hex
}

/// Big-endian hexadecimal text as little-endian limbs.
pub fn hex_to_words(hex: &str) -> (words: Vec<u64>)
    ensures
        words@ == hex_words(vstd::utf8::encode_utf8(hex@)),
{
    let bytes = hex.as_bytes();
    let mut words: Vec<u64> = Vec::new();
    let mut end: usize = bytes.len();
    assert(bytes@.take(end as int) =~= bytes@);
    assert(words@ + hex_pieces(bytes@.take(end as int)) =~= hex_pieces(bytes@));
    while end > 0
        invariant
            end <= bytes@.len(),
            words@ + hex_pieces(bytes@.take(end as int)) == hex_pieces(bytes@),
            end < bytes@.len() ==> words@.len() > 0,
        decreases end,
    {
        let start: usize = if end > LIMB_DIGITS {
            end - LIMB_DIGITS
        } else {
            0
        };
        let ghost before = words@;
        let ghost rest = bytes@.take(end as int);
        assert(rest.skip(start as int) =~= bytes@.subrange(start as int, end as int));
        assert(rest.take(start as int) =~= bytes@.take(start as int));
        let word: u64 = match parse_hex(bytes, start, end) {
            Some(w) => w,
            None => 0,
        };
        words.push(word);
        assert(hex_pieces(rest) == seq![word] + hex_pieces(rest.take(start as int)));
        assert(words@ + hex_pieces(bytes@.take(start as int)) =~= before + hex_pieces(rest));
        end = start;
    }
    assert(bytes@.take(0) =~= seq![]);
    assert(words@ =~= hex_pieces(bytes@));
    if words.len() == 0 {
        words.push(0);
        assert(words@ =~= seq![0]);
    }
    words
}

/// The bytes of plain text.
pub open spec fn ascii(text: Seq<char>) -> Seq<u8> {
    Seq::new(text.len(), |i: int| text[i] as u8)
}

proof fn lemma_digit_reads_back(d: nat)
    requires
        d < 16,
    ensures
        hex_digit(digit_char(d) as u8) == Some(d),
        digit_char(d) as u8 as int != '+' as int,
        '\0' <= digit_char(d) <= '\u{7f}',
{
}

/// A padded number reads back as itself.
proof fn lemma_padded_reads_back(n: nat, width: nat)
    requires
        n < sixteen_to(width),
    ensures
        padded(n, 16, width).len() == width,
        hex_run(ascii(padded(n, 16, width))) == Some(n),
        vstd::utf8::is_ascii_chars(padded(n, 16, width)),
        forall|i: int|
            0 <= i < width ==> (#[trigger] padded(n, 16, width)[i]) as u8 as int != '+' as int,
    decreases width,
{
    if width > 0 {
        lemma_padded_reads_back(n / 16, (width - 1) as nat);
        lemma_digit_reads_back(n % 16);
        let text = padded(n, 16, width);
        assert(ascii(text).drop_last() =~= ascii(padded(n / 16, 16, (width - 1) as nat)));
    }
}

/// A number without leading zeros reads back as itself.
proof fn lemma_numeral_reads_back(n: nat, width: nat)
    requires
        n < sixteen_to(width),
        width > 0,
    ensures
        0 < numeral(n, 16).len() <= width,
        hex_run(ascii(numeral(n, 16))) == Some(n),
        vstd::utf8::is_ascii_chars(numeral(n, 16)),
        forall|i: int|
            0 <= i < numeral(n, 16).len() ==> (#[trigger] numeral(n, 16)[i]) as u8 as int
                != '+' as int,
    decreases width,
{
    let text = numeral(n, 16);
    reveal_with_fuel(hex_run, 2);
    if n < 16 {
        lemma_digit_reads_back(n);
        assert(ascii(text).drop_last() =~= seq![]);
    } else {
        if width == 1 {
            reveal_with_fuel(sixteen_to, 2);
        }
        lemma_numeral_reads_back(n / 16, (width - 1) as nat);
        lemma_digit_reads_back(n % 16);
        assert(ascii(text).drop_last() =~= ascii(numeral(n / 16, 16)));
    }
}

/// Limbs survive the way through hexadecimal text and back, needless zeros on
/// top included; no limbs at all come back as a single zero. So the number that
/// they stand for is kept either way.
pub proof fn law_hex_round_trip(words: Seq<u64>)
    ensures
        hex_words(vstd::utf8::encode_utf8(hex_of(words))) == (if words.len() == 0 {
            seq![0u64]
        } else {
            words
        }),
        magnitude(hex_words(vstd::utf8::encode_utf8(hex_of(words)))) == magnitude(words),
{
    if words.len() == 0 {
        lemma_pieces_read_back(seq![0u64]);
        assert(hex_of(words) =~= hex_of(seq![0u64]));
        assert(magnitude(seq![0u64]) == 0) by {
            reveal_with_fuel(magnitude, 2);
        }
    } else {
        lemma_pieces_read_back(words);
    }
    vstd::utf8::is_ascii_chars_encode_utf8(hex_of(words));
    assert(vstd::utf8::encode_utf8(hex_of(words)) =~= ascii(hex_of(words)));
}

proof fn lemma_pieces_read_back(words: Seq<u64>)
    requires
        words.len() > 0,
    ensures
        hex_of(words).len() > 0,
        hex_pieces(ascii(hex_of(words))) == words,
        vstd::utf8::is_ascii_chars(hex_of(words)),
    decreases words.len(),
{
    let bytes = ascii(hex_of(words));
    lemma_sixteen_to_16();
    if words.len() == 1 {
        lemma_numeral_reads_back(words[0] as nat, 16);
        assert(bytes.skip(0) =~= bytes);
        assert(bytes.take(0) =~= seq![]);
        assert(bytes[0] as int != '+' as int);
        reveal_with_fuel(hex_pieces, 2);
        assert(hex_pieces(bytes) =~= words);
    } else {
        let rest = words.skip(1);
        lemma_pieces_read_back(rest);
        let low = padded(words[0] as nat, 16, 16);
        lemma_padded_reads_back(words[0] as nat, 16);
        assert(hex_of(words) == hex_of(rest) + low);
        let cut = bytes.len() - 16;
        assert(bytes.skip(cut) =~= ascii(low));
        assert(bytes.take(cut) =~= ascii(hex_of(rest)));
        assert(ascii(low)[0] as int != '+' as int);
        assert(hex_pieces(bytes) =~= seq![words[0]] + rest);
        assert(seq![words[0]] + rest =~= words);
    }
}

/// Digits in front of others stand for so much more.
proof fn lemma_numeral_splits(q: nat, r: nat, k: nat)
    requires
        q > 0,
        r < sixteen_to(k),
    ensures
        numeral(q * sixteen_to(k) + r, 16) == numeral(q, 16) + padded(r, 16, k),
    decreases k,
{
    let p = sixteen_to(k);
    if k == 0 {
        assert(q * 1 == q);
        assert(numeral(q, 16) + padded(r, 16, 0) =~= numeral(q, 16));
    } else {
        let below = sixteen_to((k - 1) as nat);
        lemma_sixteen_to_rises(0, (k - 1) as nat);
        let n = q * p + r;
        assert(q * p == 16 * (q * below)) by (nonlinear_arith)
            requires
                p == 16 * below,
        ;
        assert(q * below >= 1) by (nonlinear_arith)
            requires
                q >= 1,
                below >= 1,
        ;
        assert(n / 16 == q * below + r / 16);
        assert(n % 16 == r % 16);
        assert(n >= 16);
        lemma_numeral_splits(q, r / 16, (k - 1) as nat);
        assert(numeral(n, 16) =~= numeral(q, 16) + padded(r, 16, k));
    }
}

/// Limbs are spelled as the number that they stand for.
pub proof fn law_limbs_spell_their_number(words: Seq<u64>)
    requires
        words.len() > 1 ==> words.last() != 0,
    ensures
        hex_of(words) == numeral(magnitude(words), 16),
        words.len() > 1 ==> magnitude(words) > 0,
    decreases words.len(),
{
    reveal_with_fuel(magnitude, 2);
    if words.len() > 1 {
        let rest = words.skip(1);
        assert(rest.last() == words.last());
        law_limbs_spell_their_number(rest);
        if rest.len() == 1 {
            assert(rest.skip(1).len() == 0);
        }
        lemma_sixteen_to_16();
        assert(magnitude(rest) > 0);
        assert(magnitude(rest) * sixteen_to(16) == 0x1_0000_0000_0000_0000nat * magnitude(rest))
            by (nonlinear_arith)
            requires
                sixteen_to(16) == 0x1_0000_0000_0000_0000nat,
        ;
        lemma_numeral_splits(magnitude(rest), words[0] as nat, 16);
    } else if words.len() == 1 {
        assert(words.skip(1).len() == 0);
    } else {
        assert(hex_of(words) =~= numeral(0, 16));
    }
}

/// The limbs of a number, as few as there need be.
pub open spec fn limbs(n: nat) -> Seq<u64>
    decreases n,
{
    if n < 0x1_0000_0000_0000_0000nat {
        seq![n as u64]
    } else {
        seq![(n % 0x1_0000_0000_0000_0000nat) as u64] + limbs(n / 0x1_0000_0000_0000_0000nat)
    }
}

proof fn lemma_limbs(n: nat)
    ensures
        limbs(n).len() > 0,
        limbs(n).len() > 1 ==> limbs(n).last() != 0,
        n > 0 ==> limbs(n).last() != 0,
        magnitude(limbs(n)) == n,
    decreases n,
{
    reveal_with_fuel(magnitude, 2);
    let words = limbs(n);
    if n < 0x1_0000_0000_0000_0000nat {
        assert(words.skip(1).len() == 0);
    } else {
        let rest = limbs(n / 0x1_0000_0000_0000_0000nat);
        lemma_limbs(n / 0x1_0000_0000_0000_0000nat);
        assert(words.skip(1) =~= rest);
        assert(words.last() == rest.last());
    }
}

/// The hexadecimal digits of a number are read as limbs that stand for it, however
/// large it is.
pub proof fn law_digits_are_read_as_their_number(n: nat)
    ensures
        magnitude(hex_words(vstd::utf8::encode_utf8(numeral(n, 16)))) == n,
{
    lemma_limbs(n);
    law_limbs_spell_their_number(limbs(n));
    law_hex_round_trip(limbs(n));
}

} // verus!
