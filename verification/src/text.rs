//! Bytes and numbers as text.

use vstd::prelude::*;
use vstd::utf8::decode_utf8;
use vstd::utf8::encode_utf8;
use vstd::utf8::valid_utf8;

verus! {

/// Bytes as text, if they are valid UTF-8.
pub open spec fn utf8_of(bytes: Seq<u8>) -> Option<Seq<char>> {
    if valid_utf8(bytes) {
        Some(decode_utf8(bytes))
    } else {
        None
    }
}

/// Calls `String::from_utf8`, which succeeds exactly on valid UTF-8 and then
/// returns the string that these bytes encode.
#[verifier::external_body]
fn from_utf8(bytes: Vec<u8>) -> (text: Option<String>)
    ensures
        text matches Some(s) ==> valid_utf8(bytes@) && encode_utf8(s@) == bytes@,
        text is None ==> !valid_utf8(bytes@),
{
    String::from_utf8(bytes).ok()
}

/// What bytes read as if each part of them that is not valid UTF-8 is replaced
/// by U+FFFD.
pub uninterp spec fn lossy_utf8(bytes: Seq<u8>) -> Seq<char>;

/// Calls `String::from_utf8_lossy`. The result is named; where the bytes are
/// valid UTF-8 it is the text that they encode. How many replacement characters
/// a bad part turns into is not stated.
#[verifier::external_body]
pub(crate) fn lossy_text(bytes: &Vec<u8>) -> (text: String)
    ensures
        text@ == lossy_utf8(bytes@),
        valid_utf8(bytes@) ==> text@ == decode_utf8(bytes@),
{
    String::from_utf8_lossy(bytes).into_owned()
}

/// Bytes as text; nothing if they are not valid UTF-8.
pub fn utf8_text(bytes: Vec<u8>) -> (text: Option<String>)
    ensures
        match text {
            Some(s) => utf8_of(bytes@) == Some(s@),
            None => utf8_of(bytes@) is None,
        },
{
    let text = from_utf8(bytes);
    proof {
        if text is Some {
            vstd::utf8::encode_utf8_decode_utf8(text->0@);
        }
    }
    text
}

/// The character of one digit; ten and up are small letters.
pub open spec fn digit_char(d: nat) -> char {
    if d < 10 {
        (('0' as nat) + d) as char
    } else {
        (('a' as nat) + (d - 10)) as char
    }
}

/// A number in positional notation, without leading zeros.
pub open spec fn numeral(n: nat, base: nat) -> Seq<char>
    decreases n,
{
    if base < 2 || n < base {
        seq![digit_char(n)]
    } else {
        proof {
            lemma_quotient_shrinks(n, base);
        }
        numeral(n / base, base).push(digit_char(n % base))
    }
}

/// The last `width` digits of a number, leading zeros and all.
pub open spec fn padded(n: nat, base: nat, width: nat) -> Seq<char>
    decreases width,
{
    if width == 0 {
        seq![]
    } else {
        padded(n / base, base, (width - 1) as nat).push(digit_char(n % base))
    }
}

pub proof fn lemma_quotient_shrinks(n: nat, base: nat)
    requires
        2 <= base <= n,
    ensures
        n / base < n,
{
    assert(n / base < n) by (nonlinear_arith)
        requires
            2 <= base <= n,
    ;
}

/// One digit as text.
fn digit_text(d: u64) -> (text: &'static str)
    requires
        d < 16,
    ensures
        text@ == seq![digit_char(d as nat)],
{
    proof {
        reveal_strlit("0");
        reveal_strlit("1");
        reveal_strlit("2");
        reveal_strlit("3");
        reveal_strlit("4");
        reveal_strlit("5");
        reveal_strlit("6");
        reveal_strlit("7");
        reveal_strlit("8");
        reveal_strlit("9");
        reveal_strlit("a");
        reveal_strlit("b");
        reveal_strlit("c");
        reveal_strlit("d");
        reveal_strlit("e");
        reveal_strlit("f");
    }
    if d == 0 {
        "0"
    } else if d == 1 {
        "1"
    } else if d == 2 {
        "2"
    } else if d == 3 {
        "3"
    } else if d == 4 {
        "4"
    } else if d == 5 {
        "5"
    } else if d == 6 {
        "6"
    } else if d == 7 {
        "7"
    } else if d == 8 {
        "8"
    } else if d == 9 {
        "9"
    } else if d == 10 {
        "a"
    } else if d == 11 {
        "b"
    } else if d == 12 {
        "c"
    } else if d == 13 {
        "d"
    } else if d == 14 {
        "e"
    } else {
        "f"
    }
}

/// Adds a number to a text, without leading zeros.
pub fn write_number(out: &mut String, n: u64, base: u64)
    requires
        2 <= base <= 16,
    ensures
        final(out)@ == old(out)@ + numeral(n as nat, base as nat),
    decreases n,
{
    if n >= base {
        proof {
            lemma_quotient_shrinks(n as nat, base as nat);
        }
        write_number(out, n / base, base);
        out.append(digit_text(n % base));
    } else {
        out.append(digit_text(n));
    }
}

/// Adds the last `width` digits of a number to a text.
pub fn write_padded(out: &mut String, n: u64, base: u64, width: usize)
    requires
        2 <= base <= 16,
    ensures
        final(out)@ == old(out)@ + padded(n as nat, base as nat, width as nat),
    decreases width,
{
    if width > 0 {
        write_padded(out, n / base, base, width - 1);
        out.append(digit_text(n % base));
    }
}

/// White space, as Unicode has it.
pub open spec fn is_white(c: char) -> bool {
    let n = c as u32;
    0x9 <= n <= 0xd || n == 0x20 || n == 0x85 || n == 0xa0 || n == 0x1680 || 0x2000 <= n <= 0x200a
        || n == 0x2028 || n == 0x2029 || n == 0x202f || n == 0x205f || n == 0x3000
}

pub fn white(c: char) -> (yes: bool)
    ensures
        yes == is_white(c),
{
    let n: u32 = c as u32;
    n >= 0x9 && n <= 0xd || n == 0x20 || n == 0x85 || n == 0xa0 || n == 0x1680 || n >= 0x2000 && n
        <= 0x200a || n == 0x2028 || n == 0x2029 || n == 0x202f || n == 0x205f || n == 0x3000
}

/// Bytes read as a text just if they are the UTF-8 encoding of that text, so that no
/// byte is lost and none is made up.
pub proof fn law_text_is_its_bytes(bytes: Seq<u8>, text: Seq<char>)
    ensures
        utf8_of(bytes) == Some(text) <==> bytes == encode_utf8(text),
        utf8_of(encode_utf8(text)) == Some(text),
{
    vstd::utf8::encode_utf8_valid_utf8(text);
    vstd::utf8::encode_utf8_decode_utf8(text);
    if valid_utf8(bytes) {
        vstd::utf8::decode_utf8_encode_utf8(bytes);
    }
}

/// What a digit stands for.
pub open spec fn digit_value(c: char) -> int {
    if '0' <= c <= '9' {
        c as int - '0' as int
    } else {
        c as int - 'a' as int + 10
    }
}

/// What digits stand for, the most significant first.
pub open spec fn digits_value(text: Seq<char>, base: nat) -> int
    decreases text.len(),
{
    if text.len() == 0 {
        0
    } else {
        base * digits_value(text.drop_last(), base) + digit_value(text.last())
    }
}

/// A number is written with digits that stand for it, and with no needless zero in
/// front.
pub proof fn law_numeral_stands_for_the_number(n: nat, base: nat)
    requires
        2 <= base <= 16,
    ensures
        numeral(n, base).len() > 0,
        digits_value(numeral(n, base), base) == n,
        n > 0 ==> numeral(n, base)[0] != '0',
        forall|i: int|
            0 <= i < numeral(n, base).len() ==> 0 <= digit_value(#[trigger] numeral(n, base)[i])
                < base,
    decreases n,
{
    let text = numeral(n, base);
    reveal_with_fuel(digits_value, 2);
    if n < base {
        assert(text.drop_last() =~= seq![]);
        assert(base * 0 == 0) by (nonlinear_arith);
    } else {
        lemma_quotient_shrinks(n, base);
        let quotient = n / base;
        assert(quotient > 0) by (nonlinear_arith)
            requires
                quotient == n / base,
                2 <= base <= n,
        ;
        assert(n % base < base) by (nonlinear_arith)
            requires
                2 <= base,
        ;
        assert(base * quotient + n % base == n) by (nonlinear_arith)
            requires
                quotient == n / base,
                2 <= base,
        ;
        law_numeral_stands_for_the_number(quotient, base);
        assert(text.drop_last() =~= numeral(quotient, base));
        assert(text[0] == numeral(quotient, base)[0]);
    }
}

/// White space is what Unicode lists as such: twenty-five characters, all in the first
/// plane, and none that is written.
pub proof fn law_white_space_is_as_listed(c: char)
    ensures
        is_white(c) <==> seq![
            '\t',
            '\n',
            '\u{b}',
            '\u{c}',
            '\r',
            ' ',
            '\u{85}',
            '\u{a0}',
            '\u{1680}',
            '\u{2000}',
            '\u{2001}',
            '\u{2002}',
            '\u{2003}',
            '\u{2004}',
            '\u{2005}',
            '\u{2006}',
            '\u{2007}',
            '\u{2008}',
            '\u{2009}',
            '\u{200a}',
            '\u{2028}',
            '\u{2029}',
            '\u{202f}',
            '\u{205f}',
            '\u{3000}',
        ].contains(c),
{
    let all = seq![
        '\t',
        '\n',
        '\u{b}',
        '\u{c}',
        '\r',
        ' ',
        '\u{85}',
        '\u{a0}',
        '\u{1680}',
        '\u{2000}',
        '\u{2001}',
        '\u{2002}',
        '\u{2003}',
        '\u{2004}',
        '\u{2005}',
        '\u{2006}',
        '\u{2007}',
        '\u{2008}',
        '\u{2009}',
        '\u{200a}',
        '\u{2028}',
        '\u{2029}',
        '\u{202f}',
        '\u{205f}',
        '\u{3000}',
    ];
    if is_white(c) {
        let n = c as int;
        let i: int = if n <= 0xd {
            n - 9
        } else if n == 0x20 {
            5
        } else if n == 0x85 {
            6
        } else if n == 0xa0 {
            7
        } else if n == 0x1680 {
            8
        } else if n <= 0x200a {
            n - 0x2000 + 9
        } else if n == 0x2028 {
            20
        } else if n == 0x2029 {
            21
        } else if n == 0x202f {
            22
        } else if n == 0x205f {
            23
        } else {
            24
        };
        assert(all[i] == c);
    }
}

} // verus!
