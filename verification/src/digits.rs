//! The digit grammars that the explorer's texts are written in: decimal
//! numerals and hexadecimal digit strings, with the numbers and bytes they
//! stand for.
//!
//! Everything here is stated over `Seq<char>`, the view of a string. The
//! executable checks read the string's bytes, which for an ASCII string are
//! its characters one for one.

use vstd::prelude::*;

verus! {

/// Whether `c` is one of `0` to `9`.
pub open spec fn is_dec_digit(c: char) -> bool {
    '0' <= c <= '9'
}

/// Whether `c` is one of `0` to `9`, `a` to `f` or `A` to `F`.
pub open spec fn is_hex_digit(c: char) -> bool {
    ('0' <= c <= '9') || ('a' <= c <= 'f') || ('A' <= c <= 'F')
}

/// Whether `c` is a hexadecimal digit that is not an upper-case letter.
pub open spec fn is_lower_hex_digit(c: char) -> bool {
    ('0' <= c <= '9') || ('a' <= c <= 'f')
}

/// The number that a hexadecimal (hence also a decimal) digit stands for;
/// zero for any other character.
pub open spec fn digit_value(c: char) -> nat {
    if '0' <= c <= '9' {
        (c as int - '0' as int) as nat
    } else if 'a' <= c <= 'f' {
        (c as int - 'a' as int + 10) as nat
    } else if 'A' <= c <= 'F' {
        (c as int - 'A' as int + 10) as nat
    } else {
        0
    }
}

/// The lower-case hexadecimal digit for a number below sixteen.
pub open spec fn digit_char(v: int) -> char {
    if v == 0 {
        '0'
    } else if v == 1 {
        '1'
    } else if v == 2 {
        '2'
    } else if v == 3 {
        '3'
    } else if v == 4 {
        '4'
    } else if v == 5 {
        '5'
    } else if v == 6 {
        '6'
    } else if v == 7 {
        '7'
    } else if v == 8 {
        '8'
    } else if v == 9 {
        '9'
    } else if v == 10 {
        'a'
    } else if v == 11 {
        'b'
    } else if v == 12 {
        'c'
    } else if v == 13 {
        'd'
    } else if v == 14 {
        'e'
    } else {
        'f'
    }
}

/// Whether every character of `s` is a decimal digit.
pub open spec fn all_dec_digits(s: Seq<char>) -> bool {
    forall|i: int| 0 <= i < s.len() ==> is_dec_digit(#[trigger] s[i])
}

/// Whether every character of `s` is a hexadecimal digit.
pub open spec fn all_hex_digits(s: Seq<char>) -> bool {
    forall|i: int| 0 <= i < s.len() ==> is_hex_digit(#[trigger] s[i])
}

/// Whether every character of `s` is a hexadecimal digit in lower case.
pub open spec fn all_lower_hex_digits(s: Seq<char>) -> bool {
    forall|i: int| 0 <= i < s.len() ==> is_lower_hex_digit(#[trigger] s[i])
}

/// The number written by the digits `s` in base ten, most significant first.
pub open spec fn dec_value(s: Seq<char>) -> nat
    decreases s.len(),
{
    if s.len() == 0 {
        0
    } else {
        dec_value(s.drop_last()) * 10 + digit_value(s.last())
    }
}

/// The number written by the digits `s` in base sixteen, most significant
/// first.
pub open spec fn hex_value(s: Seq<char>) -> nat
    decreases s.len(),
{
    if s.len() == 0 {
        0
    } else {
        hex_value(s.drop_last()) * 16 + digit_value(s.last())
    }
}

/// The byte written by two hexadecimal digits.
pub open spec fn hex_pair_value(hi: char, lo: char) -> u8 {
    (digit_value(hi) * 16 + digit_value(lo)) as u8
}

/// The bytes written by the hexadecimal digits `s`, two digits to a byte.
pub open spec fn hex_bytes(s: Seq<char>) -> Seq<u8> {
    Seq::new((s.len() / 2) as nat, |i: int| hex_pair_value(s[2 * i], s[2 * i + 1]))
}

/// The lower-case hexadecimal digits of `bytes`, two digits to a byte.
pub open spec fn lower_hex_text(bytes: Seq<u8>) -> Seq<char> {
    Seq::new(
        2 * bytes.len(),
        |i: int|
            if i % 2 == 0 {
                digit_char(bytes[i / 2] as int / 16)
            } else {
                digit_char(bytes[i / 2] as int % 16)
            },
    )
}

/// `s` with each of `A` to `F` replaced by its lower-case letter.
pub open spec fn lower_cased_hex(s: Seq<char>) -> Seq<char> {
    Seq::new(s.len(), |i: int| if is_hex_digit(s[i]) { digit_char(digit_value(s[i]) as int) } else { s[i] })
}

/// Whether `s` begins with the two characters `0x`.
pub open spec fn has_hex_prefix(s: Seq<char>) -> bool {
    s.len() >= 2 && s[0] == '0' && s[1] == 'x'
}

/// The decimal numeral of `n`: its digits without leading zeros, and `0` for
/// zero.
pub open spec fn dec_text(n: nat) -> Seq<char>
    decreases n,
{
    if n < 10 {
        seq![digit_char(n as int)]
    } else {
        dec_text(n / 10).push(digit_char((n % 10) as int))
    }
}

/// Sixteen to the power `n`.
pub open spec fn pow16(n: nat) -> nat
    decreases n,
{
    if n == 0 {
        1
    } else {
        16 * pow16((n - 1) as nat)
    }
}

/// What the bytes of an ASCII string are: its characters, one for one.
pub open spec fn bytes_spell(bytes: Seq<u8>, s: Seq<char>) -> bool {
    &&& bytes.len() == s.len()
    &&& forall|i: int|
        0 <= i < s.len() ==> '\0' <= #[trigger] s[i] <= '\u{7f}' && bytes[i] == s[i] as u8
}

/// The bytes of `s` if it is ASCII, and `None` if it is not.
pub fn ascii_bytes(s: &str) -> (r: Option<&[u8]>)
    ensures
        r is Some <==> vstd::utf8::is_ascii_chars(s@),
        r matches Some(bytes) ==> bytes_spell(bytes@, s@),
{
    if s.is_ascii() {
        proof {
            vstd::string::is_ascii_spec_bytes(s);
        }
        Some(s.as_bytes())
    } else {
        None
    }
}

/// A character outside ASCII is no digit: a string that is all hexadecimal
/// digits is ASCII.
pub proof fn lemma_hex_digits_are_ascii(s: Seq<char>)
    requires
        all_hex_digits(s),
    ensures
        vstd::utf8::is_ascii_chars(s),
{
    assert forall|i: int| 0 <= i < s.len() implies '\0' <= #[trigger] s[i] <= '\u{7f}' by {
        assert(is_hex_digit(s[i]));
    }
}

/// Decimal digits are hexadecimal digits.
pub proof fn lemma_dec_digits_are_hex(s: Seq<char>)
    requires
        all_dec_digits(s),
    ensures
        all_hex_digits(s),
{
    assert forall|i: int| 0 <= i < s.len() implies is_hex_digit(#[trigger] s[i]) by {
        assert(is_dec_digit(s[i]));
    }
}

/// Whether the characters of `s` from position `from` on are all decimal
/// digits, read off the bytes of `s`.
pub(crate) fn all_dec_digits_from(bytes: &[u8], from: usize, Ghost(s): Ghost<Seq<char>>) -> (b: bool)
    requires
        bytes_spell(bytes@, s),
        from <= bytes@.len(),
    ensures
        b == all_dec_digits(s.skip(from as int)),
{
    let n: usize = bytes.len();
    let mut i: usize = from;
    while i < n
        invariant
            from <= i <= n,
            n == bytes@.len(),
            bytes_spell(bytes@, s),
            forall|j: int| from <= j < i ==> is_dec_digit(#[trigger] s[j]),
        decreases n - i,
    {
        let b: u8 = bytes[i];
        if b < 0x30 || b > 0x39 {
            proof {
                let t = s.skip(from as int);
                assert(t[i - from] == s[i as int]);
                assert(!is_dec_digit(t[i - from]));
            }
            return false;
        }
        i += 1;
    }
    proof {
        let t = s.skip(from as int);
        assert forall|j: int| 0 <= j < t.len() implies is_dec_digit(#[trigger] t[j]) by {
            assert(t[j] == s[j + from]);
        }
    }
    true
}

/// Whether the characters of `s` from position `from` on are all
/// hexadecimal digits, read off the bytes of `s`.
pub(crate) fn all_hex_digits_from(bytes: &[u8], from: usize, Ghost(s): Ghost<Seq<char>>) -> (b: bool)
    requires
        bytes_spell(bytes@, s),
        from <= bytes@.len(),
    ensures
        b == all_hex_digits(s.skip(from as int)),
{
    let n: usize = bytes.len();
    let mut i: usize = from;
    while i < n
        invariant
            from <= i <= n,
            n == bytes@.len(),
            bytes_spell(bytes@, s),
            forall|j: int| from <= j < i ==> is_hex_digit(#[trigger] s[j]),
        decreases n - i,
    {
        let b: u8 = bytes[i];
        let digit = (0x30 <= b && b <= 0x39) || (0x61 <= b && b <= 0x66) || (0x41 <= b && b <= 0x46);
        if !digit {
            proof {
                let t = s.skip(from as int);
                assert(t[i - from] == s[i as int]);
                assert(!is_hex_digit(t[i - from]));
            }
            return false;
        }
        i += 1;
    }
    proof {
        let t = s.skip(from as int);
        assert forall|j: int| 0 <= j < t.len() implies is_hex_digit(#[trigger] t[j]) by {
            assert(t[j] == s[j + from]);
        }
    }
    true
}

/// Whether `s` is a decimal numeral: at least one character, and decimal
/// digits only.
pub fn is_decimal_numeral(s: &str) -> (b: bool)
    ensures
        b == (s@.len() > 0 && all_dec_digits(s@)),
{
    let Some(bytes) = ascii_bytes(s) else {
        proof {
            if all_dec_digits(s@) {
                lemma_dec_digits_are_hex(s@);
                lemma_hex_digits_are_ascii(s@);
            }
        }
        return false;
    };
    if bytes.len() == 0 {
        return false;
    }
    assert(s@.skip(0) =~= s@);
    all_dec_digits_from(bytes, 0, Ghost(s@))
}

/// The one-character text of a decimal digit.
fn digit_text(d: u64) -> (r: &'static str)
    requires
        d < 10,
    ensures
        r@ == seq![digit_char(d as int)],
{
    proof {
        reveal_strlit("0");
        reveal_strlit("1");
        reveal_strlit("2");
        reveal_strlit("3");
        reveal_strlit("4");
        reveal_strlit("5");
        reveal_strlit("6");
        reveal_strlit("7");
        reveal_strlit("8");
        reveal_strlit("9");
    }
    let r = match d {
        0 => "0",
        1 => "1",
        2 => "2",
        3 => "3",
        4 => "4",
        5 => "5",
        6 => "6",
        7 => "7",
        8 => "8",
        _ => "9",
    };
    assert(r@ =~= seq![digit_char(d as int)]);
    r
}

/// The decimal numeral of `n`, without leading zeros.
pub fn decimal_text(n: u64) -> (r: String)
    ensures
        r@ == dec_text(n as nat),
    decreases n,
{
    if n < 10 {
        digit_text(n).to_owned()
    } else {
        let mut r = decimal_text(n / 10);
        r.append(digit_text(n % 10));
        assert(r@ =~= dec_text((n / 10) as nat).push(digit_char((n % 10) as int)));
        r
    }
}

/// The decimal numeral of a number is made of decimal digits, begins with
/// `0` only if it is `0` itself, and writes that number.
pub proof fn lemma_dec_text(n: nat)
    ensures
        dec_text(n).len() > 0,
        all_dec_digits(dec_text(n)),
        dec_value(dec_text(n)) == n,
        dec_text(n)[0] == '0' ==> n == 0,
        n == 0 ==> dec_text(n) == seq!['0'],
        !has_hex_prefix(dec_text(n)),
    decreases n,
{
    let t = dec_text(n);
    if n < 10 {
        lemma_digit_char_value(n as int);
        assert(t.drop_last().len() == 0);
        assert(t.last() == digit_char(n as int));
        assert(dec_value(t) == dec_value(t.drop_last()) * 10 + digit_value(t.last()));
        assert(dec_value(t.drop_last()) == 0);
    } else {
        let q = dec_text(n / 10);
        lemma_dec_text(n / 10);
        lemma_digit_char_value((n % 10) as int);
        assert(t.drop_last() =~= q);
        assert(t.last() == digit_char((n % 10) as int));
        assert(t[0] == q[0]);
        assert forall|i: int| 0 <= i < t.len() implies is_dec_digit(#[trigger] t[i]) by {
            if i < q.len() {
                assert(t[i] == q[i]);
            }
        }
        assert(t.len() >= 2);
        assert(is_dec_digit(t[1]));
    }
}

/// A hexadecimal digit is the lower-case digit of its value exactly when it
/// is no upper-case letter, and its value is below sixteen.
pub proof fn lemma_digit_round_trip(c: char)
    requires
        is_hex_digit(c),
    ensures
        digit_value(c) < 16,
        is_lower_hex_digit(digit_char(digit_value(c) as int)),
        digit_value(digit_char(digit_value(c) as int)) == digit_value(c),
        is_lower_hex_digit(c) ==> digit_char(digit_value(c) as int) == c,
{
}

/// The digit of a number below sixteen is a lower-case hexadecimal digit
/// with that value.
pub proof fn lemma_digit_char_value(v: int)
    requires
        0 <= v < 16,
    ensures
        is_lower_hex_digit(digit_char(v)),
        digit_value(digit_char(v)) == v,
        v < 10 ==> is_dec_digit(digit_char(v)),
{
}

/// Writing bytes in hexadecimal and reading the text back gives the bytes.
pub proof fn lemma_hex_bytes_of_text(bytes: Seq<u8>)
    ensures
        lower_hex_text(bytes).len() == 2 * bytes.len(),
        all_lower_hex_digits(lower_hex_text(bytes)),
        all_hex_digits(lower_hex_text(bytes)),
        hex_bytes(lower_hex_text(bytes)) == bytes,
{
    let t = lower_hex_text(bytes);
    assert forall|i: int| 0 <= i < t.len() implies is_lower_hex_digit(#[trigger] t[i])
        && is_hex_digit(t[i]) by {
        let b = bytes[i / 2] as int;
        lemma_digit_char_value(b / 16);
        lemma_digit_char_value(b % 16);
    }
    assert forall|i: int| 0 <= i < bytes.len() implies #[trigger] hex_bytes(t)[i] == bytes[i] by {
        let b = bytes[i] as int;
        lemma_digit_char_value(b / 16);
        lemma_digit_char_value(b % 16);
        assert((2 * i) / 2 == i && (2 * i) % 2 == 0);
        assert((2 * i + 1) / 2 == i && (2 * i + 1) % 2 == 1);
        assert(t[2 * i] == digit_char(b / 16));
        assert(t[2 * i + 1] == digit_char(b % 16));
        assert((b / 16) * 16 + b % 16 == b);
    }
    assert(hex_bytes(t) =~= bytes);
}

/// Reading an even number of hexadecimal digits as bytes and writing the
/// bytes back gives the digits in lower case: the same text, if it held no
/// upper-case letter.
pub proof fn lemma_text_of_hex_bytes(s: Seq<char>)
    requires
        s.len() % 2 == 0,
        all_hex_digits(s),
    ensures
        lower_hex_text(hex_bytes(s)) == lower_cased_hex(s),
        all_lower_hex_digits(s) ==> lower_hex_text(hex_bytes(s)) == s,
{
    let b = hex_bytes(s);
    let t = lower_hex_text(b);
    assert(t.len() == s.len());
    assert forall|i: int| 0 <= i < s.len() implies #[trigger] t[i] == lower_cased_hex(s)[i] by {
        let k = i / 2;
        let hi = s[2 * k];
        let lo = s[2 * k + 1];
        assert(is_hex_digit(hi) && is_hex_digit(lo));
        lemma_digit_round_trip(hi);
        lemma_digit_round_trip(lo);
        let v = digit_value(hi) * 16 + digit_value(lo);
        assert(v < 256);
        assert(b[k] == v as u8);
        assert(v / 16 == digit_value(hi) && v % 16 == digit_value(lo));
        if i % 2 == 0 {
            assert(i == 2 * k);
        } else {
            assert(i == 2 * k + 1);
        }
    }
    assert(t =~= lower_cased_hex(s));
    if all_lower_hex_digits(s) {
        assert forall|i: int| 0 <= i < s.len() implies lower_cased_hex(s)[i] == s[i] by {
            assert(is_lower_hex_digit(s[i]));
            lemma_digit_round_trip(s[i]);
        }
        assert(lower_cased_hex(s) =~= s);
    }
}

} // verus!
