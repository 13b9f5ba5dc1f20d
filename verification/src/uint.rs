//! Unsigned 256-bit integers, and the numerals the explorer writes them in.
//!
//! A numeral is hexadecimal if and only if it begins with `0x`; any other
//! text is read in base ten. The base is never guessed from the digits.

use crate::digits::{
    all_dec_digits, all_dec_digits_from, all_hex_digits, all_hex_digits_from, ascii_bytes,
    bytes_spell, dec_text, dec_value, digit_value, has_hex_prefix, hex_value, is_dec_digit,
    is_hex_digit, lemma_dec_digits_are_hex, lemma_dec_text, lemma_hex_digits_are_ascii, pow16,
};
use vstd::prelude::*;

verus! {

/// Two to the power 256: the first number that a `U256` cannot hold.
pub open spec fn u256_span() -> nat {
    0x1_0000_0000_0000_0000_0000_0000_0000_0000_0000_0000_0000_0000_0000_0000_0000_0000nat
}

/// The number held by four 64-bit words, least significant first.
pub open spec fn words_value(w: Seq<u64>) -> nat {
    (w[0] as nat) + (w[1] as nat) * 0x1_0000_0000_0000_0000nat + (w[2] as nat)
        * 0x1_0000_0000_0000_0000_0000_0000_0000_0000nat + (w[3] as nat)
        * 0x1_0000_0000_0000_0000_0000_0000_0000_0000_0000_0000_0000_0000nat
}

/// An unsigned 256-bit integer, as four 64-bit words, least significant
/// first. Every choice of words is a number, and every number below two to
/// the 256 has exactly one choice of words.
#[derive(Clone, Copy, Debug, PartialEq, Eq, Hash)]
pub struct U256(pub [u64; 4]);

impl View for U256 {
    type V = nat;

    open spec fn view(&self) -> nat {
        words_value(self.0@)
    }
}

/// The number that the numeral `s` writes, if it is a numeral of a number
/// below two to the 256. With the prefix `0x` the rest is read in base
/// sixteen, and any other text in base ten; in both bases at least one digit
/// is needed, and nothing but digits is accepted.
pub open spec fn numeral_value(s: Seq<char>) -> Option<nat> {
    if has_hex_prefix(s) {
        let d = s.skip(2);
        if d.len() > 0 && all_hex_digits(d) && hex_value(d) < u256_span() {
            Some(hex_value(d))
        } else {
            None
        }
    } else if s.len() > 0 && all_dec_digits(s) && dec_value(s) < u256_span() {
        Some(dec_value(s))
    } else {
        None
    }
}

/// The number that `s` writes in base ten, if `s` is a decimal numeral of a
/// number below two to the 256.
pub open spec fn decimal_value(s: Seq<char>) -> Option<nat> {
    if s.len() > 0 && all_dec_digits(s) && dec_value(s) < u256_span() {
        Some(dec_value(s))
    } else {
        None
    }
}

/// `U256::from_dec_str` of `ethers_core`, on a text of decimal digits.
/// It multiplies by ten and adds digit by digit, and fails as soon as the
/// number no longer fits in 256 bits: so it succeeds exactly when the number
/// written is below two to the 256, and then returns that number. The words
/// of the outside type are taken as they are, least significant first.
#[verifier::external_body]
fn u256_from_dec_digits(s: &str) -> (r: Option<U256>)
    requires
        all_dec_digits(s@),
    ensures
        r is Some <==> dec_value(s@) < u256_span(),
        r matches Some(v) ==> v@ == dec_value(s@),
{
    match ethers_core::types::U256::from_dec_str(s) {
        Ok(v) => Some(U256(v.0)),
        Err(_) => None,
    }
}

/// `U256::from_str_radix` of `ethers_core` with radix 16, on a text of one to
/// 64 hexadecimal digits without prefix. Such a text is at most 32 bytes
/// long, which the outside function decodes, digits of either case, and
/// reads as a big-endian number: it returns the number written. The words of
/// the outside type are taken as they are, least significant first.
#[verifier::external_body]
fn u256_from_hex_digits(s: &str) -> (r: Option<U256>)
    requires
        1 <= s@.len() <= 64,
        all_hex_digits(s@),
    ensures
        r is Some,
        r matches Some(v) ==> v@ == hex_value(s@),
{
    match ethers_core::types::U256::from_str_radix(s, 16) {
        Ok(v) => Some(U256(v.0)),
        Err(_) => None,
    }
}

/// Sixteen to the power `a + b` is the product of the two powers.
pub proof fn lemma_pow16_add(a: nat, b: nat)
    ensures
        pow16(a + b) == pow16(a) * pow16(b),
    decreases a,
{
    if a == 0 {
        assert(pow16(a) == 1);
        assert(a + b == b);
        assert(1 * pow16(b) == pow16(b));
    } else {
        let a1 = (a - 1) as nat;
        lemma_pow16_add(a1, b);
        assert((a + b - 1) as nat == a1 + b);
        assert(pow16(a + b) == 16 * pow16(a1 + b));
        assert(pow16(a) == 16 * pow16(a1));
        let x = pow16(a1);
        let y = pow16(b);
        assert(16 * (x * y) == (16 * x) * y) by (nonlinear_arith);
    }
}

/// Sixteen to the power 64 is two to the power 256.
pub proof fn lemma_pow16_64()
    ensures
        pow16(64) == u256_span(),
{
    assert(pow16(1) == 16) by {
        reveal_with_fuel(pow16, 2);
    }
    lemma_pow16_add(1, 1);
    assert(pow16(2) == 0x100) by {
        assert(pow16(2) == pow16(1) * pow16(1));
    }
    lemma_pow16_add(2, 2);
    assert(pow16(4) == 0x1_0000) by {
        assert(pow16(4) == pow16(2) * pow16(2));
    }
    lemma_pow16_add(4, 4);
    assert(pow16(8) == 0x1_0000_0000) by {
        assert(pow16(8) == pow16(4) * pow16(4));
    }
    lemma_pow16_add(8, 8);
    assert(pow16(16) == 0x1_0000_0000_0000_0000) by {
        assert(pow16(16) == pow16(8) * pow16(8));
    }
    lemma_pow16_add(16, 16);
    assert(pow16(32) == 0x1_0000_0000_0000_0000_0000_0000_0000_0000) by {
        assert(pow16(32) == pow16(16) * pow16(16));
    }
    lemma_pow16_add(32, 32);
    assert(pow16(64) == pow16(32) * pow16(32));
}

/// The powers of sixteen do not decrease.
pub proof fn lemma_pow16_monotonic(a: nat, b: nat)
    requires
        a <= b,
    ensures
        pow16(a) <= pow16(b),
        pow16(a) >= 1,
    decreases b,
{
    if a == 0 {
        if b > 0 {
            lemma_pow16_monotonic(0, (b - 1) as nat);
        }
    } else {
        lemma_pow16_monotonic((a - 1) as nat, (b - 1) as nat);
    }
}

/// A digit string that does not begin with `0` writes, in base sixteen, a
/// number of at least sixteen to the power of its length less one.
pub proof fn lemma_hex_value_lower_bound(s: Seq<char>)
    requires
        s.len() > 0,
        all_hex_digits(s),
        s[0] != '0',
    ensures
        hex_value(s) >= pow16((s.len() - 1) as nat),
    decreases s.len(),
{
    assert(is_hex_digit(s[0]));
    if s.len() == 1 {
        assert(s.last() == s[0]);
        assert(s.drop_last().len() == 0);
        assert(hex_value(s) == hex_value(s.drop_last()) * 16 + digit_value(s.last()));
        assert(hex_value(s.drop_last()) == 0);
        assert(digit_value(s[0]) >= 1);
    } else {
        let t = s.drop_last();
        assert(t[0] == s[0]);
        assert forall|i: int| 0 <= i < t.len() implies is_hex_digit(#[trigger] t[i]) by {
            assert(t[i] == s[i]);
        }
        lemma_hex_value_lower_bound(t);
        assert(pow16((s.len() - 1) as nat) == 16 * pow16((s.len() - 2) as nat));
    }
}

/// Zeros in front do not change the number that hexadecimal digits write.
pub proof fn lemma_hex_value_leading_zeros(s: Seq<char>, k: nat)
    requires
        k <= s.len(),
        forall|j: int| 0 <= j < k ==> s[j] == '0',
    ensures
        hex_value(s) == hex_value(s.skip(k as int)),
    decreases s.len(),
{
    if k == 0 {
        assert(s.skip(0) =~= s);
    } else if k == s.len() {
        assert(s.skip(k as int).len() == 0);
        let t = s.drop_last();
        assert forall|j: int| 0 <= j < k - 1 implies t[j] == '0' by {
            assert(t[j] == s[j]);
        }
        lemma_hex_value_leading_zeros(t, (k - 1) as nat);
        assert(t.skip(k - 1).len() == 0);
        assert(s.last() == s[k - 1]);
    } else {
        let t = s.drop_last();
        assert forall|j: int| 0 <= j < k implies t[j] == '0' by {
            assert(t[j] == s[j]);
        }
        lemma_hex_value_leading_zeros(t, k);
        assert(t.skip(k as int) =~= s.skip(k as int).drop_last());
        assert(s.skip(k as int).last() == s.last());
    }
}

/// A numeral in base sixteen and a numeral in base ten that write the same
/// number decode alike: to that number, or neither of them where it needs
/// more than 256 bits. Zeros in front of either change nothing.
pub proof fn lemma_cross_encoding(hex: Seq<char>, dec: Seq<char>)
    requires
        has_hex_prefix(hex),
        hex.len() > 2,
        all_hex_digits(hex.skip(2)),
        dec.len() > 0,
        all_dec_digits(dec),
        hex_value(hex.skip(2)) == dec_value(dec),
    ensures
        numeral_value(hex) == numeral_value(dec),
        numeral_value(dec) == decimal_value(dec),
        dec_value(dec) < u256_span() ==> numeral_value(hex) == Some(dec_value(dec)),
{
    if dec.len() >= 2 {
        assert(is_dec_digit(dec[1]));
    }
}

/// Every number below two to the 256 has a decimal numeral, and the numeral
/// decodes to the number.
pub proof fn lemma_decimal_numeral(n: nat)
    requires
        n < u256_span(),
    ensures
        numeral_value(dec_text(n)) == Some(n),
        decimal_value(dec_text(n)) == Some(n),
{
    lemma_dec_text(n);
}

impl U256 {
    /// Zero.
    pub fn zero() -> (r: U256)
        ensures
            r@ == 0,
    {
        U256([0u64, 0u64, 0u64, 0u64])
    }

    /// The 64-bit number `n` as a `U256`.
    pub fn from_u64(n: u64) -> (r: U256)
        ensures
            r@ == n,
    {
        U256([n, 0u64, 0u64, 0u64])
    }

    /// The number as a `u64`, if it is small enough to be one.
    pub fn to_u64(&self) -> (r: Option<u64>)
        ensures
            r == (if self@ <= u64::MAX {
                Some(self@ as u64)
            } else {
                None
            }),
    {
        if self.0[1] == 0 && self.0[2] == 0 && self.0[3] == 0 {
            Some(self.0[0])
        } else {
            None
        }
    }

    /// Reads the numeral `s`: in base sixteen if it begins with `0x`, in
    /// base ten otherwise. `None` if `s` is not a numeral, or writes a number
    /// of two to the 256 or more.
    pub fn parse_numeral(s: &str) -> (r: Option<U256>)
        ensures
            match r {
                Some(v) => numeral_value(s@) == Some(v@),
                None => numeral_value(s@) is None,
            },
    {
        let Some(bytes) = ascii_bytes(s) else {
            proof {
                if has_hex_prefix(s@) {
                    if all_hex_digits(s@.skip(2)) {
                        lemma_hex_digits_are_ascii(s@.skip(2));
                        assert forall|i: int| 0 <= i < s@.len() implies '\0' <= #[trigger] s@[i]
                            <= '\u{7f}' by {
                            if i >= 2 {
                                assert(s@[i] == s@.skip(2)[i - 2]);
                            }
                        }
                    }
                } else if all_dec_digits(s@) {
                    lemma_dec_digits_are_hex(s@);
                    lemma_hex_digits_are_ascii(s@);
                }
            }
            return None;
        };
        let n: usize = bytes.len();
        if n >= 2 && bytes[0] == 0x30 && bytes[1] == 0x78 {
            assert(has_hex_prefix(s@));
            U256::parse_hex_digits(s, bytes)
        } else {
            assert(!has_hex_prefix(s@));
            U256::parse_decimal_checked(s, bytes)
        }
    }

    /// Reads the decimal numeral `s`. `None` if `s` is empty, holds anything
    /// but decimal digits, or writes a number of two to the 256 or more.
    pub fn parse_decimal(s: &str) -> (r: Option<U256>)
        ensures
            match r {
                Some(v) => decimal_value(s@) == Some(v@),
                None => decimal_value(s@) is None,
            },
    {
        let Some(bytes) = ascii_bytes(s) else {
            proof {
                if all_dec_digits(s@) {
                    lemma_dec_digits_are_hex(s@);
                    lemma_hex_digits_are_ascii(s@);
                }
            }
            return None;
        };
        U256::parse_decimal_checked(s, bytes)
    }

    /// The decimal case, once the bytes of `s` are at hand.
    fn parse_decimal_checked(s: &str, bytes: &[u8]) -> (r: Option<U256>)
        requires
            bytes_spell(bytes@, s@),
        ensures
            match r {
                Some(v) => decimal_value(s@) == Some(v@),
                None => decimal_value(s@) is None,
            },
    {
        if bytes.len() == 0 {
            return None;
        }
        assert(s@.skip(0) =~= s@);
        if !all_dec_digits_from(bytes, 0, Ghost(s@)) {
            return None;
        }
        u256_from_dec_digits(s)
    }

    /// The hexadecimal case: `s` begins with `0x`. Zeros in front are passed
    /// over; what is left writes a number below two to the 256 exactly when
    /// it has at most 64 digits.
    fn parse_hex_digits(s: &str, bytes: &[u8]) -> (r: Option<U256>)
        requires
            bytes_spell(bytes@, s@),
            has_hex_prefix(s@),
        ensures
            match r {
                Some(v) => numeral_value(s@) == Some(v@),
                None => numeral_value(s@) is None,
            },
    {
        let n: usize = bytes.len();
        if n == 2 {
            return None;
        }
        if !all_hex_digits_from(bytes, 2, Ghost(s@)) {
            return None;
        }
        let ghost d = s@.skip(2);
        let mut k: usize = 2;
        while k < n && bytes[k] == 0x30
            invariant
                2 <= k <= n,
                n == bytes@.len(),
                bytes_spell(bytes@, s@),
                forall|j: int| 2 <= j < k ==> s@[j] == '0',
            decreases n - k,
        {
            k += 1;
        }
        proof {
            assert forall|j: int| 0 <= j < k - 2 implies d[j] == '0' by {
                assert(d[j] == s@[j + 2]);
            }
            lemma_hex_value_leading_zeros(d, (k - 2) as nat);
            assert(d.skip(k - 2) =~= s@.subrange(k as int, n as int));
        }
        let ghost rest = s@.subrange(k as int, n as int);
        if k == n {
            assert(rest.len() == 0);
            return Some(U256::zero());
        }
        proof {
            assert forall|j: int| 0 <= j < rest.len() implies is_hex_digit(#[trigger] rest[j]) by {
                assert(rest[j] == d[j + k - 2]);
            }
            assert(rest[0] == s@[k as int]);
            assert(rest[0] != '0');
        }
        if n - k > 64 {
            proof {
                lemma_hex_value_lower_bound(rest);
                lemma_pow16_monotonic(64, (rest.len() - 1) as nat);
                lemma_pow16_64();
            }
            return None;
        }
        let digits = s.substring_ascii(k, n);
        u256_from_hex_digits(digits)
    }
}

} // verus!
