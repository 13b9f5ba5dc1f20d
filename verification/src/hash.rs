//! Hashes, addresses and byte strings, and the hexadecimal texts the
//! explorer writes them in.
//!
//! A hash is 32 bytes and an address 20. Their text is `0x` followed by
//! exactly two hexadecimal digits for each byte, in either case; written
//! back, the digits are in lower case.

use crate::digits::{
    all_hex_digits, all_hex_digits_from, all_lower_hex_digits, ascii_bytes, has_hex_prefix,
    hex_bytes, lemma_hex_bytes_of_text, lemma_hex_digits_are_ascii, lemma_text_of_hex_bytes,
    lower_cased_hex, lower_hex_text,
};
use vstd::prelude::*;

verus! {

/// Whether `s` is `0x` followed by exactly `2 * n` hexadecimal digits.
pub open spec fn is_fixed_hex(s: Seq<char>, n: nat) -> bool {
    has_hex_prefix(s) && s.len() == 2 + 2 * n && all_hex_digits(s.skip(2))
}

/// The `n` bytes that the text `s` writes, if it is `0x` and `2 * n`
/// hexadecimal digits.
pub open spec fn fixed_hex_value(s: Seq<char>, n: nat) -> Option<Seq<u8>> {
    if is_fixed_hex(s, n) {
        Some(hex_bytes(s.skip(2)))
    } else {
        None
    }
}

/// The text of `bytes`: `0x`, then two lower-case hexadecimal digits for each
/// byte.
pub open spec fn prefixed_hex_text(bytes: Seq<u8>) -> Seq<char> {
    seq!['0', 'x'] + lower_hex_text(bytes)
}

/// The digits of a byte string's text: what follows the prefix `0x` or `0X`
/// if there is one, else the whole text.
pub open spec fn data_digits(s: Seq<char>) -> Seq<char> {
    if s.len() >= 2 && s[0] == '0' && (s[1] == 'x' || s[1] == 'X') {
        s.skip(2)
    } else {
        s
    }
}

/// The bytes that the text `s` writes, if it is an even number of
/// hexadecimal digits, with or without a prefix. No digits at all write the
/// empty byte string.
pub open spec fn data_value(s: Seq<char>) -> Option<Seq<u8>> {
    let d = data_digits(s);
    if d.len() % 2 == 0 && all_hex_digits(d) {
        Some(hex_bytes(d))
    } else {
        None
    }
}

/// A 32-byte hash.
#[derive(Clone, Copy, Debug, PartialEq, Eq, Hash)]
pub struct H256(pub [u8; 32]);

/// A 20-byte account address.
#[derive(Clone, Copy, Debug, PartialEq, Eq, Hash)]
pub struct Address(pub [u8; 20]);

impl View for H256 {
    type V = Seq<u8>;

    open spec fn view(&self) -> Seq<u8> {
        self.0@
    }
}

impl View for Address {
    type V = Seq<u8>;

    open spec fn view(&self) -> Seq<u8> {
        self.0@
    }
}

/// `FromStr` of `ethers_core`'s `H256`, on `0x` and 64 hexadecimal digits.
/// The outside function drops the prefix and decodes the digits two by two,
/// in either case, into the 32 bytes in the order written.
#[verifier::external_body]
fn h256_from_text(s: &str) -> (r: Option<H256>)
    requires
        is_fixed_hex(s@, 32),
    ensures
        r is Some,
        r matches Some(h) ==> h@ == hex_bytes(s@.skip(2)),
{
    match s.parse::<ethers_core::types::H256>() {
        Ok(h) => Some(H256(h.0)),
        Err(_) => None,
    }
}

/// `FromStr` of `ethers_core`'s `Address`, on `0x` and 40 hexadecimal
/// digits. The outside function drops the prefix and decodes the digits two
/// by two, in either case, into the 20 bytes in the order written.
#[verifier::external_body]
fn address_from_text(s: &str) -> (r: Option<Address>)
    requires
        is_fixed_hex(s@, 20),
    ensures
        r is Some,
        r matches Some(a) ==> a@ == hex_bytes(s@.skip(2)),
{
    match s.parse::<ethers_core::types::Address>() {
        Ok(a) => Some(Address(a.0)),
        Err(_) => None,
    }
}

/// `Debug` of `ethers_core`'s `H256`, which writes `0x` and then each of the
/// 32 bytes as two lower-case hexadecimal digits.
#[verifier::external_body]
fn h256_to_text(h: &H256) -> (r: String)
    ensures
        r@ == prefixed_hex_text(h@),
{
    format!("{:?}", ethers_core::types::H256(h.0))
}

/// `Debug` of `ethers_core`'s `Address` (its `H160`), which writes `0x` and then each of
/// the 20 bytes as two lower-case hexadecimal digits.
#[verifier::external_body]
fn address_to_text(a: &Address) -> (r: String)
    ensures
        r@ == prefixed_hex_text(a@),
{
    format!("{:?}", ethers_core::types::H160(a.0))
}

/// `FromStr` of `ethers_core`'s `Bytes`, on an even number of hexadecimal
/// digits with or without the prefix `0x` or `0X`. The outside function
/// drops the prefix and decodes the digits two by two, in either case, into
/// bytes in the order written.
#[verifier::external_body]
fn bytes_from_text(s: &str) -> (r: Option<Vec<u8>>)
    requires
        data_value(s@) is Some,
    ensures
        r is Some,
        r matches Some(v) ==> v@ == hex_bytes(data_digits(s@)),
{
    match s.parse::<ethers_core::types::Bytes>() {
        Ok(b) => Some(b.to_vec()),
        Err(_) => None,
    }
}

/// Whether `s` is `0x` followed by exactly `2 * n` hexadecimal digits.
fn is_prefixed_hex_of(s: &str, n: usize) -> (b: bool)
    requires
        2 + 2 * n <= usize::MAX,
    ensures
        b == is_fixed_hex(s@, n as nat),
{
    let Some(bytes) = ascii_bytes(s) else {
        proof {
            if is_fixed_hex(s@, n as nat) {
                lemma_hex_digits_are_ascii(s@.skip(2));
                assert forall|i: int| 0 <= i < s@.len() implies '\0' <= #[trigger] s@[i]
                    <= '\u{7f}' by {
                    if i >= 2 {
                        assert(s@[i] == s@.skip(2)[i - 2]);
                    }
                }
            }
        }
        return false;
    };
    if bytes.len() != 2 + 2 * n {
        return false;
    }
    if bytes[0] != 0x30 || bytes[1] != 0x78 {
        return false;
    }
    all_hex_digits_from(bytes, 2, Ghost(s@))
}

impl H256 {
    /// Reads a hash from its text. `None` unless the text is `0x` followed
    /// by exactly 64 hexadecimal digits.
    pub fn parse(s: &str) -> (r: Option<H256>)
        ensures
            match r {
                Some(h) => fixed_hex_value(s@, 32) == Some(h@),
                None => fixed_hex_value(s@, 32) is None,
            },
    {
        if is_prefixed_hex_of(s, 32) {
            h256_from_text(s)
        } else {
            None
        }
    }

    /// The text of the hash: `0x` and 64 lower-case hexadecimal digits.
    pub fn to_text(&self) -> (r: String)
        ensures
            r@ == prefixed_hex_text(self@),
    {
        h256_to_text(self)
    }
}

impl Address {
    /// Reads an address from its text. `None` unless the text is `0x`
    /// followed by exactly 40 hexadecimal digits.
    pub fn parse(s: &str) -> (r: Option<Address>)
        ensures
            match r {
                Some(a) => fixed_hex_value(s@, 20) == Some(a@),
                None => fixed_hex_value(s@, 20) is None,
            },
    {
        if is_prefixed_hex_of(s, 20) {
            address_from_text(s)
        } else {
            None
        }
    }

    /// The text of the address: `0x` and 40 lower-case hexadecimal digits.
    pub fn to_text(&self) -> (r: String)
        ensures
            r@ == prefixed_hex_text(self@),
    {
        address_to_text(self)
    }
}

/// Reads a byte string from its text: an even number of hexadecimal digits,
/// with or without the prefix `0x` or `0X`. `None` for any other text.
pub fn parse_data(s: &str) -> (r: Option<Vec<u8>>)
    ensures
        match r {
            Some(v) => data_value(s@) == Some(v@),
            None => data_value(s@) is None,
        },
{
    let Some(bytes) = ascii_bytes(s) else {
        proof {
            let d = data_digits(s@);
            if all_hex_digits(d) {
                lemma_hex_digits_are_ascii(d);
                assert forall|i: int| 0 <= i < s@.len() implies '\0' <= #[trigger] s@[i]
                    <= '\u{7f}' by {
                    if d.len() == s@.len() {
                        assert(s@[i] == d[i]);
                    } else if i >= 2 {
                        assert(s@[i] == s@.skip(2)[i - 2]);
                    }
                }
            }
        }
        return None;
    };
    let n: usize = bytes.len();
    let from: usize = if n >= 2 && bytes[0] == 0x30 && (bytes[1] == 0x78 || bytes[1] == 0x58) {
        2
    } else {
        0
    };
    assert(data_digits(s@) =~= s@.skip(from as int));
    if (n - from) % 2 != 0 {
        return None;
    }
    if !all_hex_digits_from(bytes, from, Ghost(s@)) {
        return None;
    }
    bytes_from_text(s)
}

/// Decoding then encoding: a text of `n` bytes decodes to bytes whose text
/// is the one decoded, with its digits in lower case. A text that holds no
/// upper-case digit comes back unchanged.
pub proof fn lemma_text_round_trip(s: Seq<char>, n: nat)
    requires
        is_fixed_hex(s, n),
    ensures
        fixed_hex_value(s, n) is Some,
        fixed_hex_value(s, n)->Some_0.len() == n,
        prefixed_hex_text(fixed_hex_value(s, n)->Some_0) == seq!['0', 'x'] + lower_cased_hex(
            s.skip(2),
        ),
        all_lower_hex_digits(s.skip(2)) ==> prefixed_hex_text(fixed_hex_value(s, n)->Some_0) == s,
{
    let d = s.skip(2);
    lemma_text_of_hex_bytes(d);
    if all_lower_hex_digits(d) {
        assert(seq!['0', 'x'] + d =~= s);
    }
}

/// Encoding then decoding: the text of `n` bytes is `0x` and `2 * n`
/// lower-case hexadecimal digits, and decodes to the same bytes.
pub proof fn lemma_bytes_round_trip(bytes: Seq<u8>)
    ensures
        is_fixed_hex(prefixed_hex_text(bytes), bytes.len()),
        all_lower_hex_digits(prefixed_hex_text(bytes).skip(2)),
        fixed_hex_value(prefixed_hex_text(bytes), bytes.len()) == Some(bytes),
{
    lemma_hex_bytes_of_text(bytes);
    assert(prefixed_hex_text(bytes).skip(2) =~= lower_hex_text(bytes));
}

} // verus!
