//! Text representations of addresses and amounts, and metadata validation.
//!
//! Addresses travel as 40 hexadecimal digits and denote 20 raw bytes; amounts
//! travel as base-10 text and denote 128-bit unsigned integers. Both decoders
//! are exact: they state precisely which inputs succeed and what value they
//! denote. Hexadecimal decoding is delegated to the `hex` crate behind a
//! trusted wrapper; everything around it is verified.

use crate::error::Error;
use vstd::prelude::*;
use vstd::string::StringSliceAdditionalSpecFns;

verus! {

/// An ASCII hexadecimal digit, either case.
pub open spec fn is_hex_digit(b: u8) -> bool {
    (48 <= b && b <= 57) || (65 <= b && b <= 70) || (97 <= b && b <= 102)
}

/// The value of one hexadecimal digit.
pub open spec fn hex_val(b: u8) -> u8 {
    if 48 <= b && b <= 57 {
        (b - 48) as u8
    } else if 65 <= b && b <= 70 {
        (b - 55) as u8
    } else {
        (b - 87) as u8
    }
}

/// Well-formed address text: exactly 40 hexadecimal digits (UTF-8 bytes).
pub open spec fn addr_hex_ok(s: Seq<u8>) -> bool {
    s.len() == 40 && forall|i: int| 0 <= i < s.len() ==> is_hex_digit(#[trigger] s[i])
}

/// The bytes denoted by hexadecimal text, one byte per digit pair.
pub open spec fn hex_decoded(s: Seq<u8>) -> Seq<u8> {
    Seq::new(s.len() / 2, |i: int| (hex_val(s[2 * i]) * 16 + hex_val(s[2 * i + 1])) as u8)
}

/// The lowercase digit encoding one value below 16.
pub open spec fn hex_digit_of(n: u8) -> u8 {
    if n < 10 {
        (48 + n) as u8
    } else {
        (87 + n) as u8
    }
}

/// The lowercase hexadecimal text encoding a byte string, two digits per byte.
pub open spec fn hex_encoded(b: Seq<u8>) -> Seq<u8> {
    Seq::new(
        2 * b.len(),
        |i: int|
            if i % 2 == 0 {
                hex_digit_of(b[i / 2] / 16)
            } else {
                hex_digit_of(b[i / 2] % 16)
            },
    )
}

/// Error type of the `hex` crate; any decode failure of an address maps to
/// [`Error::InvalidAddress`], so its contents are never read.
#[verifier::external_type_specification]
#[verifier::external_body]
pub struct ExFromHexError(hex::FromHexError);

/// Relies on `hex::decode_to_slice`: it fills the 20-byte output iff the
/// input is exactly 40 hexadecimal digits (bytes `0`-`9`, `a`-`f`, `A`-`F`),
/// writing for each digit pair the byte `16 * high + low`, and returns an
/// error on any other length or byte.
#[verifier::external_body]
fn hex_decode_20(data: &str) -> (r: Result<Vec<u8>, hex::FromHexError>)
    ensures
        match r {
            Ok(v) => addr_hex_ok(data.spec_bytes()) && v@ == hex_decoded(data.spec_bytes()),
            Err(_) => !addr_hex_ok(data.spec_bytes()),
        },
{
    let mut out = [0u8; 20];
    match hex::decode_to_slice(data, &mut out as &mut [u8]) {
        Ok(()) => Ok(out.to_vec()),
        Err(e) => Err(e),
    }
}

/// Decode address text into its 20 raw bytes, or reject it.
pub fn parse_20bytes_from_hex(data: &str) -> (r: Result<Vec<u8>, Error>)
    ensures
        match r {
            Ok(v) => addr_hex_ok(data.spec_bytes()) && v@ == hex_decoded(data.spec_bytes())
                && v@.len() == 20,
            Err(e) => !addr_hex_ok(data.spec_bytes()) && e == Error::InvalidAddress,
        },
{
    match hex_decode_20(data) {
        Ok(v) => Ok(v),
        Err(_) => Err(Error::InvalidAddress),
    }
}

fn hex_digit(n: u8) -> (d: u8)
    requires
        n < 16,
    ensures
        d == hex_digit_of(n),
{
    if n < 10 {
        48 + n
    } else {
        87 + n
    }
}

/// Encode a byte string as lowercase hexadecimal text (as ASCII bytes).
pub fn encode_hex(bytes: &Vec<u8>) -> (out: Vec<u8>)
    ensures
        out@ == hex_encoded(bytes@),
{
    let mut out: Vec<u8> = Vec::new();
    let mut i: usize = 0;
    while i < bytes.len()
        invariant
            0 <= i <= bytes@.len(),
            out@ =~= hex_encoded(bytes@).take(2 * i as int),
        decreases bytes@.len() - i,
    {
        let b = bytes[i];
        out.push(hex_digit(b / 16));
        out.push(hex_digit(b % 16));
        proof {
            assert(out@ =~= hex_encoded(bytes@).take(2 * (i + 1) as int));
        }
        i = i + 1;
    }
    proof {
        assert(hex_encoded(bytes@).take(2 * bytes@.len() as int) =~= hex_encoded(bytes@));
    }
    out
}

/// Each value below 16 is recovered from the digit that encodes it.
proof fn lemma_hex_digit_round_trip(n: u8)
    requires
        n < 16,
    ensures
        is_hex_digit(hex_digit_of(n)),
        hex_val(hex_digit_of(n)) == n,
{
}

/// Hex-encoding any byte string and decoding the result yields the original
/// bytes; on 20-byte values the encoding is well-formed address text.
pub proof fn lemma_hex_round_trip(b: Seq<u8>)
    ensures
        hex_encoded(b).len() == 2 * b.len(),
        forall|i: int| 0 <= i < 2 * b.len() ==> is_hex_digit(#[trigger] hex_encoded(b)[i]),
        hex_decoded(hex_encoded(b)) =~= b,
        b.len() == 20 ==> addr_hex_ok(hex_encoded(b)),
{
    let e = hex_encoded(b);
    assert forall|i: int| 0 <= i < 2 * b.len() implies is_hex_digit(#[trigger] e[i]) by {
        if i % 2 == 0 {
            lemma_hex_digit_round_trip(b[i / 2] / 16);
        } else {
            lemma_hex_digit_round_trip(b[i / 2] % 16);
        }
    }
    assert forall|i: int| 0 <= i < b.len() implies hex_decoded(e)[i] == b[i] by {
        assert(e[2 * i] == hex_digit_of(b[i] / 16));
        assert(e[2 * i + 1] == hex_digit_of(b[i] % 16));
        lemma_hex_digit_round_trip(b[i] / 16);
        lemma_hex_digit_round_trip(b[i] % 16);
        assert(hex_val(e[2 * i]) * 16 + hex_val(e[2 * i + 1]) == (b[i] / 16) * 16 + b[i] % 16);
    }
}

/// An ASCII decimal digit.
pub open spec fn is_dec_digit(b: u8) -> bool {
    48 <= b && b <= 57
}

/// Well-formed amount text up to range: at least one byte, all digits.
pub open spec fn dec_digits_ok(s: Seq<u8>) -> bool {
    s.len() >= 1 && forall|i: int| 0 <= i < s.len() ==> is_dec_digit(#[trigger] s[i])
}

/// The number denoted by decimal digit text.
pub open spec fn dec_val(s: Seq<u8>) -> nat
    decreases s.len(),
{
    if s.len() == 0 {
        0
    } else {
        (dec_val(s.drop_last()) * 10 + (s.last() - 48)) as nat
    }
}

/// Well-formed amount text: decimal digits denoting a 128-bit value.
pub open spec fn dec_ok(s: Seq<u8>) -> bool {
    dec_digits_ok(s) && dec_val(s) <= u128::MAX
}

proof fn lemma_dec_val_step(s: Seq<u8>, i: int)
    requires
        0 <= i < s.len(),
        is_dec_digit(s[i]),
    ensures
        dec_val(s.take(i + 1)) == dec_val(s.take(i)) * 10 + (s[i] - 48),
{
    assert(s.take(i + 1).drop_last() =~= s.take(i));
    assert(s.take(i + 1).last() == s[i]);
}

proof fn lemma_dec_val_prefix_le(s: Seq<u8>, i: int)
    requires
        0 <= i <= s.len(),
        forall|j: int| 0 <= j < s.len() ==> is_dec_digit(#[trigger] s[j]),
    ensures
        dec_val(s.take(i)) <= dec_val(s),
    decreases s.len() - i,
{
    if i == s.len() {
        assert(s.take(i) =~= s);
    } else {
        lemma_dec_val_step(s, i);
        assert(dec_val(s.take(i)) * 10 >= dec_val(s.take(i))) by (nonlinear_arith);
        lemma_dec_val_prefix_le(s, i + 1);
    }
}

/// Decode amount text into the 128-bit value it denotes, or reject it.
pub fn parse_u128(decimal: &str) -> (r: Result<u128, Error>)
    ensures
        match r {
            Ok(v) => dec_ok(decimal.spec_bytes()) && v as nat == dec_val(decimal.spec_bytes()),
            Err(e) => !dec_ok(decimal.spec_bytes()) && e == Error::InvalidAmount,
        },
{
    let bytes = decimal.as_bytes();
    let ghost s = decimal.spec_bytes();
    if bytes.len() == 0 {
        return Err(Error::InvalidAmount);
    }
    let mut acc: u128 = 0;
    let mut i: usize = 0;
    while i < bytes.len()
        invariant
            0 <= i <= s.len(),
            s == decimal.spec_bytes(),
            bytes@ == s,
            s.len() >= 1,
            forall|j: int| 0 <= j < i ==> is_dec_digit(#[trigger] s[j]),
            acc as nat == dec_val(s.take(i as int)),
        decreases s.len() - i,
    {
        let b = bytes[i];
        if b < 48 || b > 57 {
            return Err(Error::InvalidAmount);
        }
        proof {
            lemma_dec_val_step(s, i as int);
        }
        let digit = (b - 48) as u128;
        match acc.checked_mul(10) {
            Some(m) => match m.checked_add(digit) {
                Some(n) => {
                    acc = n;
                },
                None => {
                    proof {
                        lemma_overflow_means_out_of_range(s, i as int, acc);
                    }
                    return Err(Error::InvalidAmount);
                },
            },
            None => {
                proof {
                    lemma_overflow_means_out_of_range(s, i as int, acc);
                }
                return Err(Error::InvalidAmount);
            },
        }
        i = i + 1;
    }
    proof {
        assert(s.take(s.len() as int) =~= s);
    }
    Ok(acc)
}

/// If the running value already left 128 bits at position `i`, the whole
/// text cannot denote a 128-bit value.
proof fn lemma_overflow_means_out_of_range(s: Seq<u8>, i: int, acc: u128)
    requires
        0 <= i < s.len(),
        is_dec_digit(s[i]),
        acc as nat == dec_val(s.take(i)),
        acc as nat * 10 + (s[i] - 48) > u128::MAX,
    ensures
        !dec_ok(s),
{
    if dec_digits_ok(s) {
        lemma_dec_val_step(s, i);
        lemma_dec_val_prefix_le(s, i + 1);
    }
}

/// Well-formed token name: 3 to 30 UTF-8 bytes.
pub open spec fn valid_name(s: Seq<u8>) -> bool {
    3 <= s.len() && s.len() <= 30
}

/// Well-formed ticker symbol: 3 to 6 bytes, all ASCII uppercase letters.
pub open spec fn valid_symbol(s: Seq<u8>) -> bool {
    3 <= s.len() && s.len() <= 6 && forall|i: int|
        0 <= i < s.len() ==> 65 <= #[trigger] s[i] && s[i] <= 90
}

/// Accept a token name iff its UTF-8 byte length is 3 to 30.
pub fn is_valid_name(name: &str) -> (r: bool)
    ensures
        r == valid_name(name.spec_bytes()),
{
    let bytes = name.as_bytes();
    let n = bytes.len();
    n >= 3 && n <= 30
}

/// Accept a ticker symbol iff it is 3 to 6 ASCII uppercase letters.
pub fn is_valid_symbol(symbol: &str) -> (r: bool)
    ensures
        r == valid_symbol(symbol.spec_bytes()),
{
    let bytes = symbol.as_bytes();
    if bytes.len() < 3 || bytes.len() > 6 {
        return false;
    }
    let mut i: usize = 0;
    while i < bytes.len()
        invariant
            0 <= i <= bytes@.len(),
            bytes@ == symbol.spec_bytes(),
            3 <= bytes@.len() && bytes@.len() <= 6,
            forall|j: int| 0 <= j < i ==> 65 <= #[trigger] bytes@[j] && bytes@[j] <= 90,
        decreases bytes@.len() - i,
    {
        let b = bytes[i];
        if b < 65 || b > 90 {
            return false;
        }
        i = i + 1;
    }
    true
}

} // verus!
