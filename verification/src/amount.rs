//! Fixed-width binary encoding of amounts.
//!
//! Every amount the ledger persists is a 128-bit unsigned integer stored as
//! exactly 16 big-endian bytes. `be_val` is the mathematical reading of a byte
//! string as a big-endian number, `be_bytes` the `n`-byte encoding of a
//! number; the executable codec is proved against both.

use vstd::arithmetic::div_mod::lemma_fundamental_div_mod;
use vstd::arithmetic::power::{lemma_pow_increases, lemma_pow_positive, pow};
use vstd::prelude::*;
use vstd::slice::slice_subrange;

verus! {

/// The value of a byte string read as a big-endian natural number.
pub open spec fn be_val(s: Seq<u8>) -> nat
    decreases s.len(),
{
    if s.len() == 0 {
        0
    } else {
        (be_val(s.drop_last()) * 256 + s.last()) as nat
    }
}

/// The `n`-byte big-endian encoding of `v`; high bytes come first.
pub open spec fn be_bytes(v: nat, n: nat) -> Seq<u8>
    decreases n,
{
    if n == 0 {
        Seq::empty()
    } else {
        be_bytes(v / 256, (n - 1) as nat) + seq![(v % 256) as u8]
    }
}

/// The 16-byte layout in which every balance, allowance and the total supply
/// is persisted.
pub open spec fn enc16(v: u128) -> Seq<u8> {
    be_bytes(v as nat, 16)
}

pub proof fn lemma_be_bytes_len(v: nat, n: nat)
    ensures
        be_bytes(v, n).len() == n,
    decreases n,
{
    if n > 0 {
        lemma_be_bytes_len(v / 256, (n - 1) as nat);
    }
}

pub proof fn lemma_be_val_bound(s: Seq<u8>)
    ensures
        be_val(s) < pow(256, s.len()),
    decreases s.len(),
{
    reveal(pow);
    if s.len() == 0 {
    } else {
        lemma_be_val_bound(s.drop_last());
    }
}

pub proof fn lemma_be_val_of_be_bytes(v: nat, n: nat)
    requires
        v < pow(256, n),
    ensures
        be_val(be_bytes(v, n)) == v,
    decreases n,
{
    reveal(pow);
    if n == 0 {
        assert(pow(256, 0) == 1);
    } else {
        let q = v / 256;
        let r = v % 256;
        lemma_fundamental_div_mod(v as int, 256);
        lemma_pow_positive(256, (n - 1) as nat);
        assert(pow(256, n) == 256 * pow(256, (n - 1) as nat));
        assert(q < pow(256, (n - 1) as nat)) by (nonlinear_arith)
            requires
                v == 256 * q + r,
                0 <= r,
                q >= 0,
                v < 256 * pow(256, (n - 1) as nat),
        ;
        lemma_be_val_of_be_bytes(q, (n - 1) as nat);
        lemma_be_bytes_len(q, (n - 1) as nat);
        let s = be_bytes(v, n);
        assert(s.drop_last() =~= be_bytes(q, (n - 1) as nat));
        assert(s.last() == r as u8);
        assert(be_val(s) == q * 256 + r);
    }
}

/// Value of 2^128, the first number that does not fit in a 16-byte amount.
pub proof fn lemma_pow256_16()
    ensures
        pow(256, 16) == 0x100000000000000000000000000000000,
{
    reveal_with_fuel(pow, 17);
    assert(pow(256, 16) == 0x100000000000000000000000000000000);
}

/// The 16-byte encoding of an amount reads back as that amount.
pub proof fn lemma_enc16_val(v: u128)
    ensures
        enc16(v).len() == 16,
        be_val(enc16(v)) == v as nat,
{
    lemma_pow256_16();
    lemma_be_bytes_len(v as nat, 16);
    lemma_be_val_of_be_bytes(v as nat, 16);
}

fn to_be_rec(v: u128, n: usize) -> (out: Vec<u8>)
    ensures
        out@ == be_bytes(v as nat, n as nat),
    decreases n,
{
    if n == 0 {
        let out: Vec<u8> = Vec::new();
        proof {
            assert(out@ =~= be_bytes(v as nat, 0));
        }
        out
    } else {
        let mut out = to_be_rec(v / 256, n - 1);
        out.push((v % 256) as u8);
        proof {
            assert(out@ =~= be_bytes(v as nat, n as nat));
        }
        out
    }
}

/// Encode an amount in the persisted 16-byte big-endian layout.
pub fn u128_to_be_bytes(v: u128) -> (out: Vec<u8>)
    ensures
        out@ == enc16(v),
        out@.len() == 16,
{
    let out = to_be_rec(v, 16);
    proof {
        lemma_be_bytes_len(v as nat, 16);
    }
    out
}

fn from_be_rec(s: &[u8]) -> (v: u128)
    requires
        s@.len() <= 16,
    ensures
        v as nat == be_val(s@),
    decreases s@.len(),
{
    if s.len() == 0 {
        0
    } else {
        let prefix = slice_subrange(s, 0, s.len() - 1);
        let hi = from_be_rec(prefix);
        let last = s[s.len() - 1];
        proof {
            reveal(pow);
            assert(prefix@ =~= s@.drop_last());
            lemma_be_val_bound(prefix@);
            lemma_pow_increases(256, prefix@.len(), 15);
            reveal_with_fuel(pow, 16);
            assert(pow(256, 15) == 0x1000000000000000000000000000000);
            assert(hi as nat <= 0x1000000000000000000000000000000 - 1);
        }
        hi * 256 + last as u128
    }
}

/// Decode a persisted 16-byte big-endian amount.
pub fn u128_from_be_bytes(s: &[u8]) -> (v: u128)
    requires
        s@.len() == 16,
    ensures
        v as nat == be_val(s@),
{
    from_be_rec(s)
}

} // verus!
