//! Typed access to the ledger's entries inside the flat byte store.
//!
//! Key layout, disambiguated by length alone: metadata and the total supply
//! live under short ASCII keys (4 to 12 bytes), a balance under the raw
//! 20-byte address, an allowance under the 40-byte owner-then-spender pair.
//! Every amount is stored as exactly 16 big-endian bytes; a present entry of
//! any other width is corruption, not absence, and an absent entry reads as
//! zero.

use crate::amount::{be_val, enc16, u128_from_be_bytes, u128_to_be_bytes};
use crate::error::Error;
use crate::storage::Storage;
use vstd::prelude::*;
use vstd::slice::slice_to_vec;

verus! {

/// The ASCII key `"name"` of the token name.
pub open spec fn spec_key_name() -> Seq<u8> {
    seq![110u8, 97u8, 109u8, 101u8]
}

/// The ASCII key `"symbol"` of the ticker symbol.
pub open spec fn spec_key_symbol() -> Seq<u8> {
    seq![115u8, 121u8, 109u8, 98u8, 111u8, 108u8]
}

/// The ASCII key `"decimals"` of the fractional-digit count.
pub open spec fn spec_key_decimals() -> Seq<u8> {
    seq![100u8, 101u8, 99u8, 105u8, 109u8, 97u8, 108u8, 115u8]
}

/// The ASCII key `"total_supply"` of the fixed total supply.
pub open spec fn spec_key_total_supply() -> Seq<u8> {
    seq![116u8, 111u8, 116u8, 97u8, 108u8, 95u8, 115u8, 117u8, 112u8, 112u8, 108u8, 121u8]
}

/// The key `"name"` as bytes.
pub fn key_name() -> (k: Vec<u8>)
    ensures
        k@ == spec_key_name(),
{
    let mut k: Vec<u8> = Vec::new();
    k.push(110);
    k.push(97);
    k.push(109);
    k.push(101);
    proof {
        assert(k@ =~= spec_key_name());
    }
    k
}

/// The key `"symbol"` as bytes.
pub fn key_symbol() -> (k: Vec<u8>)
    ensures
        k@ == spec_key_symbol(),
{
    let mut k: Vec<u8> = Vec::new();
    k.push(115);
    k.push(121);
    k.push(109);
    k.push(98);
    k.push(111);
    k.push(108);
    proof {
        assert(k@ =~= spec_key_symbol());
    }
    k
}

/// The key `"decimals"` as bytes.
pub fn key_decimals() -> (k: Vec<u8>)
    ensures
        k@ == spec_key_decimals(),
{
    let mut k: Vec<u8> = Vec::new();
    k.push(100);
    k.push(101);
    k.push(99);
    k.push(105);
    k.push(109);
    k.push(97);
    k.push(108);
    k.push(115);
    proof {
        assert(k@ =~= spec_key_decimals());
    }
    k
}

/// The key `"total_supply"` as bytes.
pub fn key_total_supply() -> (k: Vec<u8>)
    ensures
        k@ == spec_key_total_supply(),
{
    let mut k: Vec<u8> = Vec::new();
    k.push(116);
    k.push(111);
    k.push(116);
    k.push(97);
    k.push(108);
    k.push(95);
    k.push(115);
    k.push(117);
    k.push(112);
    k.push(112);
    k.push(108);
    k.push(121);
    proof {
        assert(k@ =~= spec_key_total_supply());
    }
    k
}

/// The entry under `k`, if present, has the mandatory 16-byte width.
pub open spec fn amount_entry_ok(m: Map<Seq<u8>, Seq<u8>>, k: Seq<u8>) -> bool {
    m.contains_key(k) ==> m[k].len() == 16
}

/// The amount stored under `k`: absent reads as zero.
pub open spec fn amount_of(m: Map<Seq<u8>, Seq<u8>>, k: Seq<u8>) -> nat {
    if m.contains_key(k) {
        be_val(m[k])
    } else {
        0
    }
}

/// The balance of an address (its key is the raw address).
pub open spec fn balance_of(m: Map<Seq<u8>, Seq<u8>>, addr: Seq<u8>) -> nat {
    amount_of(m, addr)
}

/// The 40-byte key of an owner-to-spender allowance.
pub open spec fn allowance_key(owner: Seq<u8>, spender: Seq<u8>) -> Seq<u8> {
    owner + spender
}

/// The allowance an owner granted a spender.
pub open spec fn allowance_of(m: Map<Seq<u8>, Seq<u8>>, owner: Seq<u8>, spender: Seq<u8>) -> nat {
    amount_of(m, allowance_key(owner, spender))
}

/// A well-formed amount entry holds a 128-bit value.
pub proof fn lemma_amount_bound(m: Map<Seq<u8>, Seq<u8>>, k: Seq<u8>)
    requires
        amount_entry_ok(m, k),
    ensures
        amount_of(m, k) <= u128::MAX,
{
    if m.contains_key(k) {
        crate::amount::lemma_be_val_bound(m[k]);
        crate::amount::lemma_pow256_16();
    }
}

/// Read the 16-byte amount under a key; absent is zero, any other width is
/// corruption and rejects the call without repair or truncation.
pub fn read_u128<S: Storage>(store: &S, key: &[u8]) -> (r: Result<u128, Error>)
    requires
        store.inv(),
    ensures
        match r {
            Ok(v) => amount_entry_ok(store.contents(), key@) && v as nat == amount_of(
                store.contents(),
                key@,
            ),
            Err(e) => !amount_entry_ok(store.contents(), key@) && e == Error::CorruptedState,
        },
{
    match store.get(key) {
        Some(data) => {
            if data.len() != 16 {
                Err(Error::CorruptedState)
            } else {
                Ok(u128_from_be_bytes(data.as_slice()))
            }
        },
        None => Ok(0),
    }
}

/// Write an amount under a key in the 16-byte big-endian layout.
pub fn write_u128<S: Storage>(store: &mut S, key: &[u8], value: u128)
    requires
        old(store).inv(),
    ensures
        final(store).inv(),
        final(store).contents() == old(store).contents().insert(key@, enc16(value)),
{
    let bytes = u128_to_be_bytes(value);
    store.set(key, bytes.as_slice());
}

/// The 40-byte allowance key of an owner-spender pair.
pub fn allowance_key_bytes(owner: &Vec<u8>, spender: &Vec<u8>) -> (k: Vec<u8>)
    ensures
        k@ == allowance_key(owner@, spender@),
{
    let mut k = slice_to_vec(owner.as_slice());
    let mut tail = slice_to_vec(spender.as_slice());
    k.append(&mut tail);
    k
}

/// Read the allowance an owner granted a spender; absent reads as zero.
pub fn read_allowance<S: Storage>(store: &S, owner: &Vec<u8>, spender: &Vec<u8>) -> (r: Result<
    u128,
    Error,
>)
    requires
        store.inv(),
        owner@.len() == 20,
        spender@.len() == 20,
    ensures
        match r {
            Ok(v) => amount_entry_ok(store.contents(), allowance_key(owner@, spender@))
                && v as nat == allowance_of(store.contents(), owner@, spender@),
            Err(e) => !amount_entry_ok(store.contents(), allowance_key(owner@, spender@)) && e
                == Error::CorruptedState,
        },
{
    let key = allowance_key_bytes(owner, spender);
    read_u128(store, key.as_slice())
}

/// Overwrite the allowance an owner grants a spender.
pub fn write_allowance<S: Storage>(store: &mut S, owner: &Vec<u8>, spender: &Vec<u8>, amount: u128)
    requires
        old(store).inv(),
        owner@.len() == 20,
        spender@.len() == 20,
    ensures
        final(store).inv(),
        final(store).contents() == old(store).contents().insert(
            allowance_key(owner@, spender@),
            enc16(amount),
        ),
{
    let key = allowance_key_bytes(owner, spender);
    write_u128(store, key.as_slice(), amount);
}

} // verus!
