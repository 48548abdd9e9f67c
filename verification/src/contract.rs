//! The ledger's entry points: one-shot initialization and the three
//! state-transition operations.
//!
//! Every operation validates all of its preconditions before its first write,
//! so a failing call leaves the store exactly as it found it. In particular
//! the allowance-backed transfer checks both the allowance and the owner's
//! balance before committing either mutation, rather than spending the
//! allowance first; and initialization validates the metadata and every seed
//! row before persisting anything. Crediting a balance and summing the seed
//! balances are checked additions: exceeding 128 bits is a reported error,
//! not a silent wrap.
//!
//! A repeated address in the seed list keeps the behaviour of overwriting the
//! earlier balance entry while every occurrence still counts toward the total
//! supply; the conservation law is therefore stated for seed lists without
//! duplicates.

use crate::amount::enc16;
use crate::codec::{
    addr_hex_ok, dec_ok, dec_val, hex_decoded, is_valid_name, is_valid_symbol,
    parse_20bytes_from_hex, parse_u128, valid_name, valid_symbol,
};
use crate::error::Error;
use crate::ledger::{
    allowance_key, allowance_of, amount_entry_ok, balance_of, key_decimals, key_name, key_symbol,
    key_total_supply, read_allowance, read_u128, spec_key_decimals, spec_key_name,
    spec_key_symbol, spec_key_total_supply, write_allowance, write_u128,
};
use crate::storage::Storage;
use vstd::prelude::*;
use vstd::string::StringSliceAdditionalSpecFns;
use vstd::utf8::encode_utf8;

verus! {

/// One seed entry of the initial ledger: an address as 40 hex digits and an
/// amount as decimal text.
pub struct InitialBalance {
    pub address: String,
    pub amount: String,
}

/// The initialization request.
pub struct InitMsg {
    pub name: String,
    pub symbol: String,
    pub decimals: u8,
    pub initial_balances: Vec<InitialBalance>,
}

/// The closed set of operations a caller can request after initialization.
pub enum HandleMsg {
    Approve { spender: String, amount: String },
    Transfer { recipient: String, amount: String },
    TransferFrom { owner: String, recipient: String, amount: String },
}

/// A successful call's answer. This ledger never emits outbound messages and
/// never sets a data payload; `log` carries a short confirmation line.
#[derive(Debug)]
pub struct Response {
    pub messages: Vec<Vec<u8>>,
    pub log: Option<String>,
    pub data: Option<Vec<u8>>,
}

/// A response that carries nothing but the given log line.
pub open spec fn response_with_log(resp: Response, log: Seq<char>) -> bool {
    &&& resp.messages@.len() == 0
    &&& resp.data is None
    &&& match resp.log {
        Option::Some(l) => l@ == log,
        Option::None => false,
    }
}

/// A response that carries nothing at all.
pub open spec fn response_plain(resp: Response) -> bool {
    resp.messages@.len() == 0 && resp.data is None && resp.log is None
}

fn ok_response(log: &str) -> (resp: Response)
    ensures
        response_with_log(resp, log@),
{
    Response { messages: Vec::new(), log: Some(log.to_owned()), data: None }
}

/// The 128-bit amount denoted by decimal text (meaningful under `dec_ok`).
pub open spec fn dec_amt(s: Seq<u8>) -> u128 {
    dec_val(s) as u128
}

/// A transfer of `amt` from `from` to `to` can go through on `m`: both
/// entries well-formed, the debit covered, the credit within 128 bits.
pub open spec fn can_transfer(m: Map<Seq<u8>, Seq<u8>>, from: Seq<u8>, to: Seq<u8>, amt: u128) -> bool {
    &&& amount_entry_ok(m, from)
    &&& amount_entry_ok(m, to)
    &&& balance_of(m, from) >= amt
    &&& balance_of(m, to) + amt <= u128::MAX
}

/// The exact effect of a transfer: the debited entry is written first, then
/// the credited one, both values read before either write.
pub open spec fn transfer_applied(
    pre: Map<Seq<u8>, Seq<u8>>,
    post: Map<Seq<u8>, Seq<u8>>,
    from: Seq<u8>,
    to: Seq<u8>,
    amt: u128,
) -> bool {
    post == pre.insert(from, enc16((balance_of(pre, from) - amt) as u128)).insert(
        to,
        enc16((balance_of(pre, to) + amt) as u128),
    )
}

/// Which error a failing transfer on `m` reports, if and only if.
pub open spec fn transfer_error(
    m: Map<Seq<u8>, Seq<u8>>,
    from: Seq<u8>,
    to: Seq<u8>,
    amt: u128,
    e: Error,
) -> bool {
    match e {
        Error::CorruptedState => !amount_entry_ok(m, from) || (amount_entry_ok(m, from)
            && balance_of(m, from) >= amt && !amount_entry_ok(m, to)),
        Error::InsufficientFunds { balance, required } => amount_entry_ok(m, from)
            && balance as nat == balance_of(m, from) && required == amt && balance_of(m, from)
            < amt,
        Error::AmountOverflow => amount_entry_ok(m, from) && amount_entry_ok(m, to)
            && balance_of(m, from) >= amt && balance_of(m, to) + amt > u128::MAX,
        _ => false,
    }
}

/// Move `amount` between two balance entries, checking before writing: a
/// failed transfer leaves the store exactly as it was.
pub fn perform_transfer<S: Storage>(
    store: &mut S,
    from: &Vec<u8>,
    to: &Vec<u8>,
    amount: u128,
) -> (r: Result<(), Error>)
    requires
        old(store).inv(),
        from@.len() == 20,
        to@.len() == 20,
    ensures
        final(store).inv(),
        match r {
            Ok(()) => can_transfer(old(store).contents(), from@, to@, amount)
                && transfer_applied(
                old(store).contents(),
                final(store).contents(),
                from@,
                to@,
                amount,
            ),
            Err(e) => final(store).contents() == old(store).contents() && transfer_error(
                old(store).contents(),
                from@,
                to@,
                amount,
                e,
            ),
        },
{
    let from_balance = match read_u128(store, from.as_slice()) {
        Ok(v) => v,
        Err(e) => {
            return Err(e);
        },
    };
    if from_balance < amount {
        return Err(Error::InsufficientFunds { balance: from_balance, required: amount });
    }
    let to_balance = match read_u128(store, to.as_slice()) {
        Ok(v) => v,
        Err(e) => {
            return Err(e);
        },
    };
    let new_to = match to_balance.checked_add(amount) {
        Some(v) => v,
        None => {
            return Err(Error::AmountOverflow);
        },
    };
    write_u128(store, from.as_slice(), from_balance - amount);
    write_u128(store, to.as_slice(), new_to);
    Ok(())
}

/// The whole outcome of a requested transfer, over the raw argument text.
pub open spec fn transfer_outcome(
    pre: Map<Seq<u8>, Seq<u8>>,
    post: Map<Seq<u8>, Seq<u8>>,
    sb: Seq<u8>,
    rb: Seq<u8>,
    ab: Seq<u8>,
    r: Result<Response, Error>,
) -> bool {
    let from = hex_decoded(sb);
    let to = hex_decoded(rb);
    let amt = dec_amt(ab);
    match r {
        Ok(resp) => {
            &&& addr_hex_ok(sb) && addr_hex_ok(rb) && dec_ok(ab)
            &&& can_transfer(pre, from, to, amt)
            &&& transfer_applied(pre, post, from, to, amt)
            &&& response_with_log(resp, "transfer successful"@)
        },
        Err(e) => {
            &&& post == pre
            &&& match e {
                Error::InvalidAddress => !addr_hex_ok(sb) || !addr_hex_ok(rb),
                Error::InvalidAmount => addr_hex_ok(sb) && addr_hex_ok(rb) && !dec_ok(ab),
                _ => addr_hex_ok(sb) && addr_hex_ok(rb) && dec_ok(ab) && transfer_error(
                    pre,
                    from,
                    to,
                    amt,
                    e,
                ),
            }
        },
    }
}

/// Transfer from the authenticated caller to a recipient, both given as
/// address text, the amount as decimal text.
pub fn try_transfer<S: Storage>(
    store: &mut S,
    signer: &str,
    recipient: &str,
    amount: &str,
) -> (r: Result<Response, Error>)
    requires
        old(store).inv(),
    ensures
        final(store).inv(),
        transfer_outcome(
            old(store).contents(),
            final(store).contents(),
            signer.spec_bytes(),
            recipient.spec_bytes(),
            amount.spec_bytes(),
            r,
        ),
{
    let sender_address_raw = match parse_20bytes_from_hex(signer) {
        Ok(a) => a,
        Err(e) => {
            return Err(e);
        },
    };
    let recipient_address_raw = match parse_20bytes_from_hex(recipient) {
        Ok(a) => a,
        Err(e) => {
            return Err(e);
        },
    };
    let amount_raw = match parse_u128(amount) {
        Ok(v) => v,
        Err(e) => {
            return Err(e);
        },
    };
    match perform_transfer(store, &sender_address_raw, &recipient_address_raw, amount_raw) {
        Ok(()) => Ok(ok_response("transfer successful")),
        Err(e) => Err(e),
    }
}

/// The exact effect of an approval: the allowance entry is overwritten,
/// whatever it held before.
pub open spec fn approve_applied(
    pre: Map<Seq<u8>, Seq<u8>>,
    post: Map<Seq<u8>, Seq<u8>>,
    owner: Seq<u8>,
    spender: Seq<u8>,
    amt: u128,
) -> bool {
    post == pre.insert(allowance_key(owner, spender), enc16(amt))
}

/// The whole outcome of a requested approval, over the raw argument text.
pub open spec fn approve_outcome(
    pre: Map<Seq<u8>, Seq<u8>>,
    post: Map<Seq<u8>, Seq<u8>>,
    sb: Seq<u8>,
    spb: Seq<u8>,
    ab: Seq<u8>,
    r: Result<Response, Error>,
) -> bool {
    let owner = hex_decoded(sb);
    let spender = hex_decoded(spb);
    let amt = dec_amt(ab);
    match r {
        Ok(resp) => {
            &&& addr_hex_ok(sb) && addr_hex_ok(spb) && dec_ok(ab)
            &&& approve_applied(pre, post, owner, spender, amt)
            &&& response_with_log(resp, "approve successful"@)
        },
        Err(e) => {
            &&& post == pre
            &&& match e {
                Error::InvalidAddress => !addr_hex_ok(sb) || !addr_hex_ok(spb),
                Error::InvalidAmount => addr_hex_ok(sb) && addr_hex_ok(spb) && !dec_ok(ab),
                _ => false,
            }
        },
    }
}

/// Set the allowance the authenticated caller grants a spender. The prior
/// allowance is overwritten without being read, as the interface prescribes.
pub fn try_approve<S: Storage>(
    store: &mut S,
    signer: &str,
    spender: &str,
    amount: &str,
) -> (r: Result<Response, Error>)
    requires
        old(store).inv(),
    ensures
        final(store).inv(),
        approve_outcome(
            old(store).contents(),
            final(store).contents(),
            signer.spec_bytes(),
            spender.spec_bytes(),
            amount.spec_bytes(),
            r,
        ),
{
    let owner_address_raw = match parse_20bytes_from_hex(signer) {
        Ok(a) => a,
        Err(e) => {
            return Err(e);
        },
    };
    let spender_address_raw = match parse_20bytes_from_hex(spender) {
        Ok(a) => a,
        Err(e) => {
            return Err(e);
        },
    };
    let amount_raw = match parse_u128(amount) {
        Ok(v) => v,
        Err(e) => {
            return Err(e);
        },
    };
    write_allowance(store, &owner_address_raw, &spender_address_raw, amount_raw);
    Ok(ok_response("approve successful"))
}

/// Which error a failing allowance-backed transfer on `pre` reports: the
/// allowance entry and gate come first, then the transfer's own checks.
pub open spec fn transfer_from_error(
    pre: Map<Seq<u8>, Seq<u8>>,
    owner: Seq<u8>,
    spender: Seq<u8>,
    to: Seq<u8>,
    amt: u128,
    e: Error,
) -> bool {
    let ak = allowance_key(owner, spender);
    let allow = allowance_of(pre, owner, spender);
    match e {
        Error::CorruptedState => !amount_entry_ok(pre, ak) || (amount_entry_ok(pre, ak) && allow
            >= amt && transfer_error(pre, owner, to, amt, e)),
        Error::InsufficientAllowance { allowance, required } => amount_entry_ok(pre, ak)
            && allowance as nat == allow && required == amt && allow < amt,
        Error::InsufficientFunds { .. } => amount_entry_ok(pre, ak) && allow >= amt
            && transfer_error(pre, owner, to, amt, e),
        Error::AmountOverflow => amount_entry_ok(pre, ak) && allow >= amt && transfer_error(
            pre,
            owner,
            to,
            amt,
            e,
        ),
        _ => false,
    }
}

/// The whole outcome of a requested allowance-backed transfer, over the raw
/// argument text. On success the allowance entry is decremented and then the
/// transfer applied; on any failure nothing at all is written.
pub open spec fn transfer_from_outcome(
    pre: Map<Seq<u8>, Seq<u8>>,
    post: Map<Seq<u8>, Seq<u8>>,
    sb: Seq<u8>,
    ob: Seq<u8>,
    rb: Seq<u8>,
    ab: Seq<u8>,
    r: Result<Response, Error>,
) -> bool {
    let spender = hex_decoded(sb);
    let owner = hex_decoded(ob);
    let to = hex_decoded(rb);
    let amt = dec_amt(ab);
    let ak = allowance_key(owner, spender);
    let allow = allowance_of(pre, owner, spender);
    match r {
        Ok(resp) => {
            let m1 = pre.insert(ak, enc16((allow - amt) as u128));
            &&& addr_hex_ok(sb) && addr_hex_ok(ob) && addr_hex_ok(rb) && dec_ok(ab)
            &&& amount_entry_ok(pre, ak)
            &&& allow >= amt
            &&& can_transfer(pre, owner, to, amt)
            &&& transfer_applied(m1, post, owner, to, amt)
            &&& response_with_log(resp, "transfer from successful"@)
        },
        Err(e) => {
            &&& post == pre
            &&& match e {
                Error::InvalidAddress => !addr_hex_ok(sb) || !addr_hex_ok(ob) || !addr_hex_ok(rb),
                Error::InvalidAmount => addr_hex_ok(sb) && addr_hex_ok(ob) && addr_hex_ok(rb)
                    && !dec_ok(ab),
                _ => addr_hex_ok(sb) && addr_hex_ok(ob) && addr_hex_ok(rb) && dec_ok(ab)
                    && transfer_from_error(pre, owner, spender, to, amt, e),
            }
        },
    }
}

/// Transfer out of an owner's balance on the strength of an allowance the
/// owner granted the authenticated caller. Both gates — the allowance and
/// the owner's balance — are checked before either mutation is committed,
/// so a failing call never leaves an allowance spent without a matching
/// balance movement.
pub fn try_transfer_from<S: Storage>(
    store: &mut S,
    signer: &str,
    owner: &str,
    recipient: &str,
    amount: &str,
) -> (r: Result<Response, Error>)
    requires
        old(store).inv(),
    ensures
        final(store).inv(),
        transfer_from_outcome(
            old(store).contents(),
            final(store).contents(),
            signer.spec_bytes(),
            owner.spec_bytes(),
            recipient.spec_bytes(),
            amount.spec_bytes(),
            r,
        ),
{
    let spender_address_raw = match parse_20bytes_from_hex(signer) {
        Ok(a) => a,
        Err(e) => {
            return Err(e);
        },
    };
    let owner_address_raw = match parse_20bytes_from_hex(owner) {
        Ok(a) => a,
        Err(e) => {
            return Err(e);
        },
    };
    let recipient_address_raw = match parse_20bytes_from_hex(recipient) {
        Ok(a) => a,
        Err(e) => {
            return Err(e);
        },
    };
    let amount_raw = match parse_u128(amount) {
        Ok(v) => v,
        Err(e) => {
            return Err(e);
        },
    };
    let allowance = match read_allowance(store, &owner_address_raw, &spender_address_raw) {
        Ok(v) => v,
        Err(e) => {
            return Err(e);
        },
    };
    if allowance < amount_raw {
        return Err(Error::InsufficientAllowance { allowance, required: amount_raw });
    }
    let owner_balance = match read_u128(store, owner_address_raw.as_slice()) {
        Ok(v) => v,
        Err(e) => {
            return Err(e);
        },
    };
    if owner_balance < amount_raw {
        return Err(Error::InsufficientFunds { balance: owner_balance, required: amount_raw });
    }
    let recipient_balance = match read_u128(store, recipient_address_raw.as_slice()) {
        Ok(v) => v,
        Err(e) => {
            return Err(e);
        },
    };
    if recipient_balance.checked_add(amount_raw).is_none() {
        return Err(Error::AmountOverflow);
    }
    write_allowance(store, &owner_address_raw, &spender_address_raw, allowance - amount_raw);
    match perform_transfer(store, &owner_address_raw, &recipient_address_raw, amount_raw) {
        Ok(()) => Ok(ok_response("transfer from successful")),
        Err(e) => {
            proof {
                assert(false);
            }
            Err(e)
        },
    }
}

/// The UTF-8 bytes of a seed row's address text.
pub open spec fn row_addr_bytes(b: InitialBalance) -> Seq<u8> {
    encode_utf8(b.address@)
}

/// The UTF-8 bytes of a seed row's amount text.
pub open spec fn row_amount_bytes(b: InitialBalance) -> Seq<u8> {
    encode_utf8(b.amount@)
}

/// Both texts of a seed row decode.
pub open spec fn row_ok(b: InitialBalance) -> bool {
    addr_hex_ok(row_addr_bytes(b)) && dec_ok(row_amount_bytes(b))
}

/// The first `n` seed rows all decode.
pub open spec fn rows_ok_upto(rows: Seq<InitialBalance>, n: int) -> bool {
    forall|i: int| 0 <= i < n ==> row_ok(#[trigger] rows[i])
}

/// The sum of the amounts of all seed rows, every occurrence counted.
pub open spec fn sum_rows(rows: Seq<InitialBalance>) -> nat
    decreases rows.len(),
{
    if rows.len() == 0 {
        0
    } else {
        sum_rows(rows.drop_last()) + dec_val(row_amount_bytes(rows.last()))
    }
}

/// The balance writes of the seed rows, in order: a repeated address keeps
/// only its last row's amount.
pub open spec fn apply_rows(m: Map<Seq<u8>, Seq<u8>>, rows: Seq<InitialBalance>) -> Map<
    Seq<u8>,
    Seq<u8>,
>
    decreases rows.len(),
{
    if rows.len() == 0 {
        m
    } else {
        apply_rows(m, rows.drop_last()).insert(
            hex_decoded(row_addr_bytes(rows.last())),
            enc16(dec_amt(row_amount_bytes(rows.last()))),
        )
    }
}

/// The request's metadata is valid.
pub open spec fn metadata_ok(msg: InitMsg) -> bool {
    &&& valid_name(encode_utf8(msg.name@))
    &&& valid_symbol(encode_utf8(msg.symbol@))
    &&& msg.decimals <= 18
}

/// The three metadata writes of initialization.
pub open spec fn init_metadata(pre: Map<Seq<u8>, Seq<u8>>, msg: InitMsg) -> Map<Seq<u8>, Seq<u8>> {
    pre.insert(spec_key_name(), encode_utf8(msg.name@)).insert(
        spec_key_symbol(),
        encode_utf8(msg.symbol@),
    ).insert(spec_key_decimals(), seq![msg.decimals])
}

/// The exact effect of initialization: metadata, then every seed balance in
/// order, then the total supply as the sum of all seed amounts.
pub open spec fn init_applied(
    pre: Map<Seq<u8>, Seq<u8>>,
    post: Map<Seq<u8>, Seq<u8>>,
    msg: InitMsg,
) -> bool {
    post == apply_rows(init_metadata(pre, msg), msg.initial_balances@).insert(
        spec_key_total_supply(),
        enc16(sum_rows(msg.initial_balances@) as u128),
    )
}

/// The whole outcome of an initialization request.
pub open spec fn init_outcome(
    pre: Map<Seq<u8>, Seq<u8>>,
    post: Map<Seq<u8>, Seq<u8>>,
    msg: InitMsg,
    r: Result<Response, Error>,
) -> bool {
    let rows = msg.initial_balances@;
    match r {
        Ok(resp) => {
            &&& metadata_ok(msg)
            &&& rows_ok_upto(rows, rows.len() as int)
            &&& sum_rows(rows) <= u128::MAX
            &&& init_applied(pre, post, msg)
            &&& response_plain(resp)
        },
        Err(e) => {
            &&& post == pre
            &&& match e {
                Error::InvalidName => !valid_name(encode_utf8(msg.name@)),
                Error::InvalidSymbol => valid_name(encode_utf8(msg.name@)) && !valid_symbol(
                    encode_utf8(msg.symbol@),
                ),
                Error::InvalidDecimals => valid_name(encode_utf8(msg.name@)) && valid_symbol(
                    encode_utf8(msg.symbol@),
                ) && msg.decimals > 18,
                Error::InvalidAddress => metadata_ok(msg) && exists|i: int|
                    0 <= i < rows.len() && rows_ok_upto(rows, i) && !addr_hex_ok(
                        row_addr_bytes(#[trigger] rows[i]),
                    ),
                Error::InvalidAmount => metadata_ok(msg) && exists|i: int|
                    0 <= i < rows.len() && rows_ok_upto(rows, i) && addr_hex_ok(
                        row_addr_bytes(#[trigger] rows[i]),
                    ) && !dec_ok(row_amount_bytes(rows[i])),
                Error::AmountOverflow => metadata_ok(msg) && exists|i: int|
                    0 <= i < rows.len() && rows_ok_upto(rows, i + 1) && sum_rows(
                        #[trigger] rows.take(i),
                    ) <= u128::MAX && sum_rows(rows.take(i + 1)) > u128::MAX,
                _ => false,
            }
        },
    }
}

proof fn lemma_sum_rows_step(rows: Seq<InitialBalance>, i: int)
    requires
        0 <= i < rows.len(),
    ensures
        sum_rows(rows.take(i + 1)) == sum_rows(rows.take(i)) + dec_val(
            row_amount_bytes(rows[i]),
        ),
{
    assert(rows.take(i + 1).drop_last() =~= rows.take(i));
    assert(rows.take(i + 1).last() == rows[i]);
}

proof fn lemma_apply_rows_step(m: Map<Seq<u8>, Seq<u8>>, rows: Seq<InitialBalance>, i: int)
    requires
        0 <= i < rows.len(),
    ensures
        apply_rows(m, rows.take(i + 1)) == apply_rows(m, rows.take(i)).insert(
            hex_decoded(row_addr_bytes(rows[i])),
            enc16(dec_amt(row_amount_bytes(rows[i]))),
        ),
{
    assert(rows.take(i + 1).drop_last() =~= rows.take(i));
    assert(rows.take(i + 1).last() == rows[i]);
}

/// Apply the one-shot initialization: validate the metadata and decode every
/// seed row before the first write, then persist metadata, balances and the
/// total supply.
pub fn init<S: Storage>(store: &mut S, msg: &InitMsg) -> (r: Result<Response, Error>)
    requires
        old(store).inv(),
    ensures
        final(store).inv(),
        init_outcome(old(store).contents(), final(store).contents(), *msg, r),
{
    if !is_valid_name(msg.name.as_str()) {
        return Err(Error::InvalidName);
    }
    if !is_valid_symbol(msg.symbol.as_str()) {
        return Err(Error::InvalidSymbol);
    }
    if msg.decimals > 18 {
        return Err(Error::InvalidDecimals);
    }
    let ghost rows = msg.initial_balances@;

    let mut decoded: Vec<(Vec<u8>, u128)> = Vec::new();
    let mut total: u128 = 0;
    let mut i: usize = 0;
    while i < msg.initial_balances.len()
        invariant
            store.inv(),
            store.contents() == old(store).contents(),
            metadata_ok(*msg),
            rows == msg.initial_balances@,
            0 <= i <= rows.len(),
            decoded@.len() == i,
            rows_ok_upto(rows, i as int),
            forall|j: int|
                0 <= j < i ==> (#[trigger] decoded@[j]).0@ == hex_decoded(row_addr_bytes(rows[j]))
                    && decoded@[j].1 == dec_amt(row_amount_bytes(rows[j])) && decoded@[j].0@.len()
                    == 20,
            total as nat == sum_rows(rows.take(i as int)),
        decreases rows.len() - i,
    {
        let row = &msg.initial_balances[i];
        let addr = match parse_20bytes_from_hex(row.address.as_str()) {
            Ok(a) => a,
            Err(e) => {
                proof {
                    assert(rows_ok_upto(rows, i as int) && !addr_hex_ok(
                        row_addr_bytes(rows[i as int]),
                    ));
                }
                return Err(e);
            },
        };
        let amt = match parse_u128(row.amount.as_str()) {
            Ok(v) => v,
            Err(e) => {
                proof {
                    assert(rows_ok_upto(rows, i as int) && addr_hex_ok(
                        row_addr_bytes(rows[i as int]),
                    ) && !dec_ok(row_amount_bytes(rows[i as int])));
                }
                return Err(e);
            },
        };
        proof {
            lemma_sum_rows_step(rows, i as int);
        }
        total = match total.checked_add(amt) {
            Some(t) => t,
            None => {
                proof {
                    assert forall|j: int| 0 <= j < i + 1 implies row_ok(#[trigger] rows[j]) by {}
                    assert(rows_ok_upto(rows, i as int + 1) && sum_rows(rows.take(i as int))
                        <= u128::MAX && sum_rows(rows.take(i as int + 1)) > u128::MAX);
                }
                return Err(Error::AmountOverflow);
            },
        };
        decoded.push((addr, amt));
        i = i + 1;
    }
    proof {
        assert(rows.take(rows.len() as int) =~= rows);
    }

    let name_key = key_name();
    store.set(name_key.as_slice(), msg.name.as_str().as_bytes());
    let symbol_key = key_symbol();
    store.set(symbol_key.as_slice(), msg.symbol.as_str().as_bytes());
    let mut decimals_bytes: Vec<u8> = Vec::new();
    decimals_bytes.push(msg.decimals);
    let decimals_key = key_decimals();
    proof {
        assert(decimals_bytes@ =~= seq![msg.decimals]);
    }
    store.set(decimals_key.as_slice(), decimals_bytes.as_slice());
    let ghost md = init_metadata(old(store).contents(), *msg);

    let mut j: usize = 0;
    while j < decoded.len()
        invariant
            store.inv(),
            rows == msg.initial_balances@,
            md == init_metadata(old(store).contents(), *msg),
            0 <= j <= decoded@.len(),
            decoded@.len() == rows.len(),
            forall|k: int|
                0 <= k < rows.len() ==> (#[trigger] decoded@[k]).0@ == hex_decoded(
                    row_addr_bytes(rows[k]),
                ) && decoded@[k].1 == dec_amt(row_amount_bytes(rows[k])) && decoded@[k].0@.len()
                    == 20,
            store.contents() == apply_rows(md, rows.take(j as int)),
        decreases decoded@.len() - j,
    {
        let entry = &decoded[j];
        write_u128(store, entry.0.as_slice(), entry.1);
        proof {
            lemma_apply_rows_step(md, rows, j as int);
        }
        j = j + 1;
    }
    proof {
        assert(rows.take(rows.len() as int) =~= rows);
    }
    let supply_key = key_total_supply();
    write_u128(store, supply_key.as_slice(), total);
    Ok(Response { messages: Vec::new(), log: None, data: None })
}

/// Route an operation request to its engine, with the authenticated caller
/// as owner, sender or spender as the operation demands.
pub fn handle<S: Storage>(store: &mut S, signer: &str, msg: &HandleMsg) -> (r: Result<
    Response,
    Error,
>)
    requires
        old(store).inv(),
    ensures
        final(store).inv(),
        match *msg {
            HandleMsg::Approve { spender, amount } => approve_outcome(
                old(store).contents(),
                final(store).contents(),
                signer.spec_bytes(),
                encode_utf8(spender@),
                encode_utf8(amount@),
                r,
            ),
            HandleMsg::Transfer { recipient, amount } => transfer_outcome(
                old(store).contents(),
                final(store).contents(),
                signer.spec_bytes(),
                encode_utf8(recipient@),
                encode_utf8(amount@),
                r,
            ),
            HandleMsg::TransferFrom { owner, recipient, amount } => transfer_from_outcome(
                old(store).contents(),
                final(store).contents(),
                signer.spec_bytes(),
                encode_utf8(owner@),
                encode_utf8(recipient@),
                encode_utf8(amount@),
                r,
            ),
        },
{
    match msg {
        HandleMsg::Approve { spender, amount } => try_approve(
            store,
            signer,
            spender.as_str(),
            amount.as_str(),
        ),
        HandleMsg::Transfer { recipient, amount } => try_transfer(
            store,
            signer,
            recipient.as_str(),
            amount.as_str(),
        ),
        HandleMsg::TransferFrom { owner, recipient, amount } => try_transfer_from(
            store,
            signer,
            owner.as_str(),
            recipient.as_str(),
            amount.as_str(),
        ),
    }
}

} // verus!
