//! The ledger's global laws, proved from the engines' contracts.
//!
//! Conservation is proved per step and over whole histories: one successful
//! transfer, plain or allowance-backed, between two distinct addresses
//! leaves the sum of the balances over any duplicate-free collection of
//! addresses containing both endpoints unchanged and never touches the
//! stored total supply; hence so does any sequence of such calls. A
//! transfer from an address to itself is excluded: reading both balances
//! before either write makes such a call credit the amount twice.

use crate::amount::{be_val, enc16, lemma_enc16_val};
use crate::contract::{approve_applied, can_transfer, transfer_applied};
use crate::ledger::{
    allowance_key, allowance_of, amount_entry_ok, amount_of, balance_of, spec_key_total_supply,
};
use vstd::prelude::*;

verus! {

/// The sum of the balances of a collection of addresses.
pub open spec fn sum_balances(m: Map<Seq<u8>, Seq<u8>>, addrs: Seq<Seq<u8>>) -> nat
    decreases addrs.len(),
{
    if addrs.len() == 0 {
        0
    } else {
        sum_balances(m, addrs.drop_last()) + balance_of(m, addrs.last())
    }
}

/// Writing a key outside the collection does not change its balance sum.
proof fn lemma_sum_balances_untouched(
    m: Map<Seq<u8>, Seq<u8>>,
    addrs: Seq<Seq<u8>>,
    k: Seq<u8>,
    v: Seq<u8>,
)
    requires
        !addrs.contains(k),
    ensures
        sum_balances(m.insert(k, v), addrs) == sum_balances(m, addrs),
    decreases addrs.len(),
{
    if addrs.len() > 0 {
        assert(addrs[addrs.len() - 1] != k);
        assert(!addrs.drop_last().contains(k)) by {
            if addrs.drop_last().contains(k) {
                let i = choose|i: int|
                    0 <= i < addrs.drop_last().len() && addrs.drop_last()[i] == k;
                assert(addrs[i] == k);
            }
        }
        lemma_sum_balances_untouched(m, addrs.drop_last(), k, v);
    }
}

/// Writing one address of a duplicate-free collection moves its balance sum
/// from the old entry's value to the new one.
proof fn lemma_sum_balances_insert(
    m: Map<Seq<u8>, Seq<u8>>,
    addrs: Seq<Seq<u8>>,
    k: Seq<u8>,
    v: Seq<u8>,
)
    requires
        addrs.no_duplicates(),
        addrs.contains(k),
    ensures
        sum_balances(m.insert(k, v), addrs) + balance_of(m, k) == sum_balances(m, addrs) + be_val(
            v,
        ),
    decreases addrs.len(),
{
    let last = addrs.last();
    if last == k {
        assert(!addrs.drop_last().contains(k)) by {
            if addrs.drop_last().contains(k) {
                let i = choose|i: int|
                    0 <= i < addrs.drop_last().len() && addrs.drop_last()[i] == k;
                assert(addrs[i] == k && addrs[addrs.len() - 1] == k);
            }
        }
        lemma_sum_balances_untouched(m, addrs.drop_last(), k, v);
        assert(balance_of(m.insert(k, v), k) == be_val(v));
    } else {
        assert(addrs.drop_last().contains(k)) by {
            let i = choose|i: int| 0 <= i < addrs.len() && addrs[i] == k;
            assert(addrs.drop_last()[i] == k);
        }
        assert(addrs.drop_last().no_duplicates());
        lemma_sum_balances_insert(m, addrs.drop_last(), k, v);
        assert(balance_of(m.insert(k, v), last) == balance_of(m, last));
    }
}

/// Conservation under transfer: a successful transfer between two distinct
/// addresses keeps the sum of the balances over any duplicate-free
/// collection of addresses containing sender and recipient, and leaves the
/// stored total supply untouched.
pub proof fn lemma_transfer_conserves_sum(
    pre: Map<Seq<u8>, Seq<u8>>,
    post: Map<Seq<u8>, Seq<u8>>,
    from: Seq<u8>,
    to: Seq<u8>,
    amt: u128,
    addrs: Seq<Seq<u8>>,
)
    requires
        from.len() == 20,
        to.len() == 20,
        from != to,
        can_transfer(pre, from, to, amt),
        transfer_applied(pre, post, from, to, amt),
        addrs.no_duplicates(),
        addrs.contains(from),
        addrs.contains(to),
    ensures
        sum_balances(post, addrs) == sum_balances(pre, addrs),
        amount_of(post, spec_key_total_supply()) == amount_of(pre, spec_key_total_supply()),
{
    let bf = balance_of(pre, from);
    let bt = balance_of(pre, to);
    crate::ledger::lemma_amount_bound(pre, from);
    let vf = enc16((bf - amt) as u128);
    let vt = enc16((bt + amt) as u128);
    let m1 = pre.insert(from, vf);
    lemma_enc16_val((bf - amt) as u128);
    lemma_enc16_val((bt + amt) as u128);
    lemma_sum_balances_insert(pre, addrs, from, vf);
    lemma_sum_balances_insert(m1, addrs, to, vt);
    assert(balance_of(m1, to) == bt);
    assert(sum_balances(m1, addrs) + amt == sum_balances(pre, addrs));
    assert(sum_balances(post, addrs) == sum_balances(m1, addrs) + amt);
}

/// Conservation under allowance-backed transfer: besides keeping the balance
/// sum and the total supply, the call decrements exactly the one allowance
/// it spends.
pub proof fn lemma_transfer_from_conserves_sum(
    pre: Map<Seq<u8>, Seq<u8>>,
    post: Map<Seq<u8>, Seq<u8>>,
    owner: Seq<u8>,
    spender: Seq<u8>,
    to: Seq<u8>,
    amt: u128,
    addrs: Seq<Seq<u8>>,
)
    requires
        owner.len() == 20,
        spender.len() == 20,
        to.len() == 20,
        owner != to,
        amount_entry_ok(pre, allowance_key(owner, spender)),
        allowance_of(pre, owner, spender) >= amt,
        can_transfer(pre, owner, to, amt),
        transfer_applied(
            pre.insert(
                allowance_key(owner, spender),
                enc16((allowance_of(pre, owner, spender) - amt) as u128),
            ),
            post,
            owner,
            to,
            amt,
        ),
        addrs.no_duplicates(),
        addrs.contains(owner),
        addrs.contains(to),
        forall|a: Seq<u8>| #[trigger] addrs.contains(a) ==> a.len() == 20,
    ensures
        sum_balances(post, addrs) == sum_balances(pre, addrs),
        amount_of(post, spec_key_total_supply()) == amount_of(pre, spec_key_total_supply()),
        allowance_of(post, owner, spender) == allowance_of(pre, owner, spender) - amt,
{
    let ak = allowance_key(owner, spender);
    let allow = allowance_of(pre, owner, spender);
    crate::ledger::lemma_amount_bound(pre, ak);
    let va = enc16((allow - amt) as u128);
    let m1 = pre.insert(ak, va);
    assert(!addrs.contains(ak));
    lemma_sum_balances_untouched(pre, addrs, ak, va);
    assert(balance_of(m1, owner) == balance_of(pre, owner));
    assert(balance_of(m1, to) == balance_of(pre, to));
    assert(amount_entry_ok(m1, owner) && amount_entry_ok(m1, to));
    assert(can_transfer(m1, owner, to, amt));
    lemma_enc16_val((allow - amt) as u128);
    lemma_transfer_conserves_sum(m1, post, owner, to, amt, addrs);
    let bo = balance_of(m1, owner);
    let bt = balance_of(m1, to);
    crate::ledger::lemma_amount_bound(pre, owner);
    let post2 = m1.insert(owner, enc16((bo - amt) as u128)).insert(to, enc16((bt + amt) as u128));
    assert(post == post2);
    assert(spec_key_total_supply().len() == 12);
    assert(ak.len() == 40);
    assert(ak != owner && ak != to && ak != spec_key_total_supply());
    assert(post2[ak] == va);
    assert(allowance_of(post, owner, spender) == be_val(va));
}

/// One successful balance-moving call, as the engines' contracts describe
/// its effect on the store.
pub enum LedgerStep {
    Transfer { from: Seq<u8>, to: Seq<u8>, amt: u128 },
    TransferFrom { owner: Seq<u8>, spender: Seq<u8>, to: Seq<u8>, amt: u128 },
}

/// The step took the store from `pre` to `post`: exactly the success case of
/// the corresponding engine's contract.
pub open spec fn step_applied(
    pre: Map<Seq<u8>, Seq<u8>>,
    post: Map<Seq<u8>, Seq<u8>>,
    s: LedgerStep,
) -> bool {
    match s {
        LedgerStep::Transfer { from, to, amt } => {
            &&& can_transfer(pre, from, to, amt)
            &&& transfer_applied(pre, post, from, to, amt)
        },
        LedgerStep::TransferFrom { owner, spender, to, amt } => {
            &&& amount_entry_ok(pre, allowance_key(owner, spender))
            &&& allowance_of(pre, owner, spender) >= amt
            &&& can_transfer(pre, owner, to, amt)
            &&& transfer_applied(
                pre.insert(
                    allowance_key(owner, spender),
                    enc16((allowance_of(pre, owner, spender) - amt) as u128),
                ),
                post,
                owner,
                to,
                amt,
            )
        },
    }
}

/// A history: `states` has one more entry than `steps`, and each step took
/// the store from its state to the next.
pub open spec fn history_applied(states: Seq<Map<Seq<u8>, Seq<u8>>>, steps: Seq<LedgerStep>) -> bool {
    &&& states.len() == steps.len() + 1
    &&& forall|i: int|
        0 <= i < steps.len() ==> step_applied(states[i], states[i + 1], #[trigger] steps[i])
}

/// The step moves value between two distinct addresses of the collection.
pub open spec fn step_endpoints_in(s: LedgerStep, addrs: Seq<Seq<u8>>) -> bool {
    match s {
        LedgerStep::Transfer { from, to, amt } => {
            &&& from.len() == 20 && to.len() == 20 && from != to
            &&& addrs.contains(from) && addrs.contains(to)
        },
        LedgerStep::TransferFrom { owner, spender, to, amt } => {
            &&& owner.len() == 20 && spender.len() == 20 && to.len() == 20 && owner != to
            &&& addrs.contains(owner) && addrs.contains(to)
        },
    }
}

/// Conservation over whole histories: any sequence of successful transfer
/// and allowance-backed transfer calls, each between two distinct addresses
/// of a duplicate-free collection, leaves the sum of the balances over that
/// collection and the stored total supply unchanged.
pub proof fn lemma_history_conserves_sum(
    states: Seq<Map<Seq<u8>, Seq<u8>>>,
    steps: Seq<LedgerStep>,
    addrs: Seq<Seq<u8>>,
)
    requires
        history_applied(states, steps),
        forall|i: int| 0 <= i < steps.len() ==> step_endpoints_in(#[trigger] steps[i], addrs),
        addrs.no_duplicates(),
        forall|a: Seq<u8>| #[trigger] addrs.contains(a) ==> a.len() == 20,
    ensures
        sum_balances(states.last(), addrs) == sum_balances(states.first(), addrs),
        amount_of(states.last(), spec_key_total_supply()) == amount_of(
            states.first(),
            spec_key_total_supply(),
        ),
    decreases steps.len(),
{
    if steps.len() > 0 {
        let n = steps.len() as int;
        assert forall|i: int|
            0 <= i < steps.drop_last().len() implies step_applied(
            states.drop_last()[i],
            states.drop_last()[i + 1],
            #[trigger] steps.drop_last()[i],
        ) by {
            assert(steps.drop_last()[i] == steps[i]);
            assert(states.drop_last()[i] == states[i] && states.drop_last()[i + 1] == states[i
                + 1]);
        }
        assert forall|i: int|
            0 <= i < steps.drop_last().len() implies step_endpoints_in(
            #[trigger] steps.drop_last()[i],
            addrs,
        ) by {
            assert(steps.drop_last()[i] == steps[i]);
        }
        lemma_history_conserves_sum(states.drop_last(), steps.drop_last(), addrs);
        assert(states.drop_last().first() == states.first());
        assert(states.drop_last().last() == states[n - 1]);
        assert(step_applied(states[n - 1], states[n], steps[n - 1]));
        assert(step_endpoints_in(steps[n - 1], addrs));
        match steps[n - 1] {
            LedgerStep::Transfer { from, to, amt } => {
                lemma_transfer_conserves_sum(states[n - 1], states[n], from, to, amt, addrs);
            },
            LedgerStep::TransferFrom { owner, spender, to, amt } => {
                lemma_transfer_from_conserves_sum(
                    states[n - 1],
                    states[n],
                    owner,
                    spender,
                    to,
                    amt,
                    addrs,
                );
            },
        }
        assert(states.last() == states[n]);
    }
}

/// Overwriting an approval: approving `x` and then `y` for the same pair
/// leaves the allowance at exactly `y`, whatever `x` was.
pub proof fn lemma_approve_overwrite(
    m0: Map<Seq<u8>, Seq<u8>>,
    m1: Map<Seq<u8>, Seq<u8>>,
    m2: Map<Seq<u8>, Seq<u8>>,
    owner: Seq<u8>,
    spender: Seq<u8>,
    x: u128,
    y: u128,
)
    requires
        approve_applied(m0, m1, owner, spender, x),
        approve_applied(m1, m2, owner, spender, y),
    ensures
        allowance_of(m2, owner, spender) == y,
        amount_entry_ok(m2, allowance_key(owner, spender)),
{
    lemma_enc16_val(y);
}

} // verus!
