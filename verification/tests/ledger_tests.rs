use token_ledger::codec::parse_20bytes_from_hex;
use token_ledger::contract::{handle, init, try_approve, try_transfer, try_transfer_from, HandleMsg, InitMsg, InitialBalance};
use token_ledger::error::Error;
use token_ledger::ledger::{read_allowance, read_u128, write_u128};
use token_ledger::storage::{MemStore, Storage};

fn addr(byte: u8) -> String {
    let mut s = String::new();
    for _ in 0..20 {
        s.push_str(&format!("{:02x}", byte));
    }
    s
}

fn row(address: &str, amount: &str) -> InitialBalance {
    InitialBalance { address: address.to_string(), amount: amount.to_string() }
}

fn fresh_ledger() -> (MemStore, String, String) {
    let a = addr(0x11);
    let b = addr(0x22);
    let mut store = MemStore::new();
    let msg = InitMsg {
        name: "Cash Token".to_string(),
        symbol: "CASH".to_string(),
        decimals: 8,
        initial_balances: vec![row(&a, "100"), row(&b, "50")],
    };
    let resp = init(&mut store, &msg).unwrap();
    assert_eq!(resp.messages.len(), 0);
    (store, a, b)
}

fn balance(store: &MemStore, hex: &str) -> u128 {
    let key = parse_20bytes_from_hex(hex).unwrap();
    read_u128(store, &key).unwrap()
}

fn total_supply(store: &MemStore) -> u128 {
    read_u128(store, b"total_supply").unwrap()
}

fn allowance(store: &MemStore, owner_hex: &str, spender_hex: &str) -> u128 {
    let owner = parse_20bytes_from_hex(owner_hex).unwrap();
    let spender = parse_20bytes_from_hex(spender_hex).unwrap();
    read_allowance(store, &owner, &spender).unwrap()
}

#[test]
fn init_seeds_balances_and_total_supply() {
    let (store, a, b) = fresh_ledger();
    assert_eq!(total_supply(&store), 150);
    assert_eq!(balance(&store, &a), 100);
    assert_eq!(balance(&store, &b), 50);
}

#[test]
fn init_writes_metadata() {
    let (store, _, _) = fresh_ledger();
    assert_eq!(store.get(b"name"), Some(b"Cash Token".to_vec()));
    assert_eq!(store.get(b"symbol"), Some(b"CASH".to_vec()));
    assert_eq!(store.get(b"decimals"), Some(vec![8u8]));
}

#[test]
fn transfer_moves_value_and_keeps_total() {
    let (mut store, a, b) = fresh_ledger();
    let resp = try_transfer(&mut store, &a, &b, "30").unwrap();
    assert_eq!(resp.log.as_deref(), Some("transfer successful"));
    assert_eq!(resp.messages.len(), 0);
    assert!(resp.data.is_none());
    assert_eq!(balance(&store, &a), 70);
    assert_eq!(balance(&store, &b), 80);
    assert_eq!(total_supply(&store), 150);
}

#[test]
fn transfer_from_spends_allowance() {
    let (mut store, a, b) = fresh_ledger();
    let c = addr(0x33);
    let d = addr(0x44);
    try_transfer(&mut store, &a, &b, "30").unwrap();
    let resp = try_approve(&mut store, &a, &c, "40").unwrap();
    assert_eq!(resp.log.as_deref(), Some("approve successful"));
    let resp = try_transfer_from(&mut store, &c, &a, &d, "25").unwrap();
    assert_eq!(resp.log.as_deref(), Some("transfer from successful"));
    assert_eq!(allowance(&store, &a, &c), 15);
    assert_eq!(balance(&store, &a), 45);
    assert_eq!(balance(&store, &d), 25);
    assert_eq!(total_supply(&store), 150);
}

#[test]
fn transfer_from_over_allowance_changes_nothing() {
    let (mut store, a, b) = fresh_ledger();
    let c = addr(0x33);
    let d = addr(0x44);
    try_transfer(&mut store, &a, &b, "30").unwrap();
    try_approve(&mut store, &a, &c, "40").unwrap();
    try_transfer_from(&mut store, &c, &a, &d, "25").unwrap();
    let err = try_transfer_from(&mut store, &c, &a, &d, "999").unwrap_err();
    assert_eq!(err, Error::InsufficientAllowance { allowance: 15, required: 999 });
    assert_eq!(allowance(&store, &a, &c), 15);
    assert_eq!(balance(&store, &a), 45);
    assert_eq!(balance(&store, &b), 80);
    assert_eq!(balance(&store, &d), 25);
    assert_eq!(total_supply(&store), 150);
}

#[test]
fn transfer_without_funds_changes_nothing() {
    let (mut store, a, b) = fresh_ledger();
    let err = try_transfer(&mut store, &a, &b, "101").unwrap_err();
    assert_eq!(err, Error::InsufficientFunds { balance: 100, required: 101 });
    assert_eq!(balance(&store, &a), 100);
    assert_eq!(balance(&store, &b), 50);
    assert_eq!(total_supply(&store), 150);
}

#[test]
fn transfer_from_without_funds_keeps_allowance() {
    let (mut store, a, _) = fresh_ledger();
    let c = addr(0x33);
    let d = addr(0x44);
    try_approve(&mut store, &a, &c, "500").unwrap();
    let err = try_transfer_from(&mut store, &c, &a, &d, "200").unwrap_err();
    assert_eq!(err, Error::InsufficientFunds { balance: 100, required: 200 });
    assert_eq!(allowance(&store, &a, &c), 500);
    assert_eq!(balance(&store, &a), 100);
    assert_eq!(balance(&store, &d), 0);
}

#[test]
fn approve_overwrites_prior_allowance() {
    let (mut store, a, _) = fresh_ledger();
    let c = addr(0x33);
    try_approve(&mut store, &a, &c, "7777").unwrap();
    try_approve(&mut store, &a, &c, "42").unwrap();
    assert_eq!(allowance(&store, &a, &c), 42);
}

#[test]
fn handle_routes_operations() {
    let (mut store, a, b) = fresh_ledger();
    let c = addr(0x33);
    let msg = HandleMsg::Transfer { recipient: b.clone(), amount: "10".to_string() };
    handle(&mut store, &a, &msg).unwrap();
    assert_eq!(balance(&store, &b), 60);
    let msg = HandleMsg::Approve { spender: c.clone(), amount: "5".to_string() };
    handle(&mut store, &a, &msg).unwrap();
    assert_eq!(allowance(&store, &a, &c), 5);
    let msg = HandleMsg::TransferFrom {
        owner: a.clone(),
        recipient: b.clone(),
        amount: "5".to_string(),
    };
    handle(&mut store, &c, &msg).unwrap();
    assert_eq!(allowance(&store, &a, &c), 0);
    assert_eq!(balance(&store, &b), 65);
}

#[test]
fn init_rejects_bad_metadata() {
    let mut store = MemStore::new();
    let mut msg = InitMsg {
        name: "ab".to_string(),
        symbol: "CASH".to_string(),
        decimals: 8,
        initial_balances: vec![],
    };
    assert_eq!(init(&mut store, &msg).unwrap_err(), Error::InvalidName);
    msg.name = "Cash Token".to_string();
    msg.symbol = "cash".to_string();
    assert_eq!(init(&mut store, &msg).unwrap_err(), Error::InvalidSymbol);
    msg.symbol = "CASH".to_string();
    msg.decimals = 19;
    assert_eq!(init(&mut store, &msg).unwrap_err(), Error::InvalidDecimals);
    assert_eq!(store.get(b"name"), None);
}

#[test]
fn init_rejects_bad_rows_without_writing() {
    let mut store = MemStore::new();
    let msg = InitMsg {
        name: "Cash Token".to_string(),
        symbol: "CASH".to_string(),
        decimals: 8,
        initial_balances: vec![row(&addr(0x11), "100"), row("zz", "5")],
    };
    assert_eq!(init(&mut store, &msg).unwrap_err(), Error::InvalidAddress);
    assert_eq!(store.get(b"name"), None);
    assert_eq!(store.get(b"total_supply"), None);

    let msg = InitMsg {
        name: "Cash Token".to_string(),
        symbol: "CASH".to_string(),
        decimals: 8,
        initial_balances: vec![row(&addr(0x11), "100"), row(&addr(0x22), "12x")],
    };
    assert_eq!(init(&mut store, &msg).unwrap_err(), Error::InvalidAmount);
    assert_eq!(store.get(b"total_supply"), None);
}

#[test]
fn init_rejects_overflowing_total() {
    let mut store = MemStore::new();
    let max = "340282366920938463463374607431768211455";
    let msg = InitMsg {
        name: "Cash Token".to_string(),
        symbol: "CASH".to_string(),
        decimals: 8,
        initial_balances: vec![row(&addr(0x11), max), row(&addr(0x22), "1")],
    };
    assert_eq!(init(&mut store, &msg).unwrap_err(), Error::AmountOverflow);
    assert_eq!(store.get(b"total_supply"), None);
}

#[test]
fn init_duplicate_address_overwrites_but_counts_both() {
    let mut store = MemStore::new();
    let a = addr(0x11);
    let msg = InitMsg {
        name: "Cash Token".to_string(),
        symbol: "CASH".to_string(),
        decimals: 8,
        initial_balances: vec![row(&a, "100"), row(&a, "50")],
    };
    init(&mut store, &msg).unwrap();
    assert_eq!(balance(&store, &a), 50);
    assert_eq!(total_supply(&store), 150);
}

#[test]
fn credit_overflow_is_reported() {
    let (mut store, a, b) = fresh_ledger();
    let key = parse_20bytes_from_hex(&b).unwrap();
    write_u128(&mut store, &key, u128::MAX);
    let err = try_transfer(&mut store, &a, &b, "1").unwrap_err();
    assert_eq!(err, Error::AmountOverflow);
    assert_eq!(balance(&store, &a), 100);
    assert_eq!(balance(&store, &b), u128::MAX);
}

// Both balances are read before either write, so a transfer from an address
// to itself ends at the old balance plus the amount: the second write wins.
// This is why the conservation law is stated for distinct endpoints.
#[test]
fn self_transfer_reads_both_balances_first() {
    let (mut store, a, _) = fresh_ledger();
    try_transfer(&mut store, &a, &a, "10").unwrap();
    assert_eq!(balance(&store, &a), 110);
    assert_eq!(total_supply(&store), 150);
}

#[test]
fn corrupted_width_is_reported() {
    let (mut store, a, b) = fresh_ledger();
    let key = parse_20bytes_from_hex(&a).unwrap();
    store.set(&key, b"short");
    assert_eq!(read_u128(&store, &key).unwrap_err(), Error::CorruptedState);
    let err = try_transfer(&mut store, &a, &b, "1").unwrap_err();
    assert_eq!(err, Error::CorruptedState);
}
