//! Deposits, allocations and buybacks.

use mentorminds::treasury::{
    check_oracle_health, AllocationHistory, Effect, Error, OracleHealth, TreasuryContract,
};
use mentorminds::types::{Address, Context, Failure, Symbol};
use std::collections::HashMap;

fn addr(n: u128) -> Address {
    Address { contract: false, hi: 0, lo: n }
}

const ADMIN: u128 = 1;
const STAKING: u128 = 2;
const USER: u128 = 3;
const TOKEN: u128 = 4;
const MNT: u128 = 5;
const DEX: u128 = 6;
const ORACLE: u128 = 7;
const SELF: u128 = 100;

fn at(now: u64) -> Context {
    let authorized = (0..20).map(addr).collect();
    Context { now, sequence: 1, contract: addr(SELF), authorized }
}

fn stranger() -> Context {
    Context { now: 0, sequence: 1, contract: addr(SELF), authorized: vec![addr(USER)] }
}

fn mnt() -> Symbol {
    let mut bytes = [0u8; 16];
    bytes[..3].copy_from_slice(b"MNT");
    Symbol { hi: u128::from_be_bytes(bytes), lo: 0 }
}

fn healthy() -> OracleHealth {
    OracleHealth { active_feeders: 3, last_update: 999, is_stale: false }
}

fn setup() -> TreasuryContract {
    let mut c = TreasuryContract::new();
    c.initialize(addr(ADMIN), addr(STAKING)).unwrap();
    c
}

/// Balances after the transfers that the contract asked for.
fn settle(c: &TreasuryContract, start: &[(u128, i128)]) -> HashMap<u128, i128> {
    let mut balances: HashMap<u128, i128> = start.iter().copied().collect();
    for e in &c.effects {
        if let Effect::Transfer { token, from, to, amount } = e {
            assert_eq!(*token, addr(TOKEN));
            let held = balances.entry(from.lo).or_insert(0);
            assert!(*held >= *amount);
            *held -= *amount;
            *balances.entry(to.lo).or_insert(0) += *amount;
        }
    }
    balances
}

#[test]
fn test_initialization() {
    let mut c = setup();
    let result = c.initialize(addr(ADMIN), addr(STAKING));
    assert!(result.is_err());
    assert_eq!(result, Err(Failure::Error(Error::AlreadyInitialized)));
}

#[test]
fn test_deposit_and_balance() {
    let mut c = setup();
    c.deposit(&at(0), addr(USER), addr(TOKEN), 500).unwrap();
    let balances = settle(&c, &[(USER, 1000)]);
    assert_eq!(balances[&SELF], 500);
    assert_eq!(balances[&USER], 500);
}

#[test]
fn test_allocate() {
    let mut c = setup();
    c.allocate(&at(12345), addr(TOKEN), addr(USER), 400).unwrap();
    let balances = settle(&c, &[(SELF, 1000)]);
    assert_eq!(balances[&SELF], 600);
    assert_eq!(balances[&USER], 400);

    let history = c.get_history();
    assert_eq!(history.len(), 1);
    assert_eq!(history[0].amount, 400);
    assert_eq!(history[0].timestamp, 12345);
}

#[test]
fn test_distribute_to_stakers() {
    let mut c = setup();
    c.distribute_to_stakers(&at(0), addr(TOKEN), 300).unwrap();
    let balances = settle(&c, &[(SELF, 1000)]);
    assert_eq!(balances[&SELF], 700);
    assert_eq!(balances[&STAKING], 300);
}

/// Runs a buyback with an exchange that gives one for one.
fn buyback(c: &mut TreasuryContract, amount: i128, oracle: Option<(Address, Symbol)>, health: OracleHealth) -> Result<(), Failure<Error>> {
    let ctx = at(1_000);
    let (o, s) = match oracle {
        Some((o, s)) => (Some(o), Some(s)),
        None => (None, None),
    };
    assert_eq!(c.buyback_query(&ctx, o, s), Ok(oracle));
    c.buyback_and_burn(&ctx, addr(TOKEN), addr(MNT), addr(DEX), amount, o, s, &health)?;
    let swap = Effect::Swap {
        dex_contract: addr(DEX),
        token_in: addr(TOKEN),
        token_out: addr(MNT),
        amount,
    };
    assert_eq!(c.effects.last(), Some(&swap));
    c.burn_bought(&ctx, addr(MNT), amount);
    Ok(())
}

#[test]
fn test_buyback_and_burn_without_oracle() {
    let mut c = setup();
    let stale = OracleHealth { active_feeders: 0, last_update: 0, is_stale: true };
    buyback(&mut c, 1000, None, stale).unwrap();
    let balances = settle(&c, &[(SELF, 1000)]);
    assert_eq!(balances[&SELF], 0);
    assert_eq!(balances[&DEX], 1000);
}

#[test]
fn test_buyback_proceeds_with_healthy_oracle() {
    let mut c = setup();
    let result = buyback(&mut c, 500, Some((addr(ORACLE), mnt())), healthy());
    assert!(result.is_ok(), "healthy oracle should allow buyback");
}

#[test]
fn test_buyback_aborted_when_oracle_stale() {
    let mut c = setup();
    let health = OracleHealth { active_feeders: 3, last_update: 0, is_stale: true };
    let result = buyback(&mut c, 500, Some((addr(ORACLE), mnt())), health);
    assert_eq!(result, Err(Failure::Error(Error::OracleStale)));
}

#[test]
fn test_buyback_aborted_when_insufficient_feeders() {
    let mut c = setup();
    let health = OracleHealth { active_feeders: 1, last_update: 999, is_stale: false };
    let result = buyback(&mut c, 500, Some((addr(ORACLE), mnt())), health);
    assert_eq!(result, Err(Failure::Error(Error::OracleUnhealthy)));
}

#[test]
fn treasury_needs_its_admin() {
    let mut c = TreasuryContract::new();
    let missing = Err(Failure::Error(Error::NotInitialized));
    assert_eq!(c.allocate(&at(0), addr(TOKEN), addr(USER), 1), missing);
    assert_eq!(c.distribute_to_stakers(&at(0), addr(TOKEN), 1), Err(Failure::Error(Error::NotInitialized)));
    assert_eq!(c.buyback_query(&at(0), None, None), Err(Failure::Error(Error::NotInitialized)));
    let mut c = setup();
    assert_eq!(c.allocate(&stranger(), addr(TOKEN), addr(USER), 1), Err(Failure::Unauthorized));
    assert_eq!(c.distribute_to_stakers(&stranger(), addr(TOKEN), 1), Err(Failure::Unauthorized));
    let done = c.buyback_and_burn(&stranger(), addr(TOKEN), addr(MNT), addr(DEX), 1, None, None, &healthy());
    assert_eq!(done, Err(Failure::Unauthorized));
    let done = c.deposit(&stranger(), addr(9), addr(TOKEN), 1);
    assert_eq!(done, Err(Failure::Unauthorized));
    assert!(c.effects.is_empty());
    c.staking_contract = None;
    let done = c.distribute_to_stakers(&at(0), addr(TOKEN), 1);
    assert_eq!(done, Err(Failure::Error(Error::NotInitialized)));
}

#[test]
fn history_keeps_every_allocation() {
    let mut c = setup();
    c.allocate(&at(1), addr(TOKEN), addr(USER), 10).unwrap();
    c.deposit(&at(2), addr(USER), addr(TOKEN), 5).unwrap();
    c.allocate(&at(3), addr(MNT), addr(DEX), -20).unwrap();
    let first = AllocationHistory { token: addr(TOKEN), recipient: addr(USER), amount: 10, timestamp: 1 };
    let second = AllocationHistory { token: addr(MNT), recipient: addr(DEX), amount: -20, timestamp: 3 };
    assert_eq!(c.get_history(), vec![first, second]);
}

#[test]
fn effects_come_in_order() {
    let mut c = setup();
    c.deposit(&at(2), addr(USER), addr(TOKEN), 5).unwrap();
    c.allocate(&at(3), addr(TOKEN), addr(USER), 6).unwrap();
    c.distribute_to_stakers(&at(4), addr(TOKEN), 7).unwrap();
    buyback(&mut c, 8, None, healthy()).unwrap();
    let transfer = |from: u128, to: u128, amount: i128| Effect::Transfer {
        token: addr(TOKEN),
        from: addr(from),
        to: addr(to),
        amount,
    };
    let want = vec![
        transfer(USER, SELF, 5),
        Effect::Deposited { from: addr(USER), token: addr(TOKEN), amount: 5 },
        transfer(SELF, USER, 6),
        Effect::Allocated { recipient: addr(USER), token: addr(TOKEN), amount: 6 },
        transfer(SELF, STAKING, 7),
        Effect::DistributeRevenue { staking_contract: addr(STAKING), token: addr(TOKEN), amount: 7 },
        Effect::Distributed { staking_contract: addr(STAKING), token: addr(TOKEN), amount: 7 },
        transfer(SELF, DEX, 8),
        Effect::Swap { dex_contract: addr(DEX), token_in: addr(TOKEN), token_out: addr(MNT), amount: 8 },
        Effect::Burn { token: addr(MNT), from: addr(SELF), amount: 8 },
        Effect::BoughtBack { token: addr(MNT), amount: 8 },
    ];
    assert_eq!(c.effects, want);
}

#[test]
fn oracle_is_asked_only_with_an_asset() {
    let c = setup();
    assert_eq!(c.buyback_query(&at(0), Some(addr(ORACLE)), None), Ok(None));
    assert_eq!(c.buyback_query(&at(0), None, Some(mnt())), Ok(None));
    let both = c.buyback_query(&at(0), Some(addr(ORACLE)), Some(mnt()));
    assert_eq!(both, Ok(Some((addr(ORACLE), mnt()))));
    let mut c = c;
    let sick = OracleHealth { active_feeders: 0, last_update: 0, is_stale: true };
    let done = c.buyback_and_burn(
        &at(0),
        addr(TOKEN),
        addr(MNT),
        addr(DEX),
        1,
        Some(addr(ORACLE)),
        None,
        &sick,
    );
    assert_eq!(done, Ok(()));
}

#[test]
fn oracle_health_is_judged() {
    assert_eq!(check_oracle_health(&healthy()), Ok(()));
    let mut h = healthy();
    h.active_feeders = 2;
    assert_eq!(check_oracle_health(&h), Err(Error::OracleUnhealthy));
    h.is_stale = true;
    assert_eq!(check_oracle_health(&h), Err(Error::OracleStale));
}

#[test]
fn treasury_error_codes() {
    let all = [
        Error::AlreadyInitialized,
        Error::NotInitialized,
        Error::Unauthorized,
        Error::InsufficientBalance,
        Error::OracleUnhealthy,
        Error::OracleStale,
    ];
    for (i, e) in all.iter().enumerate() {
        assert_eq!(e.code(), i as u32 + 1);
    }
}
