//! Versions, the timelock and subscriptions.

use mentorminds::types::{Address, Context, Digest, Failure, Symbol};
use mentorminds::upgrade_registry::{Effect, Error, UpgradeRecord, UpgradeRegistryContract};

fn addr(n: u128) -> Address {
    Address { contract: false, hi: 0, lo: n }
}

const ADMIN: u128 = 1;
const SUBSCRIBER: u128 = 2;

fn escrow() -> Symbol {
    let mut bytes = [0u8; 16];
    bytes[..6].copy_from_slice(b"escrow");
    Symbol { hi: u128::from_be_bytes(bytes), lo: 0 }
}

fn hash(n: u8) -> Digest {
    let half = u128::from_be_bytes([n; 16]);
    Digest { hi: half, lo: half }
}

fn at(now: u64) -> Context {
    Context { now, sequence: 1, contract: addr(100), authorized: (0..20).map(addr).collect() }
}

fn stranger(now: u64) -> Context {
    Context { now, sequence: 1, contract: addr(100), authorized: vec![addr(19)] }
}

fn setup() -> UpgradeRegistryContract {
    let mut c = UpgradeRegistryContract::new();
    c.initialize(&at(0), addr(ADMIN), 0).unwrap();
    c
}

fn setup_with_delay(delay: u64) -> UpgradeRegistryContract {
    let mut c = UpgradeRegistryContract::new();
    c.initialize(&at(1_000), addr(ADMIN), delay).unwrap();
    c
}

fn err(e: Error) -> Result<(), Failure<Error>> {
    Err(Failure::Error(e))
}

#[test]
fn test_initialize() {
    let mut c = setup();
    c.register_upgrade(&at(0), escrow(), 0, 1, hash(0)).unwrap();
}

#[test]
fn test_register_upgrade() {
    let mut c = setup();
    c.register_upgrade(&at(0), escrow(), 0, 1, hash(1)).unwrap();
    let history = c.get_upgrade_history(escrow());
    assert_eq!(history.len(), 1);
    assert_eq!(history[0].new_version, 1);
    assert_eq!(c.get_latest_version(escrow()), 1);
}

#[test]
fn test_subscribe_and_unsubscribe() {
    let mut c = setup();
    c.subscribe(&at(0), addr(SUBSCRIBER), escrow()).unwrap();
    assert_eq!(c.get_subscribers(escrow()).len(), 1);
    c.unsubscribe(&at(0), addr(SUBSCRIBER), escrow()).unwrap();
    assert_eq!(c.get_subscribers(escrow()).len(), 0);
}

#[test]
#[should_panic]
fn test_duplicate_subscribe_fails() {
    let mut c = setup();
    c.subscribe(&at(0), addr(SUBSCRIBER), escrow()).unwrap();
    c.subscribe(&at(0), addr(SUBSCRIBER), escrow()).unwrap();
}

#[test]
fn test_register_upgrade_rejects_downgrade() {
    let mut c = setup();
    c.register_upgrade(&at(0), escrow(), 0, 2, hash(0)).unwrap();
    assert_eq!(c.get_latest_version(escrow()), 2);
    let result = c.register_upgrade(&at(0), escrow(), 2, 1, hash(0));
    assert_eq!(result, err(Error::VersionNotMonotonic));
}

#[test]
fn test_register_upgrade_rejects_same_version() {
    let mut c = setup();
    c.register_upgrade(&at(0), escrow(), 0, 2, hash(0)).unwrap();
    let result = c.register_upgrade(&at(0), escrow(), 2, 2, hash(0));
    assert_eq!(result, err(Error::VersionNotMonotonic));
}

#[test]
fn test_upgrade_contract_rejects_downgrade() {
    let mut c = setup();
    c.register_upgrade(&at(0), escrow(), 0, 2, hash(0)).unwrap();
    let result = c.upgrade_contract(&at(0), escrow(), 1, hash(0));
    assert_eq!(result, err(Error::VersionNotMonotonic));
}

#[test]
fn test_upgrade_contract_rejects_same_version() {
    let mut c = setup();
    c.register_upgrade(&at(0), escrow(), 0, 2, hash(0)).unwrap();
    let result = c.upgrade_contract(&at(0), escrow(), 2, hash(0));
    assert_eq!(result, err(Error::VersionNotMonotonic));
}

#[test]
fn test_upgrade_contract_succeeds_with_higher_version() {
    let mut c = setup();
    c.register_upgrade(&at(0), escrow(), 0, 2, hash(0)).unwrap();
    let result = c.upgrade_contract(&at(0), escrow(), 3, hash(0));
    assert!(result.is_ok());
    assert_eq!(c.get_latest_version(escrow()), 3);
}

#[test]
fn test_upgrade_contract_timelock_not_elapsed() {
    let mut c = setup_with_delay(3_600);
    c.register_upgrade(&at(1_000), escrow(), 0, 1, hash(0)).unwrap();
    let result = c.upgrade_contract(&at(1_500), escrow(), 2, hash(0));
    assert_eq!(result, err(Error::TimelockNotElapsed));
}

#[test]
fn test_upgrade_contract_timelock_elapsed() {
    let mut c = setup_with_delay(3_600);
    c.register_upgrade(&at(1_000), escrow(), 0, 1, hash(0)).unwrap();
    let result = c.upgrade_contract(&at(5_000), escrow(), 2, hash(0));
    assert!(result.is_ok());
    assert_eq!(c.get_latest_version(escrow()), 2);
}

#[test]
fn test_two_step_upgrade_happy_path() {
    let mut c = setup_with_delay(3_600);
    c.schedule_upgrade(&at(1_000), escrow(), 1, hash(0)).unwrap();

    let pending = c.get_pending_upgrade(escrow()).unwrap();
    assert_eq!(pending.new_version, 1);
    assert_eq!(pending.execute_after, 4_600);

    let result = c.execute_pending_upgrade(&at(2_000), escrow());
    assert_eq!(result, err(Error::TimelockNotElapsed));

    c.execute_pending_upgrade(&at(5_000), escrow()).unwrap();
    assert_eq!(c.get_latest_version(escrow()), 1);
    assert!(c.get_pending_upgrade(escrow()).is_none());
}

#[test]
fn test_schedule_upgrade_rejects_downgrade() {
    let mut c = setup();
    c.register_upgrade(&at(0), escrow(), 0, 3, hash(0)).unwrap();
    let result = c.schedule_upgrade(&at(0), escrow(), 2, hash(0));
    assert_eq!(result, err(Error::VersionNotMonotonic));
}

#[test]
fn test_execute_without_schedule_fails() {
    let mut c = setup();
    let result = c.execute_pending_upgrade(&at(0), escrow());
    assert_eq!(result, err(Error::NoPendingUpgrade));
}

#[test]
fn test_both_paths_reject_downgrade() {
    let mut c = setup();
    c.register_upgrade(&at(0), escrow(), 0, 5, hash(0)).unwrap();
    assert_eq!(c.get_latest_version(escrow()), 5);
    assert_eq!(c.upgrade_contract(&at(0), escrow(), 4, hash(0)), err(Error::VersionNotMonotonic));
    assert_eq!(c.schedule_upgrade(&at(0), escrow(), 3, hash(0)), err(Error::VersionNotMonotonic));
    assert_eq!(c.get_latest_version(escrow()), 5);
}

#[test]
fn upgrade_registry_is_initialized_once() {
    let mut c = setup_with_delay(7);
    assert_eq!(c.initialize(&at(9), addr(5), 0), err(Error::AlreadyInitialized));
    assert_eq!((c.admin, c.upgrade_delay, c.initialized_at), (Some(addr(ADMIN)), 7, 1_000));
}

#[test]
fn only_the_admin_upgrades() {
    let mut c = UpgradeRegistryContract::new();
    assert_eq!(c.schedule_upgrade(&at(0), escrow(), 1, hash(0)), err(Error::NotInitialized));
    assert_eq!(c.execute_pending_upgrade(&at(0), escrow()), err(Error::NotInitialized));
    assert_eq!(c.register_upgrade(&at(0), escrow(), 0, 1, hash(0)), err(Error::NotInitialized));
    assert_eq!(c.upgrade_contract(&at(0), escrow(), 1, hash(0)), err(Error::NotInitialized));
    let mut c = setup();
    let who = stranger(0);
    assert_eq!(c.schedule_upgrade(&who, escrow(), 1, hash(0)), Err(Failure::Unauthorized));
    assert_eq!(c.execute_pending_upgrade(&who, escrow()), Err(Failure::Unauthorized));
    assert_eq!(c.register_upgrade(&who, escrow(), 0, 1, hash(0)), Err(Failure::Unauthorized));
    assert_eq!(c.upgrade_contract(&who, escrow(), 1, hash(0)), Err(Failure::Unauthorized));
    assert_eq!(c.subscribe(&who, addr(2), escrow()), Err(Failure::Unauthorized));
    assert_eq!(c.unsubscribe(&who, addr(2), escrow()), Err(Failure::Unauthorized));
}

#[test]
fn upgrades_are_recorded_and_published() {
    let mut c = setup();
    let contract_name = escrow();
    c.register_upgrade(&at(1), contract_name, 40, 1, hash(1)).unwrap();
    c.upgrade_contract(&at(2), contract_name, 2, hash(2)).unwrap();
    c.schedule_upgrade(&at(3), contract_name, 3, hash(3)).unwrap();
    c.execute_pending_upgrade(&at(3), contract_name).unwrap();
    let record = |old_version: u32, new_version: u32, n: u8| UpgradeRecord {
        old_version,
        new_version,
        changelog_hash: hash(n),
        timestamp: n as u64,
        admin: addr(ADMIN),
    };
    assert_eq!(
        c.get_upgrade_history(contract_name),
        vec![record(40, 1, 1), record(1, 2, 2), record(2, 3, 3)]
    );
    let want = vec![
        Effect::Registered { contract_name, old_version: 40, new_version: 1, changelog_hash: hash(1) },
        Effect::Direct { contract_name, old_version: 1, new_version: 2, changelog_hash: hash(2) },
        Effect::Scheduled { contract_name, new_version: 3, changelog_hash: hash(3), execute_after: 3 },
        Effect::Executed { contract_name, old_version: 2, new_version: 3, changelog_hash: hash(3) },
    ];
    assert_eq!(c.effects, want);
}

#[test]
fn registration_waits_for_the_delay_after_an_upgrade() {
    let mut c = setup_with_delay(3_600);
    c.register_upgrade(&at(1_000), escrow(), 0, 1, hash(0)).unwrap();
    let early = c.register_upgrade(&at(4_599), escrow(), 1, 2, hash(0));
    assert_eq!(early, err(Error::TimelockNotElapsed));
    assert_eq!(c.get_latest_version(escrow()), 1);
    c.register_upgrade(&at(4_600), escrow(), 1, 2, hash(0)).unwrap();
}

#[test]
fn first_direct_upgrade_waits_for_the_delay_after_the_setup() {
    let mut c = setup_with_delay(3_600);
    let early = c.upgrade_contract(&at(4_599), escrow(), 1, hash(0));
    assert_eq!(early, err(Error::TimelockNotElapsed));
    c.upgrade_contract(&at(4_600), escrow(), 1, hash(0)).unwrap();
}

#[test]
fn first_registration_waits_for_nothing() {
    let mut c = setup_with_delay(3_600);
    c.register_upgrade(&at(1_001), escrow(), 0, 1, hash(0)).unwrap();
    assert_eq!(c.get_latest_version(escrow()), 1);
}

#[test]
fn schedule_saturates_and_replaces() {
    let mut c = setup_with_delay(u64::MAX);
    c.schedule_upgrade(&at(5), escrow(), 1, hash(0)).unwrap();
    assert_eq!(c.get_pending_upgrade(escrow()).unwrap().execute_after, u64::MAX);
    c.schedule_upgrade(&at(5), escrow(), 9, hash(1)).unwrap();
    let pending = c.get_pending_upgrade(escrow()).unwrap();
    assert_eq!((pending.new_version, pending.changelog_hash), (9, hash(1)));
    assert_eq!(pending.scheduled_by, addr(ADMIN));
}

#[test]
fn overtaken_schedule_is_refused() {
    let mut c = setup();
    c.schedule_upgrade(&at(0), escrow(), 2, hash(0)).unwrap();
    c.register_upgrade(&at(0), escrow(), 0, 5, hash(0)).unwrap();
    let result = c.execute_pending_upgrade(&at(0), escrow());
    assert_eq!(result, err(Error::VersionNotMonotonic));
    assert_eq!(c.get_latest_version(escrow()), 5);
    assert_eq!(c.get_upgrade_history(escrow()).len(), 1);
    // A higher version can be scheduled in its place.
    c.schedule_upgrade(&at(0), escrow(), 6, hash(0)).unwrap();
    c.execute_pending_upgrade(&at(0), escrow()).unwrap();
    assert_eq!(c.get_latest_version(escrow()), 6);
}

#[test]
fn timelock_comes_before_the_version() {
    let mut c = setup_with_delay(3_600);
    c.register_upgrade(&at(1_000), escrow(), 0, 1, hash(0)).unwrap();
    c.schedule_upgrade(&at(4_000), escrow(), 2, hash(0)).unwrap();
    c.upgrade_contract(&at(4_600), escrow(), 2, hash(0)).unwrap();
    let early = c.execute_pending_upgrade(&at(7_599), escrow());
    assert_eq!(early, err(Error::TimelockNotElapsed));
    let late = c.execute_pending_upgrade(&at(7_600), escrow());
    assert_eq!(late, err(Error::VersionNotMonotonic));
}

#[test]
fn contracts_are_apart() {
    let mut c = setup();
    let other = Symbol { hi: 7, lo: 7 };
    c.register_upgrade(&at(0), escrow(), 0, 5, hash(0)).unwrap();
    assert_eq!(c.get_latest_version(other), 0);
    assert_eq!(c.get_upgrade_history(other), vec![]);
    c.upgrade_contract(&at(0), other, 1, hash(0)).unwrap();
    assert_eq!(c.get_latest_version(escrow()), 5);
}

#[test]
fn subscribers_come_and_go() {
    let mut c = setup();
    let contract_name = escrow();
    for n in [2, 3, 4] {
        c.subscribe(&at(0), addr(n), contract_name).unwrap();
    }
    let added = Effect::SubscriberAdded { contract_name, subscriber: addr(4) };
    assert_eq!(c.effects.last(), Some(&added));
    assert_eq!(c.subscribe(&at(0), addr(3), contract_name), err(Error::AlreadySubscribed));
    c.unsubscribe(&at(0), addr(3), contract_name).unwrap();
    let removed = Effect::SubscriberRemoved { contract_name, subscriber: addr(3) };
    assert_eq!(c.effects.last(), Some(&removed));
    assert_eq!(c.get_subscribers(contract_name), vec![addr(2), addr(4)]);
    assert_eq!(c.unsubscribe(&at(0), addr(3), contract_name), err(Error::NotSubscribed));
    c.subscribe(&at(0), addr(3), contract_name).unwrap();
    assert_eq!(c.get_subscribers(contract_name), vec![addr(2), addr(4), addr(3)]);
}

#[test]
fn upgrade_error_codes() {
    let all = [
        Error::AlreadyInitialized,
        Error::NotInitialized,
        Error::NotAdmin,
        Error::ContractNotFound,
        Error::AlreadySubscribed,
        Error::NotSubscribed,
        Error::VersionNotMonotonic,
        Error::TimelockNotElapsed,
        Error::NoPendingUpgrade,
    ];
    for (i, e) in all.iter().enumerate() {
        assert_eq!(e.code(), i as u32 + 1);
    }
}
