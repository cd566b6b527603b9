//! Sessions and the occupancy of mentors' time.

use mentorminds::session_registry::{
    Effect, Refusal, SessionRegistry, SessionStatus, SCHEDULING_BUFFER_SECS, SLOT_SIZE_SECS,
};
use mentorminds::types::{Address, Context, Failure, Symbol};

fn addr(n: u128) -> Address {
    Address { contract: false, hi: 0, lo: n }
}

fn sym(text: &str) -> Symbol {
    let mut bytes = [0u8; 16];
    bytes[..text.len()].copy_from_slice(text.as_bytes());
    Symbol { hi: u128::from_be_bytes(bytes), lo: 0 }
}

fn message(failure: Failure<Refusal>) -> &'static str {
    match failure {
        Failure::Error(r) => r.message(),
        Failure::Unauthorized => "unauthorized",
    }
}

const BACKEND: u128 = 1;
const MENTOR: u128 = 2;
const LEARNER: u128 = 3;
const LEARNER_B: u128 = 4;
const TOKEN: u128 = 5;
const ORACLE: u128 = 6;

fn ctx() -> Context {
    let authorized = (0..20).map(addr).collect();
    Context { now: 1_000_000, sequence: 1, contract: addr(100), authorized }
}

fn stranger() -> Context {
    Context { now: 1_000_000, sequence: 1, contract: addr(100), authorized: vec![addr(19)] }
}

fn setup() -> SessionRegistry {
    let mut c = SessionRegistry::new();
    c.initialize(addr(BACKEND)).unwrap();
    c
}

fn register(
    c: &mut SessionRegistry,
    id: &str,
    learner: u128,
    start: u64,
    mins: u32,
    amount: i128,
) -> Result<Symbol, Failure<Refusal>> {
    c.register_session(&ctx(), sym(id), addr(MENTOR), addr(learner), start, mins, amount, addr(TOKEN))
}

#[test]
fn test_register_session() {
    let mut c = setup();
    let returned = register(&mut c, "sess1", LEARNER, 2_000_000, 60, 100).unwrap();
    assert_eq!(returned, sym("sess1"));

    let record = c.get_session(sym("sess1")).unwrap();
    assert_eq!(record.status, SessionStatus::Pending);
    assert_eq!(record.mentor, addr(MENTOR));
    assert_eq!(record.learner, addr(LEARNER));
    assert_eq!(record.duration_mins, 60);
}

#[test]
fn test_update_status_full_lifecycle() {
    let mut c = setup();
    register(&mut c, "sess2", LEARNER, 2_000_000, 45, 200).unwrap();
    c.update_status(&ctx(), sym("sess2"), SessionStatus::Confirmed).unwrap();
    assert_eq!(c.get_session(sym("sess2")).unwrap().status, SessionStatus::Confirmed);
    c.update_status(&ctx(), sym("sess2"), SessionStatus::Completed).unwrap();
    assert_eq!(c.get_session(sym("sess2")).unwrap().status, SessionStatus::Completed);
}

#[test]
fn test_get_sessions_by_mentor_and_learner() {
    let mut c = setup();
    for (i, id) in ["s1", "s2", "s3"].iter().enumerate() {
        let start = 2_000_000u64 + (i as u64) * 5_400;
        register(&mut c, id, LEARNER, start, 60, 100).unwrap();
    }

    assert_eq!(c.get_sessions_by_mentor(addr(MENTOR)).len(), 3);
    assert_eq!(c.get_sessions_by_learner(addr(LEARNER)).len(), 3);

    let page1 = c.get_sessions_by_mentor_page(addr(MENTOR), 0, 2);
    assert_eq!(page1.len(), 2);
    let page2 = c.get_sessions_by_mentor_page(addr(MENTOR), 2, 2);
    assert_eq!(page2.len(), 1);

    assert_eq!(c.get_mentor_session_count(addr(MENTOR)), 3);
    assert_eq!(c.get_learner_session_count(addr(LEARNER)), 3);
}

#[test]
fn test_cancel_session() {
    let mut c = setup();
    register(&mut c, "sess_cancel", LEARNER, 2_000_000, 30, 50).unwrap();
    c.update_status(&ctx(), sym("sess_cancel"), SessionStatus::Cancelled).unwrap();
    assert_eq!(c.get_session(sym("sess_cancel")).unwrap().status, SessionStatus::Cancelled);
}

#[test]
#[should_panic(expected = "Duplicate session")]
fn test_duplicate_session_rejected() {
    let mut c = setup();
    register(&mut c, "sess_dup", LEARNER, 2_000_000, 60, 100).unwrap();
    match register(&mut c, "sess_dup", LEARNER, 2_000_000, 60, 100) {
        Ok(_) => {}
        Err(f) => panic!("{}", message(f)),
    }
}

#[test]
#[should_panic(expected = "SessionConflict")]
fn test_overlapping_session_rejected() {
    let mut c = setup();
    register(&mut c, "sess_a", LEARNER, 2_000_000, 60, 100).unwrap();
    match register(&mut c, "sess_b", LEARNER_B, 2_001_800, 30, 100) {
        Ok(_) => {}
        Err(f) => panic!("{}", message(f)),
    }
}

#[test]
#[should_panic(expected = "SessionConflict")]
fn test_scheduling_buffer_enforced() {
    let mut c = setup();
    register(&mut c, "sess_a", LEARNER, 2_000_000, 60, 100).unwrap();
    match register(&mut c, "sess_b", LEARNER_B, 2_004_200, 30, 100) {
        Ok(_) => {}
        Err(f) => panic!("{}", message(f)),
    }
}

#[test]
fn test_non_overlapping_sessions_ok() {
    let mut c = setup();
    register(&mut c, "sess_a", LEARNER, 2_000_000, 60, 100).unwrap();
    register(&mut c, "sess_b", LEARNER_B, 2_005_200, 30, 100).unwrap();
    assert_eq!(c.get_mentor_session_count(addr(MENTOR)), 2);
}

#[test]
fn test_cancel_releases_schedule_for_rebooking() {
    let mut c = setup();
    register(&mut c, "sess_a", LEARNER, 2_000_000, 60, 100).unwrap();
    c.cancel_session(&ctx(), sym("sess_a")).unwrap();
    assert_eq!(c.get_session(sym("sess_a")).unwrap().status, SessionStatus::Cancelled);
    register(&mut c, "sess_b", LEARNER_B, 2_000_000, 60, 100).unwrap();
}

#[test]
fn test_get_mentor_availability() {
    let mut c = setup();
    register(&mut c, "sess_a", LEARNER, 2_000_000, 60, 100).unwrap();

    let availability = c.get_mentor_availability(addr(MENTOR), 1_999_800, 2_007_200);
    assert!(availability.len() > 0);

    let mut found_busy = false;
    let mut found_free = false;
    for (slot_start, is_available) in availability {
        if slot_start <= 2_000_000 && slot_start + SLOT_SIZE_SECS > 2_000_000 {
            assert!(!is_available);
            found_busy = true;
        }
        if slot_start >= 2_005_400 && is_available {
            found_free = true;
        }
    }
    assert!(found_busy);
    assert!(found_free);
}

#[test]
fn registry_is_initialized_once() {
    let mut c = setup();
    assert_eq!(message(c.initialize(addr(9)).unwrap_err()), "Already initialized");
    assert_eq!(c.backend, Some(addr(BACKEND)));
}

#[test]
fn only_the_backend_acts_on_sessions() {
    let mut c = SessionRegistry::new();
    let made = register(&mut c, "a", LEARNER, 0, 1, 1);
    assert_eq!(message(made.unwrap_err()), "Not initialized");
    let mut c = setup();
    register(&mut c, "a", LEARNER, 0, 1, 1).unwrap();
    let who = stranger();
    let made = c.register_session(&who, sym("b"), addr(8), addr(9), 0, 1, 1, addr(TOKEN));
    assert_eq!(made, Err(Failure::Unauthorized));
    let done = c.update_status(&who, sym("a"), SessionStatus::Confirmed);
    assert_eq!(done, Err(Failure::Unauthorized));
    assert_eq!(c.cancel_session(&who, sym("a")), Err(Failure::Unauthorized));
    assert_eq!(c.set_session_oracle(&who, addr(ORACLE)), Err(Failure::Unauthorized));
}

#[test]
fn registration_is_recorded_and_published() {
    let mut c = setup();
    register(&mut c, "a", LEARNER, 2_000_000, 60, -7).unwrap();
    let r = c.get_session(sym("a")).unwrap();
    assert_eq!((r.session_id, r.scheduled_at, r.amount), (sym("a"), 2_000_000, -7));
    assert_eq!((r.token, r.registered_at), (addr(TOKEN), 1_000_000));
    let made = Effect::SessionRegistered {
        session_id: sym("a"),
        mentor: addr(MENTOR),
        learner: addr(LEARNER),
        scheduled_at: 2_000_000,
    };
    assert_eq!(c.effects.last(), Some(&made));
    assert_eq!(c.get_sessions_by_mentor(addr(MENTOR)), vec![sym("a")]);
    assert_eq!(c.get_sessions_by_learner(addr(LEARNER)), vec![sym("a")]);
    assert_eq!(c.get_sessions_by_learner(addr(MENTOR)), vec![]);
}

#[test]
fn refused_registration_changes_nothing() {
    let mut c = setup();
    register(&mut c, "a", LEARNER, 2_000_000, 60, 1).unwrap();
    let made = register(&mut c, "b", LEARNER_B, 1_999_000, 30, 1);
    assert_eq!(message(made.unwrap_err()), "SessionConflict");
    assert_eq!(c.get_session(sym("b")), Err(Failure::Error(Refusal::SessionNotFound)));
    assert_eq!(c.get_learner_session_count(addr(LEARNER_B)), 0);
    assert_eq!(c.get_mentor_availability(addr(MENTOR), 1_998_000, 1_999_800), vec![(1_998_000, true)]);
}

#[test]
fn other_mentors_are_not_affected() {
    let mut c = setup();
    register(&mut c, "a", LEARNER, 2_000_000, 60, 1).unwrap();
    let made =
        c.register_session(&ctx(), sym("b"), addr(15), addr(LEARNER), 2_000_000, 60, 1, addr(TOKEN));
    assert_eq!(made, Ok(sym("b")));
}

#[test]
fn full_indexes_are_refused() {
    let mut c = setup();
    c.mentor_counts.set(addr(MENTOR), u32::MAX);
    let made = register(&mut c, "a", LEARNER, 0, 1, 1);
    assert_eq!(message(made.unwrap_err()), "arithmetic out of range");
    assert_eq!(c.get_mentor_availability(addr(MENTOR), 0, 1), vec![(0, true)]);
}

#[test]
fn completion_keeps_the_slots_and_cancellation_frees_them_once() {
    let mut c = setup();
    register(&mut c, "a", LEARNER, 3_600, 30, 1).unwrap();
    c.update_status(&ctx(), sym("a"), SessionStatus::Completed).unwrap();
    let changed = Effect::StatusChanged {
        session_id: sym("a"),
        from: SessionStatus::Pending,
        to: SessionStatus::Completed,
    };
    assert_eq!(c.effects.last(), Some(&changed));
    assert_eq!(message(register(&mut c, "b", LEARNER, 3_600, 30, 1).unwrap_err()), "SessionConflict");
    c.cancel_session(&ctx(), sym("a")).unwrap();
    register(&mut c, "b", LEARNER, 3_600, 30, 1).unwrap();
    // A second cancellation does not free what the other session holds.
    c.cancel_session(&ctx(), sym("a")).unwrap();
    assert_eq!(message(register(&mut c, "d", LEARNER, 3_600, 30, 1).unwrap_err()), "SessionConflict");
    let missing = c.cancel_session(&ctx(), sym("zz"));
    assert_eq!(message(missing.unwrap_err()), "Session not found");
}

#[test]
fn oracle_updates_sessions() {
    let mut c = setup();
    register(&mut c, "a", LEARNER, 3_600, 30, 1).unwrap();
    let go = |c: &mut SessionRegistry, oracle: u128, id: &str, status: SessionStatus| {
        c.update_status_from_oracle(&ctx(), addr(oracle), sym(id), status)
    };
    let done = go(&mut c, ORACLE, "a", SessionStatus::Completed);
    assert_eq!(message(done.unwrap_err()), "Session oracle not configured");
    c.set_session_oracle(&ctx(), addr(ORACLE)).unwrap();
    let done = go(&mut c, 7, "a", SessionStatus::Completed);
    assert_eq!(message(done.unwrap_err()), "Unauthorized");
    let done = go(&mut c, ORACLE, "b", SessionStatus::Completed);
    assert_eq!(message(done.unwrap_err()), "Session not found");
    let done = c.update_status_from_oracle(&stranger(), addr(ORACLE), sym("a"), SessionStatus::Completed);
    assert_eq!(done, Err(Failure::Unauthorized));
    go(&mut c, ORACLE, "a", SessionStatus::Cancelled).unwrap();
    let changed = Effect::OracleStatusChanged {
        session_id: sym("a"),
        from: SessionStatus::Pending,
        to: SessionStatus::Cancelled,
    };
    assert_eq!(c.effects.last(), Some(&changed));
    register(&mut c, "b", LEARNER, 3_600, 30, 1).unwrap();
}

#[test]
fn occupied_window_has_its_buffer_and_saturates() {
    assert_eq!(SessionRegistry::occupied_end(2_000_000, 60), 2_004_500);
    assert_eq!(SessionRegistry::occupied_end(0, 0), SCHEDULING_BUFFER_SECS);
    assert_eq!(SessionRegistry::occupied_end(u64::MAX - 10, 1), u64::MAX);
}

#[test]
fn sessions_at_the_end_of_time() {
    let mut c = setup();
    register(&mut c, "a", LEARNER, u64::MAX - 10, 60, 1).unwrap();
    assert_eq!(
        message(register(&mut c, "b", LEARNER, u64::MAX - 5, 60, 1).unwrap_err()),
        "SessionConflict"
    );
    // Nothing is left to occupy.
    register(&mut c, "z", LEARNER, u64::MAX, 60, 1).unwrap();
    let slots = c.get_mentor_availability(addr(MENTOR), u64::MAX - 1_800, u64::MAX);
    assert_eq!(slots.len(), 1);
    assert!(!slots[0].1);
}

#[test]
fn availability_lists_the_slots_that_start_in_the_span() {
    let mut c = setup();
    register(&mut c, "a", LEARNER, 3_600, 30, 1).unwrap();
    let m = addr(MENTOR);
    assert_eq!(
        c.get_mentor_availability(m, 0, 9_000),
        vec![(0, true), (1_800, true), (3_600, false), (5_400, false), (7_200, true)]
    );
    assert_eq!(c.get_mentor_availability(m, 1, 1_801), vec![(1_800, true)]);
    assert_eq!(c.get_mentor_availability(m, 1, 1_800), vec![]);
    assert_eq!(c.get_mentor_availability(m, 9_000, 9_000), vec![]);
    assert_eq!(c.get_mentor_availability(m, 9_000, 10), vec![]);
}

#[test]
fn pages_join() {
    let mut c = setup();
    let ids = ["a", "b", "c", "d", "e"];
    for (i, id) in ids.iter().enumerate() {
        register(&mut c, id, LEARNER, (i as u64) * 9_000, 30, 1).unwrap();
    }
    let all: Vec<Symbol> = ids.iter().map(|id| sym(id)).collect();
    for first in 0..6u32 {
        let mut joined = c.get_sessions_by_learner_page(addr(LEARNER), 0, first);
        joined.extend(c.get_sessions_by_learner_page(addr(LEARNER), first, 9));
        assert_eq!(joined, all);
    }
    assert_eq!(c.get_sessions_by_mentor_page(addr(MENTOR), 1, 2), vec![sym("b"), sym("c")]);
    assert_eq!(c.get_sessions_by_mentor_page(addr(MENTOR), 3, u32::MAX), vec![sym("d"), sym("e")]);
    assert_eq!(c.get_sessions_by_mentor_page(addr(MENTOR), 9, 2), vec![]);
    let mut joined = c.get_sessions_by_mentor_page(addr(MENTOR), 2, 1);
    joined.extend(c.get_sessions_by_mentor_page(addr(MENTOR), 3, u32::MAX - 1));
    assert_eq!(joined, c.get_sessions_by_mentor_page(addr(MENTOR), 2, u32::MAX));
}

#[test]
fn first_page_has_fifty_sessions() {
    let mut c = setup();
    for i in 0..52u64 {
        let id = Symbol { hi: 1, lo: i as u128 };
        c.register_session(&ctx(), id, addr(MENTOR), addr(LEARNER), i * 9_000, 30, 1, addr(TOKEN))
            .unwrap();
    }
    assert_eq!(c.get_sessions_by_mentor(addr(MENTOR)).len(), 50);
    assert_eq!(c.get_sessions_by_learner(addr(LEARNER)).len(), 50);
    assert_eq!(c.get_mentor_session_count(addr(MENTOR)), 52);
}

#[test]
fn tags_are_replaced() {
    let mut c = setup();
    let none: Vec<Vec<u8>> = vec![];
    assert_eq!(c.get_session_metadata(sym("a")), none);
    let tags = vec![b"rust".to_vec(), b"verus".to_vec()];
    c.update_session_metadata(sym("a"), tags.clone());
    assert_eq!(c.get_session_metadata(sym("a")), tags);
    c.update_session_metadata(sym("a"), vec![b"only".to_vec()]);
    assert_eq!(c.get_session_metadata(sym("a")), vec![b"only".to_vec()]);
    assert_eq!(c.get_session_metadata(sym("b")), none);
}

#[test]
fn slot_ranges() {
    assert_eq!(SessionRegistry::slot_range(0, 1), (0, 1));
    assert_eq!(SessionRegistry::slot_range(0, 1_800), (0, 1));
    assert_eq!(SessionRegistry::slot_range(1_799, 1_801), (0, 2));
    assert_eq!(SessionRegistry::slot_range(2_000_000, 2_004_500), (1_111, 1_114));
    assert_eq!(SessionRegistry::slot_range(5, 5), (0, 0));
}

#[test]
fn older_lists_are_merged() {
    let mut c = setup();
    assert_eq!(c.get_sessions_by_participant(addr(7)), vec![]);
    c.mentor_sessions.set(addr(7), vec![sym("a"), sym("b")]);
    c.learner_sessions.set(addr(7), vec![sym("b"), sym("c"), sym("c")]);
    assert_eq!(c.get_sessions_by_participant(addr(7)), vec![sym("a"), sym("b"), sym("c")]);
}
