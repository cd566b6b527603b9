//! Bundles of sessions.

use mentorminds::crypto::sha256;
use mentorminds::session_nft::{Effect, NFTMintedEvent, Refusal, SessionBundleNFT};
use mentorminds::session_registry::{SessionRecord, SessionRegistry, SessionStatus};
use mentorminds::table::Table;
use mentorminds::types::{Address, Context, Digest, Failure, Symbol};

fn addr(n: u128) -> Address {
    Address { contract: false, hi: 0, lo: n }
}

fn sym(text: &str) -> Symbol {
    let mut bytes = [0u8; 16];
    bytes[..text.len()].copy_from_slice(text.as_bytes());
    Symbol { hi: u128::from_be_bytes(bytes), lo: 0 }
}

fn message(failure: Failure<Refusal>) -> &'static str {
    match failure {
        Failure::Error(r) => r.message(),
        Failure::Unauthorized => "unauthorized",
    }
}

const LEARNER: u128 = 1;
const MENTOR: u128 = 2;
const TOKEN: u128 = 3;
const FRIEND: u128 = 4;

fn dummy_hash() -> Digest {
    Digest { hi: 0, lo: 0 }
}

fn compute_hash(ids: &[&str]) -> Digest {
    sha256(&ids.concat().into_bytes())
}

struct World {
    nft: SessionBundleNFT,
    sessions: Table<Symbol, SessionRecord>,
    now: u64,
}

impl World {
    fn setup() -> World {
        World { nft: SessionBundleNFT::new(), sessions: Table::new(), now: 1_000_000 }
    }

    fn ctx(&self) -> Context {
        let authorized = (0..20).map(addr).collect();
        Context { now: self.now, sequence: 1, contract: addr(100), authorized }
    }

    fn session(&mut self, id: &str, mentor: u128, learner: u128, status: SessionStatus) -> Symbol {
        let session_id = sym(id);
        self.sessions.set(
            session_id,
            SessionRecord {
                session_id,
                mentor: addr(mentor),
                learner: addr(learner),
                scheduled_at: 1_500_000,
                duration_mins: 60,
                amount: 100,
                token: addr(TOKEN),
                status,
                registered_at: self.now,
            },
        );
        session_id
    }

    fn completed(&mut self, id: &str) -> Symbol {
        self.session(id, MENTOR, LEARNER, SessionStatus::Completed)
    }

    fn mint(&mut self, ids: Vec<Symbol>, hash: Digest, expiry: u64) -> Result<u64, Failure<Refusal>> {
        let ctx = self.ctx();
        self.nft.mint_bundle(&ctx, addr(LEARNER), &self.sessions, ids, hash, expiry)
    }

    fn minted(&mut self, n: usize, expiry: u64) -> u64 {
        let names = ["x1", "x2", "x3", "x4"];
        let ids = (0..n).map(|i| self.completed(names[i])).collect();
        self.mint(ids, dummy_hash(), expiry).unwrap()
    }
}

fn fail(done: Result<u64, Failure<Refusal>>) {
    match done {
        Ok(_) => {}
        Err(f) => panic!("{}", message(f)),
    }
}

#[test]
fn test_mint_with_completed_sessions() {
    let mut w = World::setup();
    let sid1 = w.completed("s1");
    let sid2 = w.completed("s2");
    let sid3 = w.completed("s3");
    let token_id = w.mint(vec![sid1, sid2, sid3], compute_hash(&["s1", "s2", "s3"]), 2000).unwrap();
    assert_eq!(token_id, 1);

    let bundle = w.nft.get_bundle(token_id).unwrap();
    assert_eq!(bundle.owner, addr(LEARNER));
    assert_eq!(bundle.mentor, addr(MENTOR));
    assert_eq!(bundle.sessions_total, 3);
    assert_eq!(bundle.sessions_remaining, 3);

    let stored = w.nft.get_bundled_sessions(token_id);
    assert_eq!(stored, vec![sid1, sid2, sid3]);
}

#[test]
#[should_panic(expected = "Session not completed")]
fn test_mint_with_pending_session_rejected() {
    let mut w = World::setup();
    let sid = w.session("pending1", MENTOR, LEARNER, SessionStatus::Pending);
    fail(w.mint(vec![sid], dummy_hash(), 2000));
}

#[test]
#[should_panic(expected = "Session not found")]
fn test_mint_with_unregistered_session_rejected() {
    let mut w = World::setup();
    fail(w.mint(vec![sym("nonexistent")], dummy_hash(), 2000));
}

#[test]
#[should_panic(expected = "Session learner mismatch")]
fn test_mint_with_wrong_learner_rejected() {
    let mut w = World::setup();
    let sid = w.session("s_wrong", MENTOR, FRIEND, SessionStatus::Completed);
    fail(w.mint(vec![sid], dummy_hash(), 2000));
}

#[test]
#[should_panic(expected = "No sessions provided")]
fn test_mint_with_empty_session_ids() {
    let mut w = World::setup();
    fail(w.mint(vec![], dummy_hash(), 2000));
}

#[test]
fn test_verify_provenance_returns_true() {
    let mut w = World::setup();
    let sid1 = w.completed("p1");
    let sid2 = w.completed("p2");
    let token_id = w.mint(vec![sid1, sid2], compute_hash(&["p1", "p2"]), 2000).unwrap();
    assert_eq!(w.nft.verify_nft_provenance(token_id, &w.sessions), Ok(true));
}

#[test]
fn test_verify_provenance_false_if_session_cancelled() {
    let mut w = World::setup();
    let sid1 = w.completed("c1");
    let sid2 = w.completed("c2");
    let token_id = w.mint(vec![sid1, sid2], compute_hash(&["c1", "c2"]), 2000).unwrap();
    w.session("c1", MENTOR, LEARNER, SessionStatus::Cancelled);
    assert_eq!(w.nft.verify_nft_provenance(token_id, &w.sessions), Ok(false));
}

#[test]
fn test_verify_provenance_false_for_nonexistent_nft() {
    let w = World::setup();
    assert_eq!(w.nft.verify_nft_provenance(999, &w.sessions), Ok(false));
}

#[test]
fn test_redeem_still_works() {
    let mut w = World::setup();
    let sid = w.completed("r1");
    let token_id = w.mint(vec![sid], compute_hash(&["r1"]), 2000).unwrap();
    let ctx = w.ctx();
    w.nft.redeem(&ctx, addr(LEARNER), token_id).unwrap();
    assert_eq!(w.nft.get_bundle(token_id).unwrap().sessions_remaining, 0);
}

#[test]
fn test_transfer_still_works() {
    let mut w = World::setup();
    let sid = w.completed("t1");
    let token_id = w.mint(vec![sid], compute_hash(&["t1"]), 2000).unwrap();
    let ctx = w.ctx();
    w.nft.transfer(&ctx, addr(LEARNER), addr(FRIEND), token_id).unwrap();
    assert_eq!(w.nft.get_bundle(token_id).unwrap().owner, addr(FRIEND));
}

#[test]
fn test_burn_cleans_up_bundled_sessions() {
    let mut w = World::setup();
    let sid = w.completed("b1");
    let token_id = w.mint(vec![sid], compute_hash(&["b1"]), 100).unwrap();
    w.now = 200;
    let ctx = w.ctx();
    w.nft.burn(&ctx, addr(LEARNER), token_id).unwrap();
    assert_eq!(w.nft.get_bundled_sessions(token_id).len(), 0);
}

#[test]
fn test_nft_minted_event_contains_session_ids_hash() {
    let mut w = World::setup();
    let sid1 = w.completed("e1");
    let sid2 = w.completed("e2");
    let hash = compute_hash(&["e1", "e2"]);
    let token_id = w.mint(vec![sid1, sid2], hash, 2000).unwrap();
    let event = NFTMintedEvent {
        nft_id: token_id,
        learner: addr(LEARNER),
        session_count: 2,
        session_ids_hash: hash,
    };
    assert_eq!(w.nft.effects[0], Effect::Minted { token_id, event });
}

#[test]
fn bundle_of_two_mentors_is_refused() {
    let mut w = World::setup();
    let a = w.completed("a");
    let b = w.session("b", 9, LEARNER, SessionStatus::Completed);
    assert_eq!(message(w.mint(vec![a, b], dummy_hash(), 5).unwrap_err()), "Sessions have different mentors");
    assert_eq!(w.nft.get_bundle(1), Err(Failure::Error(Refusal::BundleNotFound)));
}

#[test]
fn first_fault_decides() {
    let mut w = World::setup();
    let a = w.completed("a");
    let p = w.session("p", MENTOR, LEARNER, SessionStatus::Confirmed);
    let done = w.mint(vec![a, p, sym("zz")], dummy_hash(), 5);
    assert_eq!(message(done.unwrap_err()), "Session not completed");
    let done = w.mint(vec![a, sym("zz"), p], dummy_hash(), 5);
    assert_eq!(message(done.unwrap_err()), "Session not found");
}

#[test]
fn minting_needs_the_learner_and_a_free_number() {
    let mut w = World::setup();
    let a = w.completed("a");
    let nobody = Context { now: 0, sequence: 0, contract: addr(100), authorized: vec![] };
    let done = w.nft.mint_bundle(&nobody, addr(LEARNER), &w.sessions, vec![a], dummy_hash(), 5);
    assert_eq!(done, Err(Failure::Unauthorized));
    w.nft.token_id_counter = u64::MAX;
    let done = w.mint(vec![a], dummy_hash(), 5);
    assert_eq!(message(done.unwrap_err()), "arithmetic out of range");
}

#[test]
fn sessions_of_the_registry_back_a_bundle() {
    let mut registry = SessionRegistry::new();
    let mut w = World::setup();
    let ctx = w.ctx();
    registry.initialize(addr(0)).unwrap();
    let id = sym("real");
    registry
        .register_session(&ctx, id, addr(MENTOR), addr(LEARNER), 2_000_000, 60, 1, addr(TOKEN))
        .unwrap();
    let done = w.nft.mint_bundle(&ctx, addr(LEARNER), &registry.sessions, vec![id], dummy_hash(), 5);
    assert_eq!(message(done.unwrap_err()), "Session not completed");
    registry.update_status(&ctx, id, SessionStatus::Completed).unwrap();
    let done = w.nft.mint_bundle(&ctx, addr(LEARNER), &registry.sessions, vec![id], dummy_hash(), 5);
    assert_eq!(done, Ok(1));
    assert_eq!(w.nft.verify_nft_provenance(1, &registry.sessions), Ok(true));
    registry.cancel_session(&ctx, id).unwrap();
    assert_eq!(w.nft.verify_nft_provenance(1, &registry.sessions), Ok(false));
}

#[test]
fn provenance_needs_a_registry_that_knows_the_sessions() {
    let mut w = World::setup();
    let id = w.minted(2, 2_000_000);
    let empty: Table<Symbol, SessionRecord> = Table::new();
    let done = w.nft.verify_nft_provenance(id, &empty);
    assert_eq!(done, Err(Failure::Error(Refusal::SessionNotFound)));
}

#[test]
fn owners_lists_follow_the_tokens() {
    let mut w = World::setup();
    let first = w.minted(1, 2_000_000);
    let second = w.minted(2, 2_000_000);
    assert_eq!((first, second), (1, 2));
    let ids = |w: &World, who: u128| -> Vec<u64> {
        w.nft.get_bundles_by_owner(addr(who)).iter().map(|b| b.token_id).collect()
    };
    assert_eq!(ids(&w, LEARNER), vec![1, 2]);
    let ctx = w.ctx();
    w.nft.transfer(&ctx, addr(LEARNER), addr(FRIEND), first).unwrap();
    let moved = Effect::Transferred { token_id: first, from: addr(LEARNER), to: addr(FRIEND) };
    assert_eq!(w.nft.effects.last(), Some(&moved));
    assert_eq!(ids(&w, LEARNER), vec![2]);
    assert_eq!(ids(&w, FRIEND), vec![1]);
    w.nft.transfer(&ctx, addr(LEARNER), addr(LEARNER), second).unwrap();
    assert_eq!(ids(&w, LEARNER), vec![2]);
    assert_eq!(ids(&w, 9), Vec::<u64>::new());
}

#[test]
fn transfer_refusals() {
    let mut w = World::setup();
    let id = w.minted(1, 2_000_000);
    let nobody = Context { now: 0, sequence: 0, contract: addr(100), authorized: vec![] };
    let ctx = w.ctx();
    let go = |w: &mut World, ctx: &Context, from: u128, id: u64| {
        message(w.nft.transfer(ctx, addr(from), addr(9), id).unwrap_err())
    };
    assert_eq!(go(&mut w, &nobody, LEARNER, id), "unauthorized");
    assert_eq!(go(&mut w, &ctx, LEARNER, 7), "Bundle not found");
    assert_eq!(go(&mut w, &ctx, FRIEND, id), "Not the owner");
    let mut bundle = w.nft.get_bundle(id).unwrap();
    bundle.transferable = false;
    w.nft.bundles.set(id, bundle);
    assert_eq!(go(&mut w, &ctx, LEARNER, id), "Not transferable");
    bundle.transferable = true;
    w.nft.bundles.set(id, bundle);
    w.nft.owner_bundles.remove(&addr(LEARNER));
    assert_eq!(go(&mut w, &ctx, LEARNER, id), "Owner list not found");
}

#[test]
fn sessions_are_redeemed_one_by_one() {
    let mut w = World::setup();
    let id = w.minted(2, 2_000_000);
    let ctx = w.ctx();
    w.nft.redeem(&ctx, addr(LEARNER), id).unwrap();
    let n = w.nft.effects.len();
    let redeemed = Effect::Redeemed { token_id: id, holder: addr(LEARNER), sessions_remaining: 1 };
    assert_eq!(w.nft.effects[n - 2], redeemed);
    let due = Effect::SessionDue { mentor: addr(MENTOR), holder: addr(LEARNER), at: 1_000_000 };
    assert_eq!(w.nft.effects[n - 1], due);
    w.nft.redeem(&ctx, addr(LEARNER), id).unwrap();
    let done = w.nft.redeem(&ctx, addr(LEARNER), id);
    assert_eq!(message(done.unwrap_err()), "No sessions remaining");
    assert_eq!(w.nft.get_bundle(id).unwrap().sessions_total, 2);
}

#[test]
fn redemption_ends_with_the_expiry() {
    let mut w = World::setup();
    let id = w.minted(3, 1_000_500);
    w.now = 1_000_500;
    let ctx = w.ctx();
    w.nft.redeem(&ctx, addr(LEARNER), id).unwrap();
    w.now = 1_000_501;
    let ctx = w.ctx();
    let done = w.nft.redeem(&ctx, addr(LEARNER), id);
    assert_eq!(message(done.unwrap_err()), "Expired");
    let done = w.nft.redeem(&ctx, addr(FRIEND), id);
    assert_eq!(message(done.unwrap_err()), "Not the owner");
}

#[test]
fn expiry_before_the_minting_does_not_bind() {
    let mut w = World::setup();
    let id = w.minted(1, 999_999);
    w.now = 5_000_000;
    let ctx = w.ctx();
    w.nft.redeem(&ctx, addr(LEARNER), id).unwrap();
    let second = w.minted(1, 5_000_000);
    w.now = 5_000_001;
    let ctx = w.ctx();
    let done = w.nft.redeem(&ctx, addr(LEARNER), second);
    assert_eq!(message(done.unwrap_err()), "Expired");
}

#[test]
fn only_spent_or_expired_bundles_are_burned() {
    let mut w = World::setup();
    let id = w.minted(1, 2_000_000);
    let ctx = w.ctx();
    let done = w.nft.burn(&ctx, addr(LEARNER), id);
    assert_eq!(message(done.unwrap_err()), "Cannot burn: neither expired nor empty");
    w.nft.redeem(&ctx, addr(LEARNER), id).unwrap();
    let done = w.nft.burn(&ctx, addr(FRIEND), id);
    assert_eq!(message(done.unwrap_err()), "Not the owner");
    w.nft.burn(&ctx, addr(LEARNER), id).unwrap();
    let burned = Effect::Burned { token_id: id, holder: addr(LEARNER) };
    assert_eq!(w.nft.effects.last(), Some(&burned));
    assert_eq!(w.nft.get_bundle(id), Err(Failure::Error(Refusal::BundleNotFound)));
    assert_eq!(w.nft.get_bundles_by_owner(addr(LEARNER)), vec![]);
    let done = w.nft.redeem(&ctx, addr(LEARNER), id);
    assert_eq!(message(done.unwrap_err()), "Bundle not found");
    // The number is not used again.
    assert_eq!(w.minted(1, 2_000_000), 2);
}
