//! Referrals, rewards and leaderboards.

use mentorminds::referral::{
    Effect, ReferralContract, ReferralRegisteredEventData, Refusal, RewardClaimedEventData, BONUS_MNT,
    LEADERBOARD_EPOCH_SECS, MAX_MULTIPLIER, REWARD_LEARNER, REWARD_MENTOR,
};
use mentorminds::types::{Address, Context, Failure};

fn addr(n: u128) -> Address {
    Address { contract: false, hi: 0, lo: n }
}

fn message(failure: Failure<Refusal>) -> &'static str {
    match failure {
        Failure::Error(r) => r.message(),
        Failure::Unauthorized => "unauthorized",
    }
}

const ADMIN: u128 = 1;
const TOKEN: u128 = 2;

struct World {
    contract: ReferralContract,
    now: u64,
    next: u128,
}

impl World {
    fn setup() -> World {
        let mut contract = ReferralContract::new();
        contract.initialize(addr(ADMIN), addr(TOKEN)).unwrap();
        World { contract, now: 1_000_000, next: 10 }
    }

    fn user(&mut self) -> Address {
        self.next += 1;
        addr(self.next)
    }

    fn ctx(&self) -> Context {
        let authorized = (0..400).map(addr).collect();
        Context { now: self.now, sequence: 1, contract: addr(3), authorized }
    }

    fn register(&mut self, referrer: Address, referee: Address, is_mentor: bool) -> Result<(), Failure<Refusal>> {
        let ctx = self.ctx();
        self.contract.register_referral(&ctx, referrer, referee, is_mentor)
    }

    fn register_n(&mut self, referrer: Address, n: u32) {
        for i in 0..n {
            let referee = self.user();
            self.register(referrer, referee, i % 2 == 0).unwrap();
        }
    }

    fn multiplier(&self, who: Address) -> u32 {
        self.contract.get_multiplier(&self.ctx(), who)
    }

    fn epoch(&self) -> u32 {
        (self.now / LEADERBOARD_EPOCH_SECS) as u32
    }

    fn balance(&self, who: Address) -> i128 {
        let mut sum: i128 = 0;
        for e in &self.contract.effects {
            if let Effect::Mint { token, to, amount } = e {
                assert_eq!(*token, addr(TOKEN));
                if *to == who {
                    sum += *amount;
                }
            }
        }
        sum
    }
}

#[test]
fn lib_test_initialization() {
    let mut w = World::setup();
    let nobody = w.user();
    assert_eq!(w.contract.get_referral_count(nobody), 0);
}

#[test]
fn test_referral_flow() {
    let mut w = World::setup();
    let referrer = w.user();
    let referee = w.user();

    w.register(referrer, referee, true).unwrap();
    assert_eq!(w.contract.get_referral_count(referrer), 1);
    assert_eq!(w.contract.get_pending_rewards(referrer), 0);

    let data = ReferralRegisteredEventData { referee, is_mentor: true };
    assert_eq!(w.contract.effects.last(), Some(&Effect::Registered { referrer, data }));

    let ctx = w.ctx();
    w.contract.fulfill_referral(&ctx, referee).unwrap();
    assert_eq!(w.contract.get_pending_rewards(referrer), REWARD_MENTOR);

    w.contract.claim_reward(&ctx, referrer).unwrap();
    assert_eq!(w.contract.get_pending_rewards(referrer), 0);
    assert_eq!(w.balance(referrer), REWARD_MENTOR);

    let data = RewardClaimedEventData { amount: REWARD_MENTOR };
    assert_eq!(w.contract.effects.last(), Some(&Effect::RewardClaimed { referrer, data }));
}

#[test]
#[should_panic(expected = "Self-referral not allowed")]
fn test_self_referral_rejection() {
    let mut w = World::setup();
    let user = w.user();
    match w.register(user, user, true) {
        Ok(()) => {}
        Err(f) => panic!("{}", message(f)),
    }
}

#[test]
#[should_panic(expected = "Referee already registered")]
fn test_duplicate_referral_rejection() {
    let mut w = World::setup();
    let referrer1 = w.user();
    let referrer2 = w.user();
    let referee = w.user();
    w.register(referrer1, referee, true).unwrap();
    match w.register(referrer2, referee, false) {
        Ok(()) => {}
        Err(f) => panic!("{}", message(f)),
    }
}

#[test]
fn test_epoch_referral_count() {
    let mut w = World::setup();
    let referrer = w.user();
    w.register_n(referrer, 5);
    assert_eq!(w.contract.get_epoch_referral_count(w.epoch(), referrer), 5);
}

#[test]
fn test_multiplier_bounded() {
    let mut w = World::setup();
    let top = w.user();
    let second = w.user();
    let third = w.user();
    let fourth = w.user();
    w.register_n(top, 10);
    w.register_n(second, 5);
    w.register_n(third, 3);
    w.register_n(fourth, 1);

    assert_eq!(w.multiplier(top), MAX_MULTIPLIER);
    assert_eq!(w.multiplier(second), 5);
    assert_eq!(w.multiplier(third), 3);
    assert_eq!(w.multiplier(fourth), 2);
    let nobody = w.user();
    assert_eq!(w.multiplier(nobody), 1);
}

#[test]
fn test_epoch_boundary_resets_rankings() {
    let mut w = World::setup();
    let early = w.user();
    w.register_n(early, 10);
    let epoch0 = w.epoch();
    assert_eq!(w.contract.get_epoch_referral_count(epoch0, early), 10);
    assert_eq!(w.multiplier(early), MAX_MULTIPLIER);

    w.now += LEADERBOARD_EPOCH_SECS;
    let late = w.user();
    w.register_n(late, 3);

    let epoch1 = w.epoch();
    assert_eq!(w.contract.get_epoch_referral_count(epoch1, late), 3);
    assert_eq!(w.contract.get_epoch_referral_count(epoch1, early), 0);
    assert_eq!(w.multiplier(early), 1);
    assert_eq!(w.multiplier(late), MAX_MULTIPLIER);
}

#[test]
fn test_distribute_epoch_bonus() {
    let mut w = World::setup();
    let top = w.user();
    let second = w.user();
    let third = w.user();
    w.register_n(top, 10);
    w.register_n(second, 5);
    w.register_n(third, 3);

    w.now += LEADERBOARD_EPOCH_SECS;
    let ctx = w.ctx();
    w.contract.distribute_epoch_bonus(&ctx).unwrap();

    assert_eq!(w.balance(top), BONUS_MNT);
    assert_eq!(w.balance(second), BONUS_MNT);
    assert_eq!(w.balance(third), BONUS_MNT);
    let nobody = w.user();
    assert_eq!(w.balance(nobody), 0);
}

#[test]
#[should_panic(expected = "bonus already distributed")]
fn test_double_bonus_distribution_rejected() {
    let mut w = World::setup();
    let top = w.user();
    w.register_n(top, 10);
    w.now += LEADERBOARD_EPOCH_SECS;
    let ctx = w.ctx();
    w.contract.distribute_epoch_bonus(&ctx).unwrap();
    match w.contract.distribute_epoch_bonus(&ctx) {
        Ok(()) => {}
        Err(f) => panic!("{}", message(f)),
    }
}

#[test]
fn test_multiplier_bounded_range() {
    let mut w = World::setup();
    let referrers: Vec<Address> = (0..15).map(|_| w.user()).collect();
    for (i, r) in referrers.iter().enumerate() {
        w.register_n(*r, 15 - i as u32);
    }
    for r in referrers.iter() {
        let m = w.multiplier(*r);
        assert!(m >= 1 && m <= MAX_MULTIPLIER, "multiplier {} out of range [1, {}]", m, MAX_MULTIPLIER);
    }
    let unknown = w.user();
    assert_eq!(w.multiplier(unknown), 1);
}

#[test]
fn test_claim_with_multiplier() {
    let mut w = World::setup();
    let top = w.user();
    let referee = w.user();
    for _ in 0..9 {
        let r = w.user();
        w.register(top, r, true).unwrap();
    }
    w.register(top, referee, true).unwrap();
    let ctx = w.ctx();
    w.contract.fulfill_referral(&ctx, referee).unwrap();

    assert_eq!(w.multiplier(top), MAX_MULTIPLIER);
    assert_eq!(w.contract.get_pending_rewards(top), REWARD_MENTOR);

    w.contract.claim_reward(&ctx, top).unwrap();
    let expected = REWARD_MENTOR * (MAX_MULTIPLIER as i128);
    assert_eq!(w.balance(top), expected);
    assert_eq!(w.contract.get_pending_rewards(top), 0);
}

#[test]
fn referral_contract_is_initialized_once() {
    let mut c = ReferralContract::new();
    assert_eq!(c.get_admin(), Err(Failure::Error(Refusal::NotInitialized)));
    c.initialize(addr(1), addr(2)).unwrap();
    assert_eq!(c.get_admin(), Ok(addr(1)));
    assert_eq!(message(c.initialize(addr(3), addr(4)).unwrap_err()), "Already initialized");
    assert_eq!(c.get_admin(), Ok(addr(1)));
}

#[test]
fn only_the_admin_acts_on_referrals() {
    let mut w = World::setup();
    let a = w.user();
    let b = w.user();
    let stranger = Context { now: 1_000_000, sequence: 1, contract: addr(3), authorized: vec![a] };
    let c = &mut w.contract;
    assert_eq!(c.register_referral(&stranger, a, b, true), Err(Failure::Unauthorized));
    assert_eq!(c.fulfill_referral(&stranger, b), Err(Failure::Unauthorized));
    assert_eq!(c.distribute_epoch_bonus(&stranger), Err(Failure::Unauthorized));
    assert_eq!(c.claim_reward(&stranger, b), Err(Failure::Unauthorized));
    let mut fresh = ReferralContract::new();
    let ctx = w.ctx();
    let done = fresh.register_referral(&ctx, a, b, true);
    assert_eq!(message(done.unwrap_err()), "Not initialized");
}

#[test]
fn rewards_depend_on_the_kind_of_referee() {
    let mut w = World::setup();
    let referrer = w.user();
    let mentor = w.user();
    let learner = w.user();
    w.register(referrer, mentor, true).unwrap();
    w.register(referrer, learner, false).unwrap();
    let ctx = w.ctx();
    w.contract.fulfill_referral(&ctx, learner).unwrap();
    assert_eq!(w.contract.get_pending_rewards(referrer), REWARD_LEARNER);
    w.contract.fulfill_referral(&ctx, mentor).unwrap();
    assert_eq!(w.contract.get_pending_rewards(referrer), REWARD_LEARNER + REWARD_MENTOR);
    assert_eq!((REWARD_LEARNER, REWARD_MENTOR), (200_000_000, 500_000_000));
    let again = w.contract.fulfill_referral(&ctx, mentor);
    assert_eq!(message(again.unwrap_err()), "Already completed");
    let missing = w.contract.fulfill_referral(&ctx, referrer);
    assert_eq!(message(missing.unwrap_err()), "Referral not found");
}

#[test]
fn nothing_to_claim_is_refused() {
    let mut w = World::setup();
    let who = w.user();
    let ctx = w.ctx();
    let done = w.contract.claim_reward(&ctx, who);
    assert_eq!(message(done.unwrap_err()), "No rewards to claim");
}

#[test]
fn claims_and_counts_out_of_range_are_refused() {
    let mut w = World::setup();
    let who = w.user();
    let referee = w.user();
    w.register_n(who, 2);
    let ctx = w.ctx();
    w.contract.pending_rewards.set(who, i128::MAX);
    let done = w.contract.claim_reward(&ctx, who);
    assert_eq!(message(done.unwrap_err()), "reward overflow");
    w.register(who, referee, true).unwrap();
    let done = w.contract.fulfill_referral(&ctx, referee);
    assert_eq!(message(done.unwrap_err()), "arithmetic out of range");
    w.contract.pending_rewards.set(who, 1);
    w.contract.mnt_token = None;
    let done = w.contract.claim_reward(&ctx, who);
    assert_eq!(message(done.unwrap_err()), "Token not set");
    w.contract.referrer_counts.set(who, u32::MAX);
    let other = w.user();
    let done = w.register(who, other, true);
    assert_eq!(message(done.unwrap_err()), "arithmetic out of range");
}

#[test]
fn first_epoch_has_none_before_it() {
    let mut w = World::setup();
    w.now = 5;
    let ctx = w.ctx();
    let done = w.contract.distribute_epoch_bonus(&ctx);
    assert_eq!(message(done.unwrap_err()), "no previous epoch");
    w.now = LEADERBOARD_EPOCH_SECS;
    w.contract.mnt_token = None;
    let ctx = w.ctx();
    let done = w.contract.distribute_epoch_bonus(&ctx);
    assert_eq!(message(done.unwrap_err()), "Token not set");
}

#[test]
fn bonus_goes_to_three_at_most() {
    let mut w = World::setup();
    let users: Vec<Address> = (0..4).map(|_| w.user()).collect();
    for (i, u) in users.iter().enumerate() {
        w.register_n(*u, i as u32 + 1);
    }
    w.now += LEADERBOARD_EPOCH_SECS;
    let ctx = w.ctx();
    w.contract.distribute_epoch_bonus(&ctx).unwrap();
    let got: Vec<i128> = users.iter().map(|u| w.balance(*u)).collect();
    assert_eq!(got, vec![0, BONUS_MNT, BONUS_MNT, BONUS_MNT]);
}

#[test]
fn leaderboard_is_ranked_and_stable() {
    let mut w = World::setup();
    let a = w.user();
    let b = w.user();
    let c = w.user();
    w.register_n(a, 2);
    w.register_n(b, 2);
    w.register_n(c, 3);
    let epoch = w.epoch();
    assert_eq!(w.contract.get_epoch_leaderboard(epoch), vec![(c, 3), (a, 2), (b, 2)]);
    w.register_n(b, 1);
    assert_eq!(w.contract.get_epoch_leaderboard(epoch), vec![(c, 3), (b, 3), (a, 2)]);
    assert_eq!(w.contract.get_epoch_leaderboard(epoch + 1), vec![]);
}

#[test]
fn leaderboard_holds_the_ten_best() {
    let mut w = World::setup();
    let users: Vec<Address> = (0..11).map(|_| w.user()).collect();
    for u in &users {
        w.register_n(*u, 1);
    }
    let epoch = w.epoch();
    let board = w.contract.get_epoch_leaderboard(epoch);
    assert_eq!(board.len(), 10);
    assert!(!board.contains(&(users[10], 1)));
    assert_eq!(w.multiplier(users[10]), 1);
    w.register_n(users[10], 1);
    let board = w.contract.get_epoch_leaderboard(epoch);
    assert_eq!(board.len(), 10);
    assert_eq!(board[0], (users[10], 2));
    assert_eq!(board[9], (users[8], 1));
    assert_eq!(w.multiplier(users[9]), 1);
}

#[test]
fn registration_touches_one_count_and_one_board() {
    let mut w = World::setup();
    let a = w.user();
    let b = w.user();
    w.register_n(a, 2);
    let epoch = w.epoch();
    w.now += LEADERBOARD_EPOCH_SECS;
    w.register_n(b, 1);
    assert_eq!(w.contract.get_epoch_referral_count(epoch + 1, b), 1);
    assert_eq!(w.contract.get_epoch_referral_count(epoch, b), 0);
    assert_eq!(w.contract.get_epoch_referral_count(epoch, a), 2);
    assert_eq!(w.contract.get_epoch_referral_count(epoch + 1, a), 0);
    assert_eq!(w.contract.get_epoch_leaderboard(epoch), vec![(a, 2)]);
    assert_eq!(w.contract.get_epoch_leaderboard(epoch + 1), vec![(b, 1)]);
}

#[test]
fn lone_single_referral_has_no_multiplier() {
    let mut w = World::setup();
    let a = w.user();
    let b = w.user();
    w.register_n(a, 1);
    assert_eq!(w.multiplier(a), 1);
    w.register_n(b, 1);
    assert_eq!(w.multiplier(a), MAX_MULTIPLIER);
    assert_eq!(w.multiplier(b), 5);
}

#[test]
fn epochs_follow_the_ledger_time() {
    let at = |now: u64| Context { now, sequence: 0, contract: addr(3), authorized: vec![] };
    assert_eq!(ReferralContract::current_epoch(&at(0)), 0);
    assert_eq!(ReferralContract::current_epoch(&at(2_591_999)), 0);
    assert_eq!(ReferralContract::current_epoch(&at(2_592_000)), 1);
    let wrap = LEADERBOARD_EPOCH_SECS * (1u64 << 32);
    assert_eq!(ReferralContract::current_epoch(&at(wrap)), 0);
}
