//! Markets, bets and payouts.

use mentorminds::prediction_market::{
    payout, BetRecord, Effect, Error, MarketRecord, PredictionMarket, Refusal,
    DEFAULT_LIQUIDITY_PARAMETER,
};
use mentorminds::types::{Address, Context, Digest, Failure};

fn addr(n: u128) -> Address {
    Address { contract: false, hi: 0, lo: n }
}

const ADMIN: u128 = 1;
const CREATOR: u128 = 2;
const LEARNER: u128 = 3;
const TOKEN: u128 = 4;
const ALICE: u128 = 5;
const BOB: u128 = 6;
const SELF: u128 = 100;

fn at(now: u64) -> Context {
    let authorized = (0..20).map(addr).collect();
    Context { now, sequence: 1, contract: addr(SELF), authorized }
}

fn nobody(now: u64) -> Context {
    Context { now, sequence: 1, contract: addr(SELF), authorized: vec![] }
}

fn hash() -> Digest {
    Digest { hi: 0, lo: 0 }
}

fn message(failure: Failure<Refusal>) -> &'static str {
    match failure {
        Failure::Error(r) => r.message(),
        Failure::Unauthorized => "unauthorized",
    }
}

fn open(resolution_date: u64) -> PredictionMarket {
    let mut c = PredictionMarket::new();
    c.initialize(addr(ADMIN)).unwrap();
    let id = c
        .create_market(&at(0), addr(CREATOR), addr(LEARNER), hash(), resolution_date, addr(TOKEN), None)
        .unwrap();
    assert_eq!(id, 1);
    c
}

fn paid(c: &PredictionMarket, from: u128, to: u128) -> i128 {
    let mut sum: i128 = 0;
    for e in &c.effects {
        if let Effect::Transfer { token, from: f, to: t, amount } = e {
            if *token == addr(TOKEN) && *f == addr(from) && *t == addr(to) {
                sum += *amount;
            }
        }
    }
    sum
}

#[test]
fn test_create_market() {
    let mut c = PredictionMarket::new();
    c.initialize(addr(ADMIN)).unwrap();
    let market_id = c
        .create_market(&at(0), addr(CREATOR), addr(LEARNER), hash(), 1000, addr(TOKEN), None)
        .unwrap();
    assert_eq!(market_id, 1);
}

#[test]
fn test_place_bet() {
    let mut c = open(1000);
    c.place_bet(&at(0), addr(ALICE), 1, true, 100).unwrap();

    let (yes_pool, no_pool) = c.get_odds(1).unwrap();
    assert_eq!(yes_pool, 100);
    assert_eq!(no_pool, 0);

    let (yes_price, no_price) = c.get_current_price(1).unwrap();
    assert_eq!(yes_price + no_price, 10000);
}

#[test]
fn test_resolve_market() {
    let mut c = open(100);
    c.resolve_market(&at(101), 1, true).unwrap();
    let market = c.get_market(1).unwrap();
    assert!(market.resolved);
    assert_eq!(market.outcome, Some(true));
}

#[test]
#[should_panic(expected = "resolution date must be in future")]
fn test_invalid_resolution_date() {
    let mut c = PredictionMarket::new();
    c.initialize(addr(ADMIN)).unwrap();
    match c.create_market(&at(0), addr(CREATOR), addr(LEARNER), hash(), 0, addr(TOKEN), None) {
        Ok(_) => {}
        Err(f) => panic!("{}", message(f)),
    }
}

#[test]
fn market_is_initialized_once() {
    let mut c = PredictionMarket::new();
    c.initialize(addr(ADMIN)).unwrap();
    let again = c.initialize(addr(ALICE));
    assert_eq!(again, Err(Failure::Error(Refusal::AlreadyInitialized)));
    assert_eq!(c.admin, Some(addr(ADMIN)));
}

#[test]
fn market_records_what_its_creator_says() {
    let mut c = open(1000);
    let m = c.get_market(1).unwrap();
    assert_eq!(m.liquidity_parameter, DEFAULT_LIQUIDITY_PARAMETER);
    assert_eq!((m.yes_pool, m.no_pool, m.resolved, m.outcome), (0, 0, false, None));
    let digest = Digest { hi: 7, lo: 8 };
    let id = c
        .create_market(&at(5), addr(ALICE), addr(BOB), digest, 6, addr(TOKEN), Some(42))
        .unwrap();
    assert_eq!(id, 2);
    let m = c.get_market(2).unwrap();
    assert_eq!(m.id, 2);
    assert_eq!((m.creator, m.learner, m.goal_description_hash), (addr(ALICE), addr(BOB), digest));
    assert_eq!((m.resolution_date, m.token, m.liquidity_parameter), (6, addr(TOKEN), 42));
    let created = Effect::MarketCreated { market_id: 2, creator: addr(ALICE), learner: addr(BOB) };
    assert_eq!(c.effects.last(), Some(&created));
}

#[test]
fn creation_needs_the_creator_and_a_free_number() {
    let mut c = open(1000);
    let made = c.create_market(&nobody(0), addr(CREATOR), addr(LEARNER), hash(), 9, addr(TOKEN), None);
    assert_eq!(made, Err(Failure::Unauthorized));
    c.market_count = u32::MAX;
    let made = c.create_market(&at(0), addr(CREATOR), addr(LEARNER), hash(), 9, addr(TOKEN), None);
    assert_eq!(made, Err(Failure::Error(Refusal::OutOfRange)));
}

#[test]
fn bet_moves_the_amount_to_the_contract() {
    let mut c = open(1000);
    c.place_bet(&at(3), addr(ALICE), 1, false, 100).unwrap();
    assert_eq!(paid(&c, ALICE, SELF), 100);
    let placed = Effect::BetPlaced { bettor: addr(ALICE), market_id: 1, outcome: false, amount: 100 };
    assert_eq!(c.effects.last(), Some(&placed));
    let bet = c.bets.get(&(addr(ALICE), 1)).unwrap();
    assert_eq!(
        *bet,
        BetRecord { bettor: addr(ALICE), market_id: 1, outcome: false, amount: 100, claimed: false }
    );
    assert_eq!(c.get_odds(1), Ok((0, 100)));
}

#[test]
fn later_bet_stands_in_the_place_of_the_first() {
    let mut c = open(1000);
    c.place_bet(&at(0), addr(ALICE), 1, true, 100).unwrap();
    c.place_bet(&at(0), addr(ALICE), 1, false, 50).unwrap();
    let bet = c.bets.get(&(addr(ALICE), 1)).unwrap();
    assert_eq!((bet.outcome, bet.amount), (false, 50));
    assert_eq!(c.get_odds(1), Ok((100, 50)));
}

#[test]
fn bet_refusals() {
    let mut c = open(1000);
    let refused = |c: &mut PredictionMarket, ctx: Context, id: u32, amount: i128| {
        message(c.place_bet(&ctx, addr(ALICE), id, true, amount).unwrap_err())
    };
    assert_eq!(refused(&mut c, at(0), 1, 0), "invalid amount");
    assert_eq!(refused(&mut c, at(0), 1, -5), "invalid amount");
    assert_eq!(refused(&mut c, nobody(0), 1, 5), "unauthorized");
    assert_eq!(refused(&mut c, at(0), 2, 5), "market not found");
    assert_eq!(refused(&mut c, at(1000), 1, 5), "market resolution date passed");
    assert_eq!(refused(&mut c, at(0), 1, i128::MAX), "arithmetic out of range");
    assert_eq!(c.get_odds(1), Ok((0, 0)));
    c.resolve_market(&at(1000), 1, true).unwrap();
    assert_eq!(refused(&mut c, at(0), 1, 5), "market already resolved");
}

fn market(liquidity_parameter: i128, yes_pool: i128, no_pool: i128) -> MarketRecord {
    MarketRecord {
        id: 1,
        creator: addr(CREATOR),
        learner: addr(LEARNER),
        goal_description_hash: hash(),
        resolution_date: 1000,
        token: addr(TOKEN),
        yes_pool,
        no_pool,
        resolved: false,
        outcome: None,
        liquidity_parameter,
    }
}

#[test]
fn bet_on_a_market_without_liquidity_is_refused() {
    let mut c = PredictionMarket::new();
    c.markets.set(1, market(0, 0, 0));
    let done = c.place_bet(&at(0), addr(ALICE), 1, true, 5);
    assert_eq!(done, Err(Failure::Error(Refusal::OutOfRange)));
    c.markets.set(1, market(-1, 10, 10));
    let done = c.place_bet(&at(0), addr(ALICE), 1, true, 5);
    assert_eq!(message(done.unwrap_err()), "ln of non-positive number");
}

#[test]
fn bet_that_costs_more_than_its_amount_is_refused() {
    let mut c = PredictionMarket::new();
    // A bet that passes the end of the exponential's range costs far more.
    let b: i128 = 1_000_000;
    c.markets.set(1, market(b, 5 * b, 0));
    let done = c.place_bet(&at(0), addr(ALICE), 1, true, 1);
    assert_eq!(message(done.unwrap_err()), "insufficient amount for LMSR cost");
    assert_eq!(c.get_odds(1), Ok((5 * b, 0)));
}

#[test]
fn resolution_refusals() {
    let mut c = PredictionMarket::new();
    assert_eq!(c.resolve_market(&at(0), 1, true), Err(Failure::Error(Refusal::NotInitialized)));
    assert_eq!(c.cancel_market(&at(0), 1), Err(Failure::Error(Refusal::NotInitialized)));
    let mut c = open(100);
    assert_eq!(c.resolve_market(&nobody(200), 1, true), Err(Failure::Unauthorized));
    assert_eq!(message(c.resolve_market(&at(200), 9, true).unwrap_err()), "market not found");
    let early = c.resolve_market(&at(99), 1, true);
    assert_eq!(message(early.unwrap_err()), "resolution date not reached");
    c.resolve_market(&at(100), 1, false).unwrap();
    assert_eq!(c.effects.last(), Some(&Effect::MarketResolved { market_id: 1, outcome: false }));
    let again = c.resolve_market(&at(100), 1, true);
    assert_eq!(message(again.unwrap_err()), "market already resolved");
    let cancel = c.cancel_market(&at(100), 1);
    assert_eq!(message(cancel.unwrap_err()), "cannot cancel resolved market");
}

#[test]
fn winner_takes_the_losing_pool_less_the_fee() {
    let mut c = open(100);
    c.place_bet(&at(0), addr(ALICE), 1, true, 1_000).unwrap();
    c.place_bet(&at(0), addr(BOB), 1, false, 5_000).unwrap();
    c.resolve_market(&at(100), 1, true).unwrap();
    c.claim_winnings(&at(101), addr(ALICE), 1).unwrap();
    // 5000 less two percent, and the bet itself.
    assert_eq!(paid(&c, SELF, ALICE), 5_900);
    let claimed = Effect::WinningsClaimed { bettor: addr(ALICE), market_id: 1, payout: 5_900 };
    assert_eq!(c.effects.last(), Some(&claimed));
    let again = c.claim_winnings(&at(102), addr(ALICE), 1);
    assert_eq!(message(again.unwrap_err()), "winnings already claimed");
    let lost = c.claim_winnings(&at(102), addr(BOB), 1);
    assert_eq!(message(lost.unwrap_err()), "bet did not win");
    assert_eq!(paid(&c, SELF, ALICE), 5_900);
}

#[test]
fn winners_share_by_stake_and_never_exceed_the_pools() {
    let mut c = open(100);
    c.place_bet(&at(0), addr(ALICE), 1, false, 300).unwrap();
    c.place_bet(&at(0), addr(BOB), 1, false, 100).unwrap();
    c.place_bet(&at(0), addr(7), 1, true, 1_000).unwrap();
    c.resolve_market(&at(100), 1, false).unwrap();
    c.claim_winnings(&at(100), addr(ALICE), 1).unwrap();
    c.claim_winnings(&at(100), addr(BOB), 1).unwrap();
    assert_eq!(paid(&c, SELF, ALICE), 300 + 735);
    assert_eq!(paid(&c, SELF, BOB), 100 + 245);
    assert!(300 + 735 + 100 + 245 <= 1_400 - 20);
}

#[test]
fn claim_refusals() {
    let mut c = open(100);
    c.place_bet(&at(0), addr(ALICE), 1, true, 10).unwrap();
    assert_eq!(c.claim_winnings(&nobody(0), addr(ALICE), 1), Err(Failure::Unauthorized));
    let done = c.claim_winnings(&at(0), addr(ALICE), 2);
    assert_eq!(message(done.unwrap_err()), "market not found");
    let done = c.claim_winnings(&at(0), addr(ALICE), 1);
    assert_eq!(message(done.unwrap_err()), "market not resolved");
    c.cancel_market(&at(0), 1).unwrap();
    let done = c.claim_winnings(&at(0), addr(BOB), 1);
    assert_eq!(message(done.unwrap_err()), "bet not found");
    let done = c.claim_winnings(&at(0), addr(ALICE), 1);
    assert_eq!(message(done.unwrap_err()), "outcome not set");
}

#[test]
fn payout_out_of_range_is_refused() {
    let m = market(1, i128::MAX, 1);
    let bet = BetRecord { bettor: addr(ALICE), market_id: 1, outcome: false, amount: 1, claimed: false };
    assert_eq!(payout(&m, &bet), None);
    assert_eq!(payout(&market(1, 10, 0), &bet), None);
    assert_eq!(payout(&market(1, 10_000, 1), &bet), Some(9_801));
    let mut c = PredictionMarket::new();
    c.markets.set(1, MarketRecord { resolved: true, outcome: Some(false), ..m });
    c.bets.set((addr(ALICE), 1), bet);
    let done = c.claim_winnings(&at(0), addr(ALICE), 1);
    assert_eq!(done, Err(Failure::Error(Refusal::OutOfRange)));
}

#[test]
fn cancellation_gives_all_bets_back() {
    let mut c = open(100);
    c.place_bet(&at(0), addr(ALICE), 1, true, 100).unwrap();
    c.place_bet(&at(0), addr(BOB), 1, false, 70).unwrap();
    c.place_bet(&at(0), addr(ALICE), 1, false, 30).unwrap();
    assert_eq!(c.cancel_market(&nobody(0), 1), Err(Failure::Unauthorized));
    c.cancel_market(&at(1), 1).unwrap();
    assert_eq!(paid(&c, SELF, ALICE), 130);
    assert_eq!(paid(&c, SELF, BOB), 70);
    assert_eq!(c.effects.last(), Some(&Effect::MarketCancelled { market_id: 1 }));
    let m = c.get_market(1).unwrap();
    assert!(m.resolved);
    assert_eq!(m.outcome, None);
    let again = c.cancel_market(&at(1), 1);
    assert_eq!(message(again.unwrap_err()), "cannot cancel resolved market");
    let bet = c.place_bet(&at(1), addr(BOB), 1, true, 1);
    assert_eq!(message(bet.unwrap_err()), "market already resolved");
}

#[test]
fn unknown_market_has_no_record_price_or_odds() {
    let c = PredictionMarket::new();
    let missing = Failure::Error(Refusal::MarketNotFound);
    assert_eq!(c.get_market(1), Err(missing));
    assert_eq!(c.get_odds(1), Err(Failure::Error(Refusal::MarketNotFound)));
    assert_eq!(c.get_current_price(1), Err(Failure::Error(Refusal::MarketNotFound)));
}

#[test]
fn prices_follow_the_pools() {
    let b: i128 = 1_000;
    let mut c = PredictionMarket::new();
    c.markets.set(1, market(b, b, 0));
    assert_eq!(c.get_current_price(1), Ok((7310, 2690)));
    c.markets.set(1, market(b, 0, b));
    assert_eq!(c.get_current_price(1), Ok((2689, 7311)));
    c.markets.set(1, market(b, 6 * b, 0));
    assert_eq!(c.get_current_price(1), Ok((9999, 1)));
    c.markets.set(1, market(0, b, 0));
    assert_eq!(c.get_current_price(1), Err(Failure::Error(Refusal::OutOfRange)));
}

#[test]
fn market_error_codes() {
    let all = [
        Error::NotInitialized,
        Error::AlreadyInitialized,
        Error::MarketNotFound,
        Error::MarketAlreadyResolved,
        Error::MarketNotResolved,
        Error::InvalidAmount,
        Error::NotAdmin,
        Error::ResolutionNotReady,
        Error::NoWinnings,
    ];
    for (i, e) in all.iter().enumerate() {
        assert_eq!(e.code(), i as u32 + 1);
    }
    assert_eq!(Refusal::AlreadyInitialized.message(), "already initialized");
    assert_eq!(Refusal::NotInitialized.message(), "not initialized");
}
