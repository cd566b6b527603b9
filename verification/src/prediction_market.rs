//! Prediction markets on learning goals, priced by the logarithmic market
//! scoring rule.

use crate::fixed_point::{fits, lemma_trunc_fits, trunc_div};
use crate::lists::{copied, lemma_seqs_empty, lemma_seqs_insert, seqs};
use crate::lmsr::{
    cost_fits, cost_of, get_yes_price_bps, law_cost_monotone, lmsr_cost, lmsr_cost_fits,
    lmsr_weights_vanish, price_fits, ratio_fits, weight_sum, yes_price_fits, yes_price_of,
    FULL_PRICE_BPS,
};
use crate::sums::{
    lemma_sum_insert, lemma_sum_nonnegative, lemma_sum_scale, lemma_sum_term, sum_of,
};
use crate::table::{at_or, Table};
use crate::types::{Address, Context, Digest, Failure};
use vstd::prelude::*;

verus! {

/// What the platform keeps of the losing pool, in basis points: two percent.
pub const PLATFORM_FEE_BPS: i128 = 200;

/// Liquidity of a market whose creator names none: one tenth, in fixed point.
pub const DEFAULT_LIQUIDITY_PARAMETER: i128 = 100_000_000_000_000_000;

/// The error codes of the contract's interface.
#[derive(Clone, Copy, Debug, PartialEq, Eq, Structural)]
pub enum Error {
    NotInitialized,
    AlreadyInitialized,
    MarketNotFound,
    MarketAlreadyResolved,
    MarketNotResolved,
    InvalidAmount,
    NotAdmin,
    ResolutionNotReady,
    NoWinnings,
}

impl Error {
    /// The number that stands for the error outside.
    pub open spec fn number(self) -> u32 {
        match self {
            Error::NotInitialized => 1,
            Error::AlreadyInitialized => 2,
            Error::MarketNotFound => 3,
            Error::MarketAlreadyResolved => 4,
            Error::MarketNotResolved => 5,
            Error::InvalidAmount => 6,
            Error::NotAdmin => 7,
            Error::ResolutionNotReady => 8,
            Error::NoWinnings => 9,
        }
    }

    /// The number that stands for the error outside.
    pub fn code(&self) -> (n: u32)
        ensures
            n == self.number(),
    {
        match self {
            Error::NotInitialized => 1,
            Error::AlreadyInitialized => 2,
            Error::MarketNotFound => 3,
            Error::MarketAlreadyResolved => 4,
            Error::MarketNotResolved => 5,
            Error::InvalidAmount => 6,
            Error::NotAdmin => 7,
            Error::ResolutionNotReady => 8,
            Error::NoWinnings => 9,
        }
    }
}

/// Why the contract stops a call.
#[derive(Clone, Copy, Debug, PartialEq, Eq, Structural)]
pub enum Refusal {
    AlreadyInitialized,
    NotInitialized,
    ResolutionDateNotInFuture,
    InvalidAmount,
    MarketNotFound,
    MarketAlreadyResolved,
    ResolutionDatePassed,
    LnOfNonPositive,
    InsufficientAmount,
    ResolutionDateNotReached,
    MarketNotResolved,
    BetNotFound,
    AlreadyClaimed,
    OutcomeNotSet,
    BetDidNotWin,
    CannotCancelResolved,
    OutOfRange,
}

impl Refusal {
    /// The reason in words.
    pub open spec fn text(self) -> Seq<char> {
        match self {
            Refusal::AlreadyInitialized => "already initialized"@,
            Refusal::NotInitialized => "not initialized"@,
            Refusal::ResolutionDateNotInFuture => "resolution date must be in future"@,
            Refusal::InvalidAmount => "invalid amount"@,
            Refusal::MarketNotFound => "market not found"@,
            Refusal::MarketAlreadyResolved => "market already resolved"@,
            Refusal::ResolutionDatePassed => "market resolution date passed"@,
            Refusal::LnOfNonPositive => "ln of non-positive number"@,
            Refusal::InsufficientAmount => "insufficient amount for LMSR cost"@,
            Refusal::ResolutionDateNotReached => "resolution date not reached"@,
            Refusal::MarketNotResolved => "market not resolved"@,
            Refusal::BetNotFound => "bet not found"@,
            Refusal::AlreadyClaimed => "winnings already claimed"@,
            Refusal::OutcomeNotSet => "outcome not set"@,
            Refusal::BetDidNotWin => "bet did not win"@,
            Refusal::CannotCancelResolved => "cannot cancel resolved market"@,
            Refusal::OutOfRange => "arithmetic out of range"@,
        }
    }

    /// The reason in words.
    pub fn message(&self) -> (m: &'static str)
        ensures
            m@ == self.text(),
    {
        match self {
            Refusal::AlreadyInitialized => "already initialized",
            Refusal::NotInitialized => "not initialized",
            Refusal::ResolutionDateNotInFuture => "resolution date must be in future",
            Refusal::InvalidAmount => "invalid amount",
            Refusal::MarketNotFound => "market not found",
            Refusal::MarketAlreadyResolved => "market already resolved",
            Refusal::ResolutionDatePassed => "market resolution date passed",
            Refusal::LnOfNonPositive => "ln of non-positive number",
            Refusal::InsufficientAmount => "insufficient amount for LMSR cost",
            Refusal::ResolutionDateNotReached => "resolution date not reached",
            Refusal::MarketNotResolved => "market not resolved",
            Refusal::BetNotFound => "bet not found",
            Refusal::AlreadyClaimed => "winnings already claimed",
            Refusal::OutcomeNotSet => "outcome not set",
            Refusal::BetDidNotWin => "bet did not win",
            Refusal::CannotCancelResolved => "cannot cancel resolved market",
            Refusal::OutOfRange => "arithmetic out of range",
        }
    }
}

/// A market on whether a learner reaches a goal.
#[derive(Clone, Copy, Debug, PartialEq, Eq)]
pub struct MarketRecord {
    pub id: u32,
    pub creator: Address,
    pub learner: Address,
    pub goal_description_hash: Digest,
    pub resolution_date: u64,
    pub token: Address,
    pub yes_pool: i128,
    pub no_pool: i128,
    pub resolved: bool,
    pub outcome: Option<bool>,
    /// `b` in the cost function: higher means less slippage.
    pub liquidity_parameter: i128,
}

/// A bet on a market.
#[derive(Clone, Copy, Debug, PartialEq, Eq, Structural)]
pub struct BetRecord {
    pub bettor: Address,
    pub market_id: u32,
    pub outcome: bool,
    pub amount: i128,
    pub claimed: bool,
}

/// What a call asks of the ledger, in order.
#[derive(Clone, Copy, Debug, PartialEq, Eq, Structural)]
pub enum Effect {
    Transfer { token: Address, from: Address, to: Address, amount: i128 },
    MarketCreated { market_id: u32, creator: Address, learner: Address },
    BetPlaced { bettor: Address, market_id: u32, outcome: bool, amount: i128 },
    MarketResolved { market_id: u32, outcome: bool },
    WinningsClaimed { bettor: Address, market_id: u32, payout: i128 },
    MarketCancelled { market_id: u32 },
}

/// The contract's storage as a mathematical value.
#[verifier::ext_equal]
pub struct MarketState {
    pub admin: Option<Address>,
    pub market_count: u32,
    pub markets: Map<u32, MarketRecord>,
    pub bets: Map<(Address, u32), BetRecord>,
    pub wagers: Map<u32, Seq<(Address, i128)>>,
    pub effects: Seq<Effect>,
}

/// The prediction market contract.
pub struct PredictionMarket {
    pub admin: Option<Address>,
    /// Number of the last market made.
    pub market_count: u32,
    pub markets: Table<u32, MarketRecord>,
    /// The last bet of a bettor on a market.
    pub bets: Table<(Address, u32), BetRecord>,
    /// Every amount that was ever bet on a market, and by whom.
    pub wagers: Table<u32, Vec<(Address, i128)>>,
    /// What the calls so far ask of the ledger.
    pub effects: Vec<Effect>,
}

impl View for PredictionMarket {
    type V = MarketState;

    open spec fn view(&self) -> MarketState {
        MarketState {
            admin: self.admin,
            market_count: self.market_count,
            markets: self.markets@,
            bets: self.bets@,
            wagers: seqs(self.wagers@),
            effects: self.effects@,
        }
    }
}

/// Why the cost of a state of the pools cannot be had.
pub open spec fn cost_refusal(q_yes: int, q_no: int, b: int) -> Option<Refusal> {
    if cost_fits(q_yes, q_no, b) {
        None
    } else if ratio_fits(q_yes, b) && ratio_fits(q_no, b) && weight_sum(q_yes, q_no, b) <= 0 {
        Some(Refusal::LnOfNonPositive)
    } else {
        Some(Refusal::OutOfRange)
    }
}

/// The pools after a bet of `amount` on `outcome`.
pub open spec fn pools_after(m: MarketRecord, outcome: bool, amount: int) -> (int, int) {
    if outcome {
        (m.yes_pool + amount, m.no_pool as int)
    } else {
        (m.yes_pool as int, m.no_pool + amount)
    }
}

/// What a bet costs: the rise of the cost function, never below zero.
pub open spec fn bet_cost(m: MarketRecord, outcome: bool, amount: int) -> int {
    let b = m.liquidity_parameter as int;
    let after = pools_after(m, outcome, amount);
    let rise = cost_of(after.0, after.1, b) - cost_of(m.yes_pool as int, m.no_pool as int, b);
    if rise >= 0 {
        rise
    } else {
        0
    }
}

/// The pool of one side.
pub open spec fn pool(m: MarketRecord, outcome: bool) -> int {
    if outcome {
        m.yes_pool as int
    } else {
        m.no_pool as int
    }
}

/// What the platform keeps of a losing pool.
pub open spec fn platform_fee(losing_pool: int) -> int {
    trunc_div(losing_pool * PLATFORM_FEE_BPS, 10_000)
}

/// What a bet earns of the losing pool: in proportion to the winning pool.
pub open spec fn winning_share(m: MarketRecord, bet: BetRecord) -> int {
    let losing = pool(m, !bet.outcome);
    trunc_div((losing - platform_fee(losing)) * bet.amount, pool(m, bet.outcome))
}

/// What a winning bet is paid: its amount, and its share.
pub open spec fn payout_of(m: MarketRecord, bet: BetRecord) -> int {
    bet.amount + winning_share(m, bet)
}

/// The payout can be computed.
pub open spec fn payout_fits(m: MarketRecord, bet: BetRecord) -> bool {
    let losing = pool(m, !bet.outcome);
    &&& fits(losing * PLATFORM_FEE_BPS)
    &&& pool(m, bet.outcome) != 0
    &&& fits((losing - platform_fee(losing)) * bet.amount)
    &&& fits(winning_share(m, bet))
    &&& fits(payout_of(m, bet))
}

impl MarketState {
    /// The storage of a contract that was just deployed.
    pub open spec fn fresh() -> MarketState {
        MarketState {
            admin: None,
            market_count: 0,
            markets: Map::empty(),
            bets: Map::empty(),
            wagers: Map::empty(),
            effects: Seq::empty(),
        }
    }

    /// Every amount that was bet on a market, in order.
    pub open spec fn wagered(self, market_id: u32) -> Seq<(Address, i128)> {
        at_or(self.wagers, market_id, Seq::empty())
    }

    pub open spec fn initialize_refusal(self) -> Option<Failure<Refusal>> {
        if self.admin is Some {
            Some(Failure::Error(Refusal::AlreadyInitialized))
        } else {
            None
        }
    }

    pub open spec fn initialized(self, admin: Address) -> MarketState {
        MarketState { admin: Some(admin), market_count: 0, ..self }
    }

    pub open spec fn create_refusal(
        self,
        ctx: Context,
        creator: Address,
        resolution_date: u64,
    ) -> Option<Failure<Refusal>> {
        if !ctx.authorizes(creator) {
            Some(Failure::Unauthorized)
        } else if resolution_date <= ctx.now {
            Some(Failure::Error(Refusal::ResolutionDateNotInFuture))
        } else if self.market_count == u32::MAX {
            Some(Failure::Error(Refusal::OutOfRange))
        } else {
            None
        }
    }

    /// The next market, with empty pools, under the next number.
    pub open spec fn created(
        self,
        creator: Address,
        learner: Address,
        goal_description_hash: Digest,
        resolution_date: u64,
        token: Address,
        liquidity_parameter: Option<i128>,
    ) -> MarketState {
        let id = (self.market_count + 1) as u32;
        let market = MarketRecord {
            id,
            creator,
            learner,
            goal_description_hash,
            resolution_date,
            token,
            yes_pool: 0,
            no_pool: 0,
            resolved: false,
            outcome: None,
            liquidity_parameter: match liquidity_parameter {
                Some(b) => b,
                None => DEFAULT_LIQUIDITY_PARAMETER,
            },
        };
        MarketState {
            market_count: id,
            markets: self.markets.insert(id, market),
            effects: self.effects.push(Effect::MarketCreated { market_id: id, creator, learner }),
            ..self
        }
    }

    pub open spec fn bet_refusal(
        self,
        ctx: Context,
        bettor: Address,
        market_id: u32,
        outcome: bool,
        amount: i128,
    ) -> Option<Failure<Refusal>> {
        let m = self.markets[market_id];
        let b = m.liquidity_parameter as int;
        let after = pools_after(m, outcome, amount as int);
        let cost_before = cost_refusal(m.yes_pool as int, m.no_pool as int, b);
        let cost_after = cost_refusal(after.0, after.1, b);
        if amount <= 0 {
            Some(Failure::Error(Refusal::InvalidAmount))
        } else if !ctx.authorizes(bettor) {
            Some(Failure::Unauthorized)
        } else if !self.markets.contains_key(market_id) {
            Some(Failure::Error(Refusal::MarketNotFound))
        } else if m.resolved {
            Some(Failure::Error(Refusal::MarketAlreadyResolved))
        } else if ctx.now >= m.resolution_date {
            Some(Failure::Error(Refusal::ResolutionDatePassed))
        } else if cost_before is Some {
            Some(Failure::Error(cost_before->0))
        } else if !fits(after.0) || !fits(after.1) {
            Some(Failure::Error(Refusal::OutOfRange))
        } else if cost_after is Some {
            Some(Failure::Error(cost_after->0))
        } else if !fits(bet_cost(m, outcome, amount as int)) {
            Some(Failure::Error(Refusal::OutOfRange))
        } else if bet_cost(m, outcome, amount as int) > amount {
            Some(Failure::Error(Refusal::InsufficientAmount))
        } else {
            None
        }
    }

    /// The bettor's amount goes to the contract and onto the pool of the
    /// outcome. The bet stands in the place of an earlier one on this market.
    pub open spec fn with_bet(
        self,
        ctx: Context,
        bettor: Address,
        market_id: u32,
        outcome: bool,
        amount: i128,
    ) -> MarketState {
        let m = self.markets[market_id];
        let after = pools_after(m, outcome, amount as int);
        MarketState {
            markets: self.markets.insert(
                market_id,
                MarketRecord { yes_pool: after.0 as i128, no_pool: after.1 as i128, ..m },
            ),
            bets: self.bets.insert(
                (bettor, market_id),
                BetRecord { bettor, market_id, outcome, amount, claimed: false },
            ),
            wagers: self.wagers.insert(market_id, self.wagered(market_id).push((bettor, amount))),
            effects: self.effects.push(
                Effect::Transfer { token: m.token, from: bettor, to: ctx.contract, amount },
            ).push(Effect::BetPlaced { bettor, market_id, outcome, amount }),
            ..self
        }
    }

    /// The admin, and nobody else, may act on an open market.
    pub open spec fn closing_refusal(
        self,
        ctx: Context,
        market_id: u32,
        when_resolved: Refusal,
    ) -> Option<Failure<Refusal>> {
        if self.admin is None {
            Some(Failure::Error(Refusal::NotInitialized))
        } else if !ctx.authorizes(self.admin->0) {
            Some(Failure::Unauthorized)
        } else if !self.markets.contains_key(market_id) {
            Some(Failure::Error(Refusal::MarketNotFound))
        } else if self.markets[market_id].resolved {
            Some(Failure::Error(when_resolved))
        } else {
            None
        }
    }

    pub open spec fn resolve_refusal(self, ctx: Context, market_id: u32) -> Option<
        Failure<Refusal>,
    > {
        let closing = self.closing_refusal(ctx, market_id, Refusal::MarketAlreadyResolved);
        if closing is Some {
            closing
        } else if ctx.now < self.markets[market_id].resolution_date {
            Some(Failure::Error(Refusal::ResolutionDateNotReached))
        } else {
            None
        }
    }

    pub open spec fn resolved(self, market_id: u32, outcome: bool) -> MarketState {
        MarketState {
            markets: self.markets.insert(
                market_id,
                MarketRecord {
                    resolved: true,
                    outcome: Some(outcome),
                    ..self.markets[market_id]
                },
            ),
            effects: self.effects.push(Effect::MarketResolved { market_id, outcome }),
            ..self
        }
    }

    pub open spec fn cancel_refusal(self, ctx: Context, market_id: u32) -> Option<
        Failure<Refusal>,
    > {
        self.closing_refusal(ctx, market_id, Refusal::CannotCancelResolved)
    }

    /// The transfers that give every amount bet on a market back.
    pub open spec fn refunds(self, ctx: Context, market_id: u32) -> Seq<Effect> {
        let token = self.markets[market_id].token;
        self.wagered(market_id).map_values(
            |w: (Address, i128)|
                Effect::Transfer { token, from: ctx.contract, to: w.0, amount: w.1 },
        )
    }

    /// A cancelled market is closed without an outcome, and all bets on it are
    /// given back.
    pub open spec fn cancelled(self, ctx: Context, market_id: u32) -> MarketState {
        MarketState {
            markets: self.markets.insert(
                market_id,
                MarketRecord { resolved: true, ..self.markets[market_id] },
            ),
            effects: (self.effects + self.refunds(ctx, market_id)).push(
                Effect::MarketCancelled { market_id },
            ),
            ..self
        }
    }

    pub open spec fn claim_refusal(self, ctx: Context, bettor: Address, market_id: u32) -> Option<
        Failure<Refusal>,
    > {
        let m = self.markets[market_id];
        let bet = self.bets[(bettor, market_id)];
        if !ctx.authorizes(bettor) {
            Some(Failure::Unauthorized)
        } else if !self.markets.contains_key(market_id) {
            Some(Failure::Error(Refusal::MarketNotFound))
        } else if !m.resolved {
            Some(Failure::Error(Refusal::MarketNotResolved))
        } else if !self.bets.contains_key((bettor, market_id)) {
            Some(Failure::Error(Refusal::BetNotFound))
        } else if bet.claimed {
            Some(Failure::Error(Refusal::AlreadyClaimed))
        } else if m.outcome is None {
            Some(Failure::Error(Refusal::OutcomeNotSet))
        } else if bet.outcome != m.outcome->0 {
            Some(Failure::Error(Refusal::BetDidNotWin))
        } else if !payout_fits(m, bet) {
            Some(Failure::Error(Refusal::OutOfRange))
        } else {
            None
        }
    }

    pub open spec fn claimed(self, ctx: Context, bettor: Address, market_id: u32) -> MarketState {
        let m = self.markets[market_id];
        let bet = self.bets[(bettor, market_id)];
        let payout = payout_of(m, bet) as i128;
        MarketState {
            bets: self.bets.insert((bettor, market_id), BetRecord { claimed: true, ..bet }),
            effects: self.effects.push(
                Effect::Transfer {
                    token: m.token,
                    from: ctx.contract,
                    to: bettor,
                    amount: payout,
                },
            ).push(Effect::WinningsClaimed { bettor, market_id, payout }),
            ..self
        }
    }
}

/// The cost of a state of the pools, or why it cannot be had.
fn checked_cost(q_yes: i128, q_no: i128, b: i128) -> (cost: Result<i128, Refusal>)
    ensures
        match cost {
            Ok(c) => cost_refusal(q_yes as int, q_no as int, b as int) is None && c == cost_of(
                q_yes as int,
                q_no as int,
                b as int,
            ),
            Err(r) => cost_refusal(q_yes as int, q_no as int, b as int) == Some(r),
        },
{
    if lmsr_cost_fits(q_yes, q_no, b) {
        Ok(lmsr_cost(q_yes, q_no, b))
    } else if lmsr_weights_vanish(q_yes, q_no, b) {
        Err(Refusal::LnOfNonPositive)
    } else {
        Err(Refusal::OutOfRange)
    }
}

/// What a bet is paid once its outcome has won, or nothing where the amounts
/// leave the range.
pub fn payout(m: &MarketRecord, bet: &BetRecord) -> (paid: Option<i128>)
    ensures
        paid is Some <==> payout_fits(*m, *bet),
        paid matches Some(p) ==> p == payout_of(*m, *bet),
{
    let losing_pool: i128 = if bet.outcome {
        m.no_pool
    } else {
        m.yes_pool
    };
    let winning_pool: i128 = if bet.outcome {
        m.yes_pool
    } else {
        m.no_pool
    };
    match losing_pool.checked_mul(PLATFORM_FEE_BPS) {
        None => None,
        Some(scaled) => {
            let platform_fee: i128 = scaled / 10_000;
            let net_winnings: i128 = losing_pool - platform_fee;
            match net_winnings.checked_mul(bet.amount) {
                None => None,
                Some(product) => {
                    if winning_pool == 0 || (winning_pool == -1 && product == i128::MIN) {
                        proof {
                            let most = -product;
                            assert(most / (-1) == -most) by (nonlinear_arith);
                        }
                        None
                    } else {
                        proof {
                            lemma_trunc_fits(product as int, winning_pool as int);
                        }
                        let share: i128 = product / winning_pool;
                        bet.amount.checked_add(share)
                    }
                },
            }
        },
    }
}

impl PredictionMarket {
    /// A contract with empty storage.
    pub fn new() -> (contract: PredictionMarket)
        ensures
            contract@ == MarketState::fresh(),
            contract@.valid(),
    {
        proof {
            law_fresh_is_valid();
        }
        proof {
            lemma_seqs_empty::<u32, (Address, i128)>();
        }
        PredictionMarket {
            admin: None,
            market_count: 0,
            markets: Table::new(),
            bets: Table::new(),
            wagers: Table::new(),
            effects: Vec::new(),
        }
    }

    /// Names the admin, once.
    pub fn initialize(&mut self, admin: Address) -> (done: Result<(), Failure<Refusal>>)
        ensures
            match done {
                Ok(()) => old(self)@.initialize_refusal() is None && final(self)@ == old(
                    self)@.initialized(admin),
                Err(f) => old(self)@.initialize_refusal() == Some(f) && final(self)@ == old(self)@,
            },
            old(self)@.valid() && old(self)@.market_count == 0 ==> final(self)@.valid(),
    {
        if self.admin.is_some() {
            return Err(Failure::Error(Refusal::AlreadyInitialized));
        }
        self.admin = Some(admin);
        self.market_count = 0;
        proof {
            if old(self)@.valid() && old(self)@.market_count == 0 {
                law_initialize_keeps_valid(old(self)@, admin);
            }
        }
        Ok(())
    }

    /// Opens a market with empty pools and gives its number. A higher
    /// `liquidity_parameter` means less slippage.
    pub fn create_market(
        &mut self,
        ctx: &Context,
        creator: Address,
        learner: Address,
        goal_description_hash: Digest,
        resolution_date: u64,
        token: Address,
        liquidity_parameter: Option<i128>,
    ) -> (done: Result<u32, Failure<Refusal>>)
        ensures
            match done {
                Ok(id) => old(self)@.create_refusal(*ctx, creator, resolution_date) is None
                    && final(self)@ == old(self)@.created(
                    creator,
                    learner,
                    goal_description_hash,
                    resolution_date,
                    token,
                    liquidity_parameter,
                ) && id == old(self)@.market_count + 1,
                Err(f) => old(self)@.create_refusal(*ctx, creator, resolution_date) == Some(f)
                    && final(self)@ == old(self)@,
            },
            old(self)@.valid() ==> final(self)@.valid(),
    {
        if !ctx.has_auth(creator) {
            return Err(Failure::Unauthorized);
        }
        if resolution_date <= ctx.now {
            return Err(Failure::Error(Refusal::ResolutionDateNotInFuture));
        }
        if self.market_count == u32::MAX {
            return Err(Failure::Error(Refusal::OutOfRange));
        }
        let market_id: u32 = self.market_count + 1;
        let b: i128 = match liquidity_parameter {
            Some(b) => b,
            None => DEFAULT_LIQUIDITY_PARAMETER,
        };
        let market = MarketRecord {
            id: market_id,
            creator,
            learner,
            goal_description_hash,
            resolution_date,
            token,
            yes_pool: 0,
            no_pool: 0,
            resolved: false,
            outcome: None,
            liquidity_parameter: b,
        };
        self.markets.set(market_id, market);
        self.market_count = market_id;
        self.effects.push(Effect::MarketCreated { market_id, creator, learner });
        proof {
            if old(self)@.valid() {
                law_create_keeps_valid(
                    old(self)@,
                    *ctx,
                    creator,
                    learner,
                    goal_description_hash,
                    resolution_date,
                    token,
                    liquidity_parameter,
                );
            }
        }
        Ok(market_id)
    }

    /// Bets `amount` on an outcome. The bet goes through where the rise of the
    /// cost function does not exceed the amount.
    pub fn place_bet(
        &mut self,
        ctx: &Context,
        bettor: Address,
        market_id: u32,
        outcome: bool,
        amount: i128,
    ) -> (done: Result<(), Failure<Refusal>>)
        ensures
            match done {
                Ok(()) => old(self)@.bet_refusal(*ctx, bettor, market_id, outcome, amount) is None
                    && final(self)@ == old(self)@.with_bet(
                    *ctx,
                    bettor,
                    market_id,
                    outcome,
                    amount,
                ),
                Err(f) => old(self)@.bet_refusal(*ctx, bettor, market_id, outcome, amount) == Some(
                    f,
                ) && final(self)@ == old(self)@,
            },
            old(self)@.valid() ==> final(self)@.valid(),
    {
        if amount <= 0 {
            return Err(Failure::Error(Refusal::InvalidAmount));
        }
        if !ctx.has_auth(bettor) {
            return Err(Failure::Unauthorized);
        }
        let market: MarketRecord = match self.markets.get(&market_id) {
            Some(m) => *m,
            None => {
                return Err(Failure::Error(Refusal::MarketNotFound));
            },
        };
        if market.resolved {
            return Err(Failure::Error(Refusal::MarketAlreadyResolved));
        }
        if ctx.now >= market.resolution_date {
            return Err(Failure::Error(Refusal::ResolutionDatePassed));
        }
        let b: i128 = market.liquidity_parameter;
        let old_cost: i128 = match checked_cost(market.yes_pool, market.no_pool, b) {
            Ok(c) => c,
            Err(r) => {
                return Err(Failure::Error(r));
            },
        };
        let grown: Option<i128> = if outcome {
            market.yes_pool.checked_add(amount)
        } else {
            market.no_pool.checked_add(amount)
        };
        let (new_yes_pool, new_no_pool): (i128, i128) = match grown {
            None => {
                return Err(Failure::Error(Refusal::OutOfRange));
            },
            Some(p) => if outcome {
                (p, market.no_pool)
            } else {
                (market.yes_pool, p)
            },
        };
        let new_cost: i128 = match checked_cost(new_yes_pool, new_no_pool, b) {
            Ok(c) => c,
            Err(r) => {
                return Err(Failure::Error(r));
            },
        };
        let cost: i128 = if new_cost >= old_cost {
            match new_cost.checked_sub(old_cost) {
                Some(c) => c,
                None => {
                    return Err(Failure::Error(Refusal::OutOfRange));
                },
            }
        } else {
            0
        };
        if cost > amount {
            return Err(Failure::Error(Refusal::InsufficientAmount));
        }
        let mut updated: MarketRecord = market;
        updated.yes_pool = new_yes_pool;
        updated.no_pool = new_no_pool;
        self.effects.push(
            Effect::Transfer { token: market.token, from: bettor, to: ctx.contract, amount },
        );
        self.markets.set(market_id, updated);
        self.bets.set(
            (bettor, market_id),
            BetRecord { bettor, market_id, outcome, amount, claimed: false },
        );
        self.record_wager(market_id, bettor, amount);
        self.effects.push(Effect::BetPlaced { bettor, market_id, outcome, amount });
        proof {
            if old(self)@.valid() {
                law_bet_keeps_valid(old(self)@, *ctx, bettor, market_id, outcome, amount);
            }
        }
        Ok(())
    }

    /// Remembers an amount that was bet on a market.
    fn record_wager(&mut self, market_id: u32, bettor: Address, amount: i128)
        ensures
            final(self)@ == (MarketState {
                wagers: old(self)@.wagers.insert(
                    market_id,
                    old(self)@.wagered(market_id).push((bettor, amount)),
                ),
                ..old(self)@
            }),
    {
        let ghost before = self.wagers@;
        let mut list: Vec<(Address, i128)> = match self.wagers.remove(&market_id) {
            Some(list) => list,
            None => Vec::new(),
        };
        assert(list@ =~= old(self)@.wagered(market_id));
        list.push((bettor, amount));
        proof {
            lemma_seqs_insert(before, market_id, list);
        }
        self.wagers.set(market_id, list);
    }

    /// The market that the admin may still close.
    fn open_market(&self, ctx: &Context, market_id: u32, when_resolved: Refusal) -> (found: Result<
        MarketRecord,
        Failure<Refusal>,
    >)
        ensures
            match found {
                Ok(m) => self@.closing_refusal(*ctx, market_id, when_resolved) is None && m
                    == self@.markets[market_id],
                Err(f) => self@.closing_refusal(*ctx, market_id, when_resolved) == Some(f),
            },
    {
        let admin: Address = match self.admin {
            Some(a) => a,
            None => {
                return Err(Failure::Error(Refusal::NotInitialized));
            },
        };
        if !ctx.has_auth(admin) {
            return Err(Failure::Unauthorized);
        }
        match self.markets.get(&market_id) {
            Some(m) => if m.resolved {
                Err(Failure::Error(when_resolved))
            } else {
                Ok(*m)
            },
            None => Err(Failure::Error(Refusal::MarketNotFound)),
        }
    }

    /// Closes a market with its outcome; for the admin, from the resolution
    /// date on.
    pub fn resolve_market(&mut self, ctx: &Context, market_id: u32, outcome: bool) -> (done: Result<
        (),
        Failure<Refusal>,
    >)
        ensures
            match done {
                Ok(()) => old(self)@.resolve_refusal(*ctx, market_id) is None && final(self)@
                    == old(self)@.resolved(market_id, outcome),
                Err(f) => old(self)@.resolve_refusal(*ctx, market_id) == Some(f) && final(self)@
                    == old(self)@,
            },
            old(self)@.valid() ==> final(self)@.valid(),
    {
        let mut market: MarketRecord = match self.open_market(
            ctx,
            market_id,
            Refusal::MarketAlreadyResolved,
        ) {
            Ok(m) => m,
            Err(f) => {
                return Err(f);
            },
        };
        if ctx.now < market.resolution_date {
            return Err(Failure::Error(Refusal::ResolutionDateNotReached));
        }
        market.resolved = true;
        market.outcome = Some(outcome);
        self.markets.set(market_id, market);
        self.effects.push(Effect::MarketResolved { market_id, outcome });
        proof {
            if old(self)@.valid() {
                law_closing_keeps_valid(old(self)@, *ctx, market_id, outcome);
            }
        }
        Ok(())
    }

    /// Pays a winning bet, once.
    pub fn claim_winnings(&mut self, ctx: &Context, bettor: Address, market_id: u32) -> (done:
        Result<(), Failure<Refusal>>)
        ensures
            match done {
                Ok(()) => old(self)@.claim_refusal(*ctx, bettor, market_id) is None && final(self)@
                    == old(self)@.claimed(*ctx, bettor, market_id),
                Err(f) => old(self)@.claim_refusal(*ctx, bettor, market_id) == Some(f) && final(
                    self)@ == old(self)@,
            },
            old(self)@.valid() ==> final(self)@.valid(),
    {
        if !ctx.has_auth(bettor) {
            return Err(Failure::Unauthorized);
        }
        let market: MarketRecord = match self.markets.get(&market_id) {
            Some(m) => *m,
            None => {
                return Err(Failure::Error(Refusal::MarketNotFound));
            },
        };
        if !market.resolved {
            return Err(Failure::Error(Refusal::MarketNotResolved));
        }
        let mut bet: BetRecord = match self.bets.get(&(bettor, market_id)) {
            Some(b) => *b,
            None => {
                return Err(Failure::Error(Refusal::BetNotFound));
            },
        };
        if bet.claimed {
            return Err(Failure::Error(Refusal::AlreadyClaimed));
        }
        let winning_outcome: bool = match market.outcome {
            Some(o) => o,
            None => {
                return Err(Failure::Error(Refusal::OutcomeNotSet));
            },
        };
        if bet.outcome != winning_outcome {
            return Err(Failure::Error(Refusal::BetDidNotWin));
        }
        let total_payout: i128 = match payout(&market, &bet) {
            Some(p) => p,
            None => {
                return Err(Failure::Error(Refusal::OutOfRange));
            },
        };
        self.effects.push(
            Effect::Transfer {
                token: market.token,
                from: ctx.contract,
                to: bettor,
                amount: total_payout,
            },
        );
        bet.claimed = true;
        self.bets.set((bettor, market_id), bet);
        self.effects.push(Effect::WinningsClaimed { bettor, market_id, payout: total_payout });
        proof {
            if old(self)@.valid() {
                law_claim_pays_once(old(self)@, *ctx, *ctx, bettor, market_id);
            }
        }
        Ok(())
    }

    /// Closes a market without an outcome and gives all bets on it back; for the
    /// admin.
    pub fn cancel_market(&mut self, ctx: &Context, market_id: u32) -> (done: Result<
        (),
        Failure<Refusal>,
    >)
        ensures
            match done {
                Ok(()) => old(self)@.cancel_refusal(*ctx, market_id) is None && final(self)@ == old(
                    self)@.cancelled(*ctx, market_id),
                Err(f) => old(self)@.cancel_refusal(*ctx, market_id) == Some(f) && final(self)@
                    == old(self)@,
            },
            old(self)@.valid() ==> final(self)@.valid(),
    {
        let mut market: MarketRecord = match self.open_market(
            ctx,
            market_id,
            Refusal::CannotCancelResolved,
        ) {
            Ok(m) => m,
            Err(f) => {
                return Err(f);
            },
        };
        let wagers: Vec<(Address, i128)> = match self.wagers.get(&market_id) {
            Some(list) => copied(list),
            None => Vec::new(),
        };
        assert(wagers@ =~= old(self)@.wagered(market_id));
        let token: Address = market.token;
        let ghost before = self.effects@;
        let ghost all = self@.refunds(*ctx, market_id);
        let n: usize = wagers.len();
        for i in 0..n
            invariant
                n == wagers@.len(),
                all.len() == n,
                forall|j: int|
                    0 <= j < n ==> #[trigger] all[j] == (Effect::Transfer {
                        token,
                        from: ctx.contract,
                        to: wagers@[j].0,
                        amount: wagers@[j].1,
                    }),
                self.effects@ == before + all.take(i as int),
                old(self)@ == (MarketState { effects: before, ..self@ }),
        {
            self.effects.push(
                Effect::Transfer {
                    token,
                    from: ctx.contract,
                    to: wagers[i].0,
                    amount: wagers[i].1,
                },
            );
            assert(all.take(i + 1) =~= all.take(i as int).push(all[i as int]));
            assert(self.effects@ =~= before + all.take(i + 1));
        }
        assert(all.take(n as int) =~= all);
        market.resolved = true;
        self.markets.set(market_id, market);
        self.effects.push(Effect::MarketCancelled { market_id });
        proof {
            if old(self)@.valid() {
                law_closing_keeps_valid(old(self)@, *ctx, market_id, true);
            }
        }
        Ok(())
    }

    /// The record of a market.
    pub fn get_market(&self, id: u32) -> (found: Result<MarketRecord, Failure<Refusal>>)
        ensures
            match found {
                Ok(m) => self@.markets.contains_key(id) && m == self@.markets[id],
                Err(f) => !self@.markets.contains_key(id) && f == Failure::Error(
                    Refusal::MarketNotFound,
                ),
            },
    {
        match self.markets.get(&id) {
            Some(m) => Ok(*m),
            None => Err(Failure::Error(Refusal::MarketNotFound)),
        }
    }

    /// The current prices of both outcomes in basis points. They sum to the
    /// full price: `(6000, 4000)` means 60% yes and 40% no.
    pub fn get_current_price(&self, market_id: u32) -> (prices: Result<
        (u32, u32),
        Failure<Refusal>,
    >)
        ensures
            ({
                let m = self@.markets[market_id];
                let (y, n, b) = (m.yes_pool as int, m.no_pool as int, m.liquidity_parameter as int);
                match prices {
                    Ok((yes, no)) => self@.markets.contains_key(market_id) && price_fits(y, n, b)
                        && yes == yes_price_of(y, n, b) && yes + no == FULL_PRICE_BPS,
                    Err(f) => if self@.markets.contains_key(market_id) {
                        !price_fits(y, n, b) && f == Failure::Error(Refusal::OutOfRange)
                    } else {
                        f == Failure::Error(Refusal::MarketNotFound)
                    },
                }
            }),
    {
        match self.markets.get(&market_id) {
            Some(m) => {
                let b: i128 = m.liquidity_parameter;
                if yes_price_fits(m.yes_pool, m.no_pool, b) {
                    let yes_bps: u32 = get_yes_price_bps(m.yes_pool, m.no_pool, b);
                    Ok((yes_bps, FULL_PRICE_BPS - yes_bps))
                } else {
                    Err(Failure::Error(Refusal::OutOfRange))
                }
            },
            None => Err(Failure::Error(Refusal::MarketNotFound)),
        }
    }

    /// The pools of a market.
    pub fn get_odds(&self, market_id: u32) -> (pools: Result<(i128, i128), Failure<Refusal>>)
        ensures
            match pools {
                Ok((yes, no)) => self@.markets.contains_key(market_id) && yes
                    == self@.markets[market_id].yes_pool && no == self@.markets[market_id].no_pool,
                Err(f) => !self@.markets.contains_key(market_id) && f == Failure::Error(
                    Refusal::MarketNotFound,
                ),
            },
    {
        match self.markets.get(&market_id) {
            Some(m) => Ok((m.yes_pool, m.no_pool)),
            None => Err(Failure::Error(Refusal::MarketNotFound)),
        }
    }
}

/// What an entry of the bets stakes on one side of one market.
pub open spec fn stake_on(id: u32, outcome: bool) -> spec_fn((Address, u32), BetRecord) -> int {
    |k: (Address, u32), bet: BetRecord|
        if k.1 == id && bet.outcome == outcome {
            bet.amount as int
        } else {
            0
        }
}

/// What an entry of the bets is paid where `outcome` wins market `id`.
pub open spec fn payout_on(id: u32, m: MarketRecord, outcome: bool) -> spec_fn(
    (Address, u32),
    BetRecord,
) -> int {
    |k: (Address, u32), bet: BetRecord|
        if k.1 == id && bet.outcome == outcome {
            payout_of(m, bet)
        } else {
            0
        }
}

/// The sum of amounts that were bet.
pub open spec fn amount_of(wagers: Seq<(Address, i128)>) -> int
    decreases wagers.len(),
{
    if wagers.len() == 0 {
        0
    } else {
        amount_of(wagers.drop_last()) + wagers.last().1
    }
}

/// What the transfers among the effects move in all.
pub open spec fn moved(effects: Seq<Effect>) -> int
    decreases effects.len(),
{
    if effects.len() == 0 {
        0
    } else {
        moved(effects.drop_last()) + match effects.last() {
            Effect::Transfer { token, from, to, amount } => amount as int,
            _ => 0,
        }
    }
}

impl MarketState {
    /// What the recorded bets stake on one side of a market.
    pub open spec fn staked(self, id: u32, outcome: bool) -> int {
        sum_of(self.bets, stake_on(id, outcome))
    }

    /// What holds of the storage between calls: markets are numbered from one
    /// up to the count, a market has an outcome only once it is closed, every
    /// bet is of a positive amount on a market that exists, the recorded bets on
    /// a side never exceed its pool, and the two pools together are all that was
    /// ever bet.
    pub open spec fn valid(self) -> bool {
        &&& self.bets.dom().finite()
        &&& forall|id: u32| #[trigger]
            self.markets.contains_key(id) ==> self.valid_market(id, self.markets[id])
        &&& forall|k: (Address, u32)| #[trigger]
            self.bets.contains_key(k) ==> self.valid_bet(k, self.bets[k])
        &&& forall|id: u32| #[trigger]
            self.wagers.contains_key(id) ==> self.markets.contains_key(id)
    }

    pub open spec fn valid_market(self, id: u32, m: MarketRecord) -> bool {
        &&& m.id == id
        &&& 1 <= id <= self.market_count
        &&& m.outcome is Some ==> m.resolved
        &&& 0 <= self.staked(id, true) <= m.yes_pool
        &&& 0 <= self.staked(id, false) <= m.no_pool
        &&& amount_of(self.wagered(id)) == m.yes_pool + m.no_pool
    }

    pub open spec fn valid_bet(self, k: (Address, u32), bet: BetRecord) -> bool {
        &&& self.markets.contains_key(k.1)
        &&& bet.amount > 0
        &&& bet.bettor == k.0
        &&& bet.market_id == k.1
    }
}

/// A contract that was just deployed is valid.
pub proof fn law_fresh_is_valid()
    ensures
        MarketState::fresh().valid(),
{
}

/// Naming the admin keeps the storage valid, as long as no market was made
/// before.
pub proof fn law_initialize_keeps_valid(s: MarketState, admin: Address)
    requires
        s.valid(),
        s.market_count == 0,
    ensures
        s.initialized(admin).valid(),
{
    let t = s.initialized(admin);
    assert forall|id: u32| #[trigger] t.markets.contains_key(id) implies t.valid_market(
        id,
        t.markets[id],
    ) by {
        assert(s.valid_market(id, s.markets[id]));
    }
    assert forall|k: (Address, u32)| #[trigger] t.bets.contains_key(k) implies t.valid_bet(
        k,
        t.bets[k],
    ) by {
        assert(s.valid_bet(k, s.bets[k]));
    }
}

/// Opening a market keeps the storage valid and touches no other market.
pub proof fn law_create_keeps_valid(
    s: MarketState,
    ctx: Context,
    creator: Address,
    learner: Address,
    goal_description_hash: Digest,
    resolution_date: u64,
    token: Address,
    liquidity_parameter: Option<i128>,
)
    requires
        s.valid(),
        s.create_refusal(ctx, creator, resolution_date) is None,
    ensures
        ({
            let t = s.created(
                creator,
                learner,
                goal_description_hash,
                resolution_date,
                token,
                liquidity_parameter,
            );
            &&& t.valid()
            &&& !s.markets.contains_key(t.market_count)
            &&& t.markets.remove(t.market_count) == s.markets
        }),
{
    let t = s.created(
        creator,
        learner,
        goal_description_hash,
        resolution_date,
        token,
        liquidity_parameter,
    );
    let fresh = t.market_count;
    assert(!s.markets.contains_key(fresh)) by {
        if s.markets.contains_key(fresh) {
            assert(s.valid_market(fresh, s.markets[fresh]));
        }
    }
    assert(t.markets.remove(fresh) =~= s.markets);
    assert forall|k: (Address, u32)| #[trigger] t.bets.contains_key(k) implies t.valid_bet(
        k,
        t.bets[k],
    ) && k.1 != fresh by {
        assert(s.valid_bet(k, s.bets[k]));
    }
    assert forall|o: bool| #[trigger] s.staked(fresh, o) == 0 by {
        lemma_no_stakes(s.bets, fresh, o);
    }
    assert forall|id: u32| #[trigger] t.markets.contains_key(id) implies t.valid_market(
        id,
        t.markets[id],
    ) by {
        assert(t.staked(id, true) == s.staked(id, true));
        assert(t.staked(id, false) == s.staked(id, false));
        if id != fresh {
            assert(s.valid_market(id, s.markets[id]));
        }
    }
}

proof fn lemma_no_stakes(bets: Map<(Address, u32), BetRecord>, id: u32, outcome: bool)
    requires
        bets.dom().finite(),
        forall|k: (Address, u32)| #[trigger]
            bets.contains_key(k) ==> k.1 != id || bets[k].outcome != outcome,
    ensures
        sum_of(bets, stake_on(id, outcome)) == 0,
{
    let f = stake_on(id, outcome);
    assert forall|k: (Address, u32)| bets.contains_key(k) implies #[trigger] f(k, bets[k]) * 1 <= 0
        * f(k, bets[k]) by {}
    lemma_sum_scale(bets, f, f, 0, 1);
    assert forall|k: (Address, u32)| bets.contains_key(k) implies #[trigger] f(k, bets[k]) >= 0 by {
    }
    lemma_sum_nonnegative(bets, f);
}

/// A bet keeps the storage valid and touches no other market.
pub proof fn law_bet_keeps_valid(
    s: MarketState,
    ctx: Context,
    bettor: Address,
    market_id: u32,
    outcome: bool,
    amount: i128,
)
    requires
        s.valid(),
        s.bet_refusal(ctx, bettor, market_id, outcome, amount) is None,
    ensures
        ({
            let t = s.with_bet(ctx, bettor, market_id, outcome, amount);
            &&& t.valid()
            &&& forall|id: u32|
                id != market_id && s.markets.contains_key(id) ==> #[trigger] t.markets[id]
                    == s.markets[id]
        }),
{
    let t = s.with_bet(ctx, bettor, market_id, outcome, amount);
    let key = (bettor, market_id);
    let bet = t.bets[key];
    assert forall|k: (Address, u32)| #[trigger] t.bets.contains_key(k) implies t.valid_bet(
        k,
        t.bets[k],
    ) by {
        if k != key {
            assert(s.bets.contains_key(k));
            assert(s.valid_bet(k, s.bets[k]));
        }
    }
    assert(s.valid_market(market_id, s.markets[market_id]));
    assert forall|id: u32| #[trigger] t.markets.contains_key(id) implies t.valid_market(
        id,
        t.markets[id],
    ) by {
        assert(s.valid_market(id, s.markets[id]));
        lemma_sum_insert(s.bets, stake_on(id, true), key, bet);
        lemma_sum_insert(s.bets, stake_on(id, false), key, bet);
        if s.bets.contains_key(key) {
            assert(s.valid_bet(key, s.bets[key]));
        }
        lemma_stakes_nonnegative(t, id);
        if id == market_id {
            assert(t.wagered(id).drop_last() =~= s.wagered(id));
        }
    }
}

proof fn lemma_stakes_nonnegative(s: MarketState, id: u32)
    requires
        s.bets.dom().finite(),
        forall|k: (Address, u32)| #[trigger]
            s.bets.contains_key(k) ==> s.valid_bet(k, s.bets[k]),
    ensures
        s.staked(id, true) >= 0,
        s.staked(id, false) >= 0,
{
    let f = stake_on(id, true);
    assert forall|k: (Address, u32)| s.bets.contains_key(k) implies #[trigger] f(k, s.bets[k])
        >= 0 by {
        assert(s.valid_bet(k, s.bets[k]));
    }
    lemma_sum_nonnegative(s.bets, f);
    let g = stake_on(id, false);
    assert forall|k: (Address, u32)| s.bets.contains_key(k) implies #[trigger] g(k, s.bets[k])
        >= 0 by {
        assert(s.valid_bet(k, s.bets[k]));
    }
    lemma_sum_nonnegative(s.bets, g);
}

/// Closing a market, with an outcome or without, keeps the storage valid, and
/// the market stays closed: no bet, resolution or cancellation follows.
pub proof fn law_closing_keeps_valid(
    s: MarketState,
    ctx: Context,
    market_id: u32,
    outcome: bool,
)
    requires
        s.valid(),
        s.markets.contains_key(market_id),
        !s.markets[market_id].resolved,
    ensures
        s.resolved(market_id, outcome).valid(),
        s.cancelled(ctx, market_id).valid(),
        s.resolved(market_id, outcome).closed(market_id),
        s.cancelled(ctx, market_id).closed(market_id),
{
    assert forall|t: MarketState|
        (t == s.resolved(market_id, outcome) || t == s.cancelled(
            ctx,
            market_id,
        )) implies #[trigger] t.valid() by {
        assert forall|k: (Address, u32)| #[trigger] t.bets.contains_key(k) implies t.valid_bet(
            k,
            t.bets[k],
        ) by {
            assert(s.valid_bet(k, s.bets[k]));
        }
        assert forall|id: u32| #[trigger] t.markets.contains_key(id) implies t.valid_market(
            id,
            t.markets[id],
        ) by {
            assert(s.valid_market(id, s.markets[id]));
            assert(t.staked(id, true) == s.staked(id, true));
            assert(t.staked(id, false) == s.staked(id, false));
        }
    }
}

impl MarketState {
    /// Nobody can bet on the market, resolve it or cancel it.
    pub open spec fn closed(self, market_id: u32) -> bool {
        &&& forall|ctx: Context, bettor: Address, outcome: bool, amount: i128| #[trigger]
            self.bet_refusal(ctx, bettor, market_id, outcome, amount) is Some
        &&& forall|ctx: Context| #[trigger] self.resolve_refusal(ctx, market_id) is Some
        &&& forall|ctx: Context| #[trigger] self.cancel_refusal(ctx, market_id) is Some
    }
}

/// A claim keeps the storage valid, and a second claim of the same bet is
/// refused.
pub proof fn law_claim_pays_once(
    s: MarketState,
    ctx: Context,
    later: Context,
    bettor: Address,
    market_id: u32,
)
    requires
        s.valid(),
        s.claim_refusal(ctx, bettor, market_id) is None,
        later.authorizes(bettor),
    ensures
        s.claimed(ctx, bettor, market_id).valid(),
        s.claimed(ctx, bettor, market_id).claim_refusal(later, bettor, market_id) == Some(
            Failure::<Refusal>::Error(Refusal::AlreadyClaimed),
        ),
{
    let t = s.claimed(ctx, bettor, market_id);
    let key = (bettor, market_id);
    assert(s.valid_bet(key, s.bets[key]));
    assert forall|k: (Address, u32)| #[trigger] t.bets.contains_key(k) implies t.valid_bet(
        k,
        t.bets[k],
    ) by {
        assert(s.bets.contains_key(k));
        assert(s.valid_bet(k, s.bets[k]));
    }
    assert forall|id: u32| #[trigger] t.markets.contains_key(id) implies t.valid_market(
        id,
        t.markets[id],
    ) by {
        assert(s.valid_market(id, s.markets[id]));
        lemma_sum_insert(s.bets, stake_on(id, true), key, t.bets[key]);
        lemma_sum_insert(s.bets, stake_on(id, false), key, t.bets[key]);
    }
}

proof fn lemma_share(net: int, a: int, w: int)
    requires
        net >= 0,
        a >= 0,
        w > 0,
    ensures
        net * a >= 0,
        (a + net * a / w) * w <= (w + net) * a,
{
    assert(net * a >= 0) by (nonlinear_arith)
        requires
            net >= 0,
            a >= 0,
    ;
    let share = net * a / w;
    assert((a + share) * w <= (w + net) * a) by (nonlinear_arith)
        requires
            share == net * a / w,
            w > 0,
    ;
}

/// What all winning bets of a market are paid together never exceeds the two
/// pools less the platform's fee.
pub proof fn law_payouts_are_covered(s: MarketState, id: u32, outcome: bool)
    requires
        s.valid(),
        s.markets.contains_key(id),
    ensures
        sum_of(s.bets, payout_on(id, s.markets[id], outcome)) <= s.markets[id].yes_pool
            + s.markets[id].no_pool - platform_fee(pool(s.markets[id], !outcome)),
{
    let m = s.markets[id];
    assert(s.valid_market(id, m));
    let f = stake_on(id, outcome);
    let g = payout_on(id, m, outcome);
    let w = pool(m, outcome);
    let losing = pool(m, !outcome);
    let net = losing - platform_fee(losing);
    assert(net >= 0);
    let stakes = sum_of(s.bets, f);
    assert(0 <= stakes <= w);
    assert forall|k: (Address, u32)| s.bets.contains_key(k) implies #[trigger] f(k, s.bets[k])
        >= 0 by {
        assert(s.valid_bet(k, s.bets[k]));
    }
    if w == 0 {
        assert forall|k: (Address, u32)| s.bets.contains_key(k) implies #[trigger] g(k, s.bets[k])
            * 1 <= 0 * f(k, s.bets[k]) by {
            assert(s.valid_bet(k, s.bets[k]));
            lemma_sum_term(s.bets, f, k);
        }
        lemma_sum_scale(s.bets, f, g, 0, 1);
    } else {
        assert forall|k: (Address, u32)| s.bets.contains_key(k) implies #[trigger] g(k, s.bets[k])
            * w <= (w + net) * f(k, s.bets[k]) by {
            assert(s.valid_bet(k, s.bets[k]));
            let a = f(k, s.bets[k]);
            if k.1 == id && s.bets[k].outcome == outcome {
                lemma_share(net, a, w);
                assert(g(k, s.bets[k]) == a + net * a / w);
            } else {
                assert(a == 0 && g(k, s.bets[k]) == 0);
                assert((w + net) * a == 0) by (nonlinear_arith)
                    requires
                        a == 0,
                ;
            }
        }
        lemma_sum_scale(s.bets, f, g, w + net, w);
        let paid = sum_of(s.bets, g);
        assert(paid <= w + net) by (nonlinear_arith)
            requires
                paid * w <= (w + net) * stakes,
                0 <= stakes <= w,
                w > 0,
                net >= 0,
        ;
    }
}

/// The cancellation of a market gives back exactly what its pools hold.
pub proof fn law_refunds_empty_the_pools(s: MarketState, ctx: Context, id: u32)
    requires
        s.valid(),
        s.markets.contains_key(id),
    ensures
        moved(s.refunds(ctx, id)) == s.markets[id].yes_pool + s.markets[id].no_pool,
        s.refunds(ctx, id).len() == s.wagered(id).len(),
        forall|i: int|
            0 <= i < s.wagered(id).len() ==> #[trigger] s.refunds(ctx, id)[i] == (
            Effect::Transfer {
                token: s.markets[id].token,
                from: ctx.contract,
                to: s.wagered(id)[i].0,
                amount: s.wagered(id)[i].1,
            }),
{
    assert(s.valid_market(id, s.markets[id]));
    let token = s.markets[id].token;
    let refund = |w: (Address, i128)|
        Effect::Transfer { token, from: ctx.contract, to: w.0, amount: w.1 };
    assert(s.refunds(ctx, id) =~= s.wagered(id).map_values(refund));
    lemma_moved(s.wagered(id), token, ctx.contract);
}

proof fn lemma_moved(wagers: Seq<(Address, i128)>, token: Address, from: Address)
    ensures
        moved(
            wagers.map_values(
                |w: (Address, i128)| Effect::Transfer { token, from, to: w.0, amount: w.1 },
            ),
        ) == amount_of(wagers),
    decreases wagers.len(),
{
    let refund = |w: (Address, i128)| Effect::Transfer { token, from, to: w.0, amount: w.1 };
    if wagers.len() > 0 {
        lemma_moved(wagers.drop_last(), token, from);
        assert(wagers.map_values(refund).drop_last() =~= wagers.drop_last().map_values(refund));
    }
}

/// With a positive liquidity parameter the cost function never falls, so that a
/// bet costs exactly what it rises by.
pub proof fn law_bet_costs_the_rise(m: MarketRecord, outcome: bool, amount: int)
    requires
        m.liquidity_parameter > 0,
        m.yes_pool >= 0,
        m.no_pool >= 0,
        amount >= 0,
    ensures
        ({
            let b = m.liquidity_parameter as int;
            let after = pools_after(m, outcome, amount);
            bet_cost(m, outcome, amount) == cost_of(after.0, after.1, b) - cost_of(
                m.yes_pool as int,
                m.no_pool as int,
                b,
            )
        }),
{
    let after = pools_after(m, outcome, amount);
    law_cost_monotone(
        m.yes_pool as int,
        m.no_pool as int,
        after.0,
        after.1,
        m.liquidity_parameter as int,
    );
}

/// When a market can be opened, and what it is then: by a creator who consents, with a
/// resolution date that is still to come; with empty pools, not resolved, under the
/// next number, and with a liquidity of one tenth where none is named. No other market
/// changes.
pub proof fn law_opening(
    s: MarketState,
    ctx: Context,
    creator: Address,
    learner: Address,
    goal_description_hash: Digest,
    resolution_date: u64,
    token: Address,
    liquidity_parameter: Option<i128>,
)
    ensures
        ({
            let f = s.create_refusal(ctx, creator, resolution_date);
            let t = s.created(
                creator,
                learner,
                goal_description_hash,
                resolution_date,
                token,
                liquidity_parameter,
            );
            let signed = ctx.authorized@.contains(creator);
            let id = t.market_count;
            let m = t.markets[id];
            &&& f is None <==> signed && resolution_date > ctx.now && s.market_count < u32::MAX
            &&& f == Some(Failure::<Refusal>::Unauthorized) <==> !signed
            &&& f == Some(Failure::<Refusal>::Error(Refusal::ResolutionDateNotInFuture)) <==> signed
                && resolution_date <= ctx.now
            &&& f is None ==> {
                &&& id == s.market_count + 1
                &&& t.markets == s.markets.insert(id, m)
                &&& m.id == id && m.creator == creator && m.learner == learner
                &&& m.goal_description_hash == goal_description_hash
                &&& m.resolution_date == resolution_date && m.token == token
                &&& m.yes_pool == 0 && m.no_pool == 0 && !m.resolved && m.outcome is None
                &&& liquidity_parameter is Some ==> Some(m.liquidity_parameter)
                    == liquidity_parameter
                &&& liquidity_parameter is None ==> m.liquidity_parameter
                    == 100_000_000_000_000_000
                &&& t.effects == s.effects + seq![
                    Effect::MarketCreated { market_id: id, creator, learner },
                ]
                &&& t == (MarketState {
                    market_count: id,
                    markets: t.markets,
                    effects: t.effects,
                    ..s
                })
            }
        }),
{
    let t = s.created(
        creator,
        learner,
        goal_description_hash,
        resolution_date,
        token,
        liquidity_parameter,
    );
    assert(t.effects =~= s.effects + seq![
        Effect::MarketCreated { market_id: t.market_count, creator, learner },
    ]);
}

/// When a bet is open: of a positive amount, to somebody who consents, on a market
/// that is not resolved, before its resolution date, as long as all stays in range and
/// the cost of the pools does not rise by more than the amount.
pub proof fn law_bet_is_open(
    s: MarketState,
    ctx: Context,
    bettor: Address,
    id: u32,
    outcome: bool,
    amount: i128,
)
    ensures
        ({
            let f = s.bet_refusal(ctx, bettor, id, outcome, amount);
            let m = s.markets[id];
            let b = m.liquidity_parameter as int;
            let (y, n) = (m.yes_pool as int, m.no_pool as int);
            let y2 = if outcome {
                y + amount
            } else {
                y
            };
            let n2 = if outcome {
                n
            } else {
                n + amount
            };
            let signed = amount > 0 && ctx.authorized@.contains(bettor);
            let found = signed && s.markets.contains_key(id);
            let running = found && !m.resolved;
            let open = running && ctx.now < m.resolution_date;
            &&& f is None <==> open && y2 <= i128::MAX && n2 <= i128::MAX && cost_fits(y, n, b)
                && cost_fits(y2, n2, b) && cost_of(y2, n2, b) - cost_of(y, n, b) <= amount
            &&& f == Some(Failure::<Refusal>::Error(Refusal::InvalidAmount)) <==> amount <= 0
            &&& f == Some(Failure::<Refusal>::Unauthorized) <==> amount > 0 && !signed
            &&& f == Some(Failure::<Refusal>::Error(Refusal::MarketNotFound)) <==> signed && !found
            &&& f == Some(Failure::<Refusal>::Error(Refusal::MarketAlreadyResolved)) <==> found
                && !running
            &&& f == Some(Failure::<Refusal>::Error(Refusal::ResolutionDatePassed)) <==> running
                && !open
            &&& f == Some(Failure::<Refusal>::Error(Refusal::InsufficientAmount)) ==> open
                && cost_of(y2, n2, b) - cost_of(y, n, b) > amount
        }),
{
}

/// What a bet does: the amount, not the cost, goes from the bettor to the contract
/// and onto the pool of the outcome, and onto no other. It is remembered as the
/// bettor's bet, and among all that was bet on the market. Nothing else changes.
pub proof fn law_bet(
    s: MarketState,
    ctx: Context,
    bettor: Address,
    id: u32,
    outcome: bool,
    amount: i128,
)
    requires
        s.bet_refusal(ctx, bettor, id, outcome, amount) is None,
    ensures
        ({
            let t = s.with_bet(ctx, bettor, id, outcome, amount);
            let (m, k) = (s.markets[id], t.markets[id]);
            let wagers = if s.wagers.contains_key(id) {
                s.wagers[id]
            } else {
                Seq::empty()
            };
            &&& k.yes_pool - m.yes_pool == (if outcome {
                amount as int
            } else {
                0
            })
            &&& k.no_pool - m.no_pool == (if outcome {
                0
            } else {
                amount as int
            })
            &&& k == (MarketRecord { yes_pool: k.yes_pool, no_pool: k.no_pool, ..m })
            &&& t.markets == s.markets.insert(id, k)
            &&& t.bets == s.bets.insert(
                (bettor, id),
                BetRecord { bettor, market_id: id, outcome, amount, claimed: false },
            )
            &&& t.wagers == s.wagers.insert(id, wagers + seq![(bettor, amount)])
            &&& t.effects == s.effects + seq![
                Effect::Transfer { token: m.token, from: bettor, to: ctx.contract, amount },
                Effect::BetPlaced { bettor, market_id: id, outcome, amount },
            ]
            &&& t.admin == s.admin && t.market_count == s.market_count
        }),
{
    let t = s.with_bet(ctx, bettor, id, outcome, amount);
    assert(t.effects =~= s.effects + seq![
        Effect::Transfer {
            token: s.markets[id].token,
            from: bettor,
            to: ctx.contract,
            amount,
        },
        Effect::BetPlaced { bettor, market_id: id, outcome, amount },
    ]);
    assert(t.wagers[id] =~= s.wagered(id) + seq![(bettor, amount)]);
}

/// Who closes a market, and when: the admin, as long as it is not closed; with an
/// outcome from its resolution date on, without one at any time. Nothing else of the
/// market changes, and no other market does.
pub proof fn law_closing(s: MarketState, ctx: Context, id: u32, outcome: bool)
    ensures
        ({
            let f = s.resolve_refusal(ctx, id);
            let g = s.cancel_refusal(ctx, id);
            let t = s.resolved(id, outcome);
            let u = s.cancelled(ctx, id);
            let m = s.markets[id];
            let signed = s.admin is Some && ctx.authorized@.contains(s.admin->0);
            let found = signed && s.markets.contains_key(id);
            &&& f is None <==> found && !m.resolved && ctx.now >= m.resolution_date
            &&& g is None <==> found && !m.resolved
            &&& f == Some(Failure::<Refusal>::Error(Refusal::NotInitialized)) <==> s.admin is None
            &&& g == Some(Failure::<Refusal>::Error(Refusal::NotInitialized)) <==> s.admin is None
            &&& f == Some(Failure::<Refusal>::Unauthorized) <==> s.admin is Some && !signed
            &&& g == Some(Failure::<Refusal>::Unauthorized) <==> s.admin is Some && !signed
            &&& f == Some(Failure::<Refusal>::Error(Refusal::MarketAlreadyResolved)) <==> found
                && m.resolved
            &&& f == Some(Failure::<Refusal>::Error(Refusal::ResolutionDateNotReached)) <==> found
                && !m.resolved && ctx.now < m.resolution_date
            &&& g == Some(Failure::<Refusal>::Error(Refusal::CannotCancelResolved)) <==> found
                && m.resolved
            &&& t == (MarketState {
                markets: s.markets.insert(
                    id,
                    MarketRecord { resolved: true, outcome: Some(outcome), ..m },
                ),
                effects: s.effects + seq![Effect::MarketResolved { market_id: id, outcome }],
                ..s
            })
            &&& u == (MarketState {
                markets: s.markets.insert(id, MarketRecord { resolved: true, ..m }),
                effects: s.effects + s.refunds(ctx, id) + seq![
                    Effect::MarketCancelled { market_id: id },
                ],
                ..s
            })
            &&& s.initialize_refusal() is None <==> s.admin is None
        }),
{
    let t = s.resolved(id, outcome);
    let u = s.cancelled(ctx, id);
    assert(t.effects =~= s.effects + seq![Effect::MarketResolved { market_id: id, outcome }]);
    assert(u.effects =~= s.effects + s.refunds(ctx, id) + seq![
        Effect::MarketCancelled { market_id: id },
    ]);
}

/// What a winning bet is paid. Of the losing pool the platform keeps two percent,
/// rounded down: `fee`. Of the rest the bet earns, rounded down, in proportion to its
/// part of the winning pool: `share`. It is paid its amount and that share.
pub proof fn law_payout(m: MarketRecord, bet: BetRecord, fee: int, share: int)
    requires
        ({
            let (losing, winning) = if bet.outcome {
                (m.no_pool as int, m.yes_pool as int)
            } else {
                (m.yes_pool as int, m.no_pool as int)
            };
            &&& losing >= 0 && winning > 0 && bet.amount >= 0
            &&& 100 * fee <= 2 * losing < 100 * (fee + 1)
            &&& share * winning <= (losing - fee) * bet.amount < (share + 1) * winning
        }),
    ensures
        payout_of(m, bet) == bet.amount + share,
        payout_fits(m, bet) <==> {
            let losing = if bet.outcome {
                m.no_pool
            } else {
                m.yes_pool
            };
            &&& 200 * losing <= i128::MAX
            &&& (losing - fee) * bet.amount <= i128::MAX
            &&& bet.amount + share <= i128::MAX
        },
{
    let losing = pool(m, !bet.outcome);
    let winning = pool(m, bet.outcome);
    let a = bet.amount as int;
    assert(losing * PLATFORM_FEE_BPS == 200 * losing);
    assert(platform_fee(losing) == fee);
    let net = losing - fee;
    assert(net >= 0);
    let product = net * a;
    assert(product >= 0) by (nonlinear_arith)
        requires
            product == net * a,
            net >= 0,
            a >= 0,
    ;
    let q = product / winning;
    assert(q == share && 0 <= q <= product) by (nonlinear_arith)
        requires
            q == product / winning,
            share * winning <= product < (share + 1) * winning,
            winning > 0,
            product >= 0,
    ;
}

/// When winnings are claimed, and what that does: somebody who consents claims, once,
/// the bet that it made on the outcome of a resolved market, and is paid by the
/// contract in the market's token. Nothing else changes.
pub proof fn law_claim(s: MarketState, ctx: Context, bettor: Address, id: u32)
    ensures
        ({
            let f = s.claim_refusal(ctx, bettor, id);
            let t = s.claimed(ctx, bettor, id);
            let m = s.markets[id];
            let key = (bettor, id);
            let bet = s.bets[key];
            let signed = ctx.authorized@.contains(bettor);
            let found = signed && s.markets.contains_key(id);
            let over = found && m.resolved;
            let placed = over && s.bets.contains_key(key);
            let unpaid = placed && !bet.claimed;
            let settled = unpaid && m.outcome is Some;
            let won = settled && m.outcome == Some(bet.outcome);
            &&& f is None <==> won && payout_fits(m, bet)
            &&& f == Some(Failure::<Refusal>::Unauthorized) <==> !signed
            &&& f == Some(Failure::<Refusal>::Error(Refusal::MarketNotFound)) <==> signed && !found
            &&& f == Some(Failure::<Refusal>::Error(Refusal::MarketNotResolved)) <==> found && !over
            &&& f == Some(Failure::<Refusal>::Error(Refusal::BetNotFound)) <==> over && !placed
            &&& f == Some(Failure::<Refusal>::Error(Refusal::AlreadyClaimed)) <==> placed && !unpaid
            &&& f == Some(Failure::<Refusal>::Error(Refusal::OutcomeNotSet)) <==> unpaid && !settled
            &&& f == Some(Failure::<Refusal>::Error(Refusal::BetDidNotWin)) <==> settled && !won
            &&& f is None ==> {
                let payout = payout_of(m, bet) as i128;
                &&& payout == payout_of(m, bet)
                &&& t.bets == s.bets.insert(key, BetRecord { claimed: true, ..bet })
                &&& t.effects == s.effects + seq![
                    Effect::Transfer {
                        token: m.token,
                        from: ctx.contract,
                        to: bettor,
                        amount: payout,
                    },
                    Effect::WinningsClaimed { bettor, market_id: id, payout },
                ]
                &&& t == (MarketState { bets: t.bets, effects: t.effects, ..s })
            }
        }),
{
    let t = s.claimed(ctx, bettor, id);
    let m = s.markets[id];
    let payout = payout_of(m, s.bets[(bettor, id)]) as i128;
    assert(t.effects =~= s.effects + seq![
        Effect::Transfer { token: m.token, from: ctx.contract, to: bettor, amount: payout },
        Effect::WinningsClaimed { bettor, market_id: id, payout },
    ]);
}

/// The admin is named once, and is then who was named.
pub proof fn law_naming_the_admin(s: MarketState, admin: Address)
    ensures
        s.initialize_refusal() is None <==> s.admin is None,
        s.initialized(admin) == (MarketState { admin: Some(admin), market_count: 0, ..s }),
{
}

} // verus!
