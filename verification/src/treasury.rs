//! The treasury: deposits, allocations, revenue for stakers, and buybacks that an
//! oracle guards.

use crate::lists::copied;
use crate::types::{Address, Context, Failure, Symbol};
use vstd::prelude::*;

verus! {

/// How many feeders an oracle needs for a buyback.
pub const MIN_FEEDERS: u32 = 3;

/// Why the contract refuses a call.
#[derive(Clone, Copy, Debug, PartialEq, Eq, Structural)]
pub enum Error {
    AlreadyInitialized,
    NotInitialized,
    Unauthorized,
    InsufficientBalance,
    /// The oracle has too few active feeders.
    OracleUnhealthy,
    /// The oracle's data is stale.
    OracleStale,
}

impl Error {
    /// The number that stands for the error outside.
    pub open spec fn number(self) -> u32 {
        match self {
            Error::AlreadyInitialized => 1,
            Error::NotInitialized => 2,
            Error::Unauthorized => 3,
            Error::InsufficientBalance => 4,
            Error::OracleUnhealthy => 5,
            Error::OracleStale => 6,
        }
    }

    /// The number that stands for the error outside.
    pub fn code(&self) -> (n: u32)
        ensures
            n == self.number(),
    {
        match self {
            Error::AlreadyInitialized => 1,
            Error::NotInitialized => 2,
            Error::Unauthorized => 3,
            Error::InsufficientBalance => 4,
            Error::OracleUnhealthy => 5,
            Error::OracleStale => 6,
        }
    }
}

/// What the oracle says of itself.
#[derive(Clone, Copy, Debug, PartialEq, Eq, Structural)]
pub struct OracleHealth {
    pub active_feeders: u32,
    pub last_update: u64,
    pub is_stale: bool,
}

/// An allocation that was made.
#[derive(Clone, Copy, Debug, PartialEq, Eq, Structural)]
pub struct AllocationHistory {
    pub token: Address,
    pub recipient: Address,
    pub amount: i128,
    pub timestamp: u64,
}

/// What a call asks of the ledger, in order.
#[derive(Clone, Copy, Debug, PartialEq, Eq, Structural)]
pub enum Effect {
    Transfer { token: Address, from: Address, to: Address, amount: i128 },
    /// Tell the staking contract to share out what it was sent.
    DistributeRevenue { staking_contract: Address, token: Address, amount: i128 },
    /// Let the exchange swap what it was sent; it answers with what it gave.
    Swap { dex_contract: Address, token_in: Address, token_out: Address, amount: i128 },
    Burn { token: Address, from: Address, amount: i128 },
    Deposited { from: Address, token: Address, amount: i128 },
    Allocated { recipient: Address, token: Address, amount: i128 },
    Distributed { staking_contract: Address, token: Address, amount: i128 },
    BoughtBack { token: Address, amount: i128 },
}

/// The contract's storage as a mathematical value.
#[verifier::ext_equal]
pub struct TreasuryState {
    pub admin: Option<Address>,
    pub staking_contract: Option<Address>,
    pub history: Seq<AllocationHistory>,
    pub effects: Seq<Effect>,
}

/// The treasury contract.
pub struct TreasuryContract {
    pub admin: Option<Address>,
    pub staking_contract: Option<Address>,
    pub history: Vec<AllocationHistory>,
    /// What the calls so far ask of the ledger.
    pub effects: Vec<Effect>,
}

impl View for TreasuryContract {
    type V = TreasuryState;

    open spec fn view(&self) -> TreasuryState {
        TreasuryState {
            admin: self.admin,
            staking_contract: self.staking_contract,
            history: self.history@,
            effects: self.effects@,
        }
    }
}

/// Why the oracle's price cannot be relied on.
pub open spec fn health_fault(health: OracleHealth) -> Option<Error> {
    if health.is_stale {
        Some(Error::OracleStale)
    } else if health.active_feeders < MIN_FEEDERS {
        Some(Error::OracleUnhealthy)
    } else {
        None
    }
}

impl TreasuryState {
    /// The storage of a contract that was just deployed.
    pub open spec fn fresh() -> TreasuryState {
        TreasuryState {
            admin: None,
            staking_contract: None,
            history: Seq::empty(),
            effects: Seq::empty(),
        }
    }

    pub open spec fn initialize_refusal(self) -> Option<Failure<Error>> {
        if self.admin is Some {
            Some(Failure::Error(Error::AlreadyInitialized))
        } else {
            None
        }
    }

    pub open spec fn initialized(self, admin: Address, staking_contract: Address) -> TreasuryState {
        TreasuryState {
            admin: Some(admin),
            staking_contract: Some(staking_contract),
            history: Seq::empty(),
            ..self
        }
    }

    pub open spec fn deposit_refusal(self, ctx: Context, from: Address) -> Option<Failure<Error>> {
        if !ctx.authorizes(from) {
            Some(Failure::Unauthorized)
        } else {
            None
        }
    }

    pub open spec fn deposited(
        self,
        ctx: Context,
        from: Address,
        token: Address,
        amount: i128,
    ) -> TreasuryState {
        TreasuryState {
            effects: self.effects.push(
                Effect::Transfer { token, from, to: ctx.contract, amount },
            ).push(Effect::Deposited { from, token, amount }),
            ..self
        }
    }

    /// Only the admin may spend.
    pub open spec fn admin_refusal(self, ctx: Context) -> Option<Failure<Error>> {
        if self.admin is None {
            Some(Failure::Error(Error::NotInitialized))
        } else if !ctx.authorizes(self.admin->0) {
            Some(Failure::Unauthorized)
        } else {
            None
        }
    }

    pub open spec fn allocated(
        self,
        ctx: Context,
        token: Address,
        recipient: Address,
        amount: i128,
    ) -> TreasuryState {
        TreasuryState {
            history: self.history.push(
                AllocationHistory { token, recipient, amount, timestamp: ctx.now },
            ),
            effects: self.effects.push(
                Effect::Transfer { token, from: ctx.contract, to: recipient, amount },
            ).push(Effect::Allocated { recipient, token, amount }),
            ..self
        }
    }

    pub open spec fn distribute_refusal(self, ctx: Context) -> Option<Failure<Error>> {
        let early = self.admin_refusal(ctx);
        if early is Some {
            early
        } else if self.staking_contract is None {
            Some(Failure::Error(Error::NotInitialized))
        } else {
            None
        }
    }

    pub open spec fn distributed(
        self,
        ctx: Context,
        token: Address,
        total_amount: i128,
    ) -> TreasuryState {
        let staking_contract = self.staking_contract->0;
        TreasuryState {
            effects: self.effects.push(
                Effect::Transfer {
                    token,
                    from: ctx.contract,
                    to: staking_contract,
                    amount: total_amount,
                },
            ).push(
                Effect::DistributeRevenue { staking_contract, token, amount: total_amount },
            ).push(Effect::Distributed { staking_contract, token, amount: total_amount }),
            ..self
        }
    }

    /// The oracle has a say where both it and an asset are named.
    pub open spec fn buyback_refusal(
        self,
        ctx: Context,
        oracle_contract: Option<Address>,
        mnt_asset_symbol: Option<Symbol>,
        health: OracleHealth,
    ) -> Option<Failure<Error>> {
        let early = self.admin_refusal(ctx);
        if early is Some {
            early
        } else if oracle_contract is Some && mnt_asset_symbol is Some && health_fault(
            health,
        ) is Some {
            Some(Failure::Error(health_fault(health)->0))
        } else {
            None
        }
    }

    /// The tokens go to the exchange, to be swapped there.
    pub open spec fn bought(
        self,
        ctx: Context,
        xlm_token: Address,
        mnt_token: Address,
        dex_contract: Address,
        xlm_amount: i128,
    ) -> TreasuryState {
        TreasuryState {
            effects: self.effects.push(
                Effect::Transfer {
                    token: xlm_token,
                    from: ctx.contract,
                    to: dex_contract,
                    amount: xlm_amount,
                },
            ).push(
                Effect::Swap {
                    dex_contract,
                    token_in: xlm_token,
                    token_out: mnt_token,
                    amount: xlm_amount,
                },
            ),
            ..self
        }
    }

    /// All that the exchange gave is burned.
    pub open spec fn burned(
        self,
        ctx: Context,
        mnt_token: Address,
        mnt_received: i128,
    ) -> TreasuryState {
        TreasuryState {
            effects: self.effects.push(
                Effect::Burn { token: mnt_token, from: ctx.contract, amount: mnt_received },
            ).push(Effect::BoughtBack { token: mnt_token, amount: mnt_received }),
            ..self
        }
    }
}

/// Fails unless the oracle's price can be relied on: fresh, and from enough
/// feeders.
pub fn check_oracle_health(health: &OracleHealth) -> (done: Result<(), Error>)
    ensures
        match done {
            Ok(()) => health_fault(*health) is None,
            Err(e) => health_fault(*health) == Some(e),
        },
{
    if health.is_stale {
        return Err(Error::OracleStale);
    }
    if health.active_feeders < MIN_FEEDERS {
        return Err(Error::OracleUnhealthy);
    }
    Ok(())
}

impl TreasuryContract {
    /// A contract with empty storage.
    pub fn new() -> (contract: TreasuryContract)
        ensures
            contract@ == TreasuryState::fresh(),
    {
        TreasuryContract {
            admin: None,
            staking_contract: None,
            history: Vec::new(),
            effects: Vec::new(),
        }
    }

    /// Names the admin and the staking contract, once.
    pub fn initialize(&mut self, admin: Address, staking_contract: Address) -> (done: Result<
        (),
        Failure<Error>,
    >)
        ensures
            match done {
                Ok(()) => old(self)@.initialize_refusal() is None && final(self)@ == old(
                    self)@.initialized(admin, staking_contract),
                Err(f) => old(self)@.initialize_refusal() == Some(f) && final(self)@ == old(self)@,
            },
    {
        if self.admin.is_some() {
            return Err(Failure::Error(Error::AlreadyInitialized));
        }
        self.admin = Some(admin);
        self.staking_contract = Some(staking_contract);
        self.history = Vec::new();
        Ok(())
    }

    /// Takes a deposit of any asset.
    pub fn deposit(&mut self, ctx: &Context, from: Address, token: Address, amount: i128) -> (done:
        Result<(), Failure<Error>>)
        ensures
            match done {
                Ok(()) => old(self)@.deposit_refusal(*ctx, from) is None && final(self)@ == old(
                    self)@.deposited(*ctx, from, token, amount),
                Err(f) => old(self)@.deposit_refusal(*ctx, from) == Some(f) && final(self)@ == old(
                    self)@,
            },
    {
        if !ctx.has_auth(from) {
            return Err(Failure::Unauthorized);
        }
        self.effects.push(Effect::Transfer { token, from, to: ctx.contract, amount });
        self.effects.push(Effect::Deposited { from, token, amount });
        Ok(())
    }

    /// Fails unless the admin consented.
    fn require_admin(&self, ctx: &Context) -> (done: Result<(), Failure<Error>>)
        ensures
            match done {
                Ok(()) => self@.admin_refusal(*ctx) is None,
                Err(f) => self@.admin_refusal(*ctx) == Some(f),
            },
    {
        match self.admin {
            None => Err(Failure::Error(Error::NotInitialized)),
            Some(admin) => if ctx.has_auth(admin) {
                Ok(())
            } else {
                Err(Failure::Unauthorized)
            },
        }
    }

    /// Sends tokens to a recipient and remembers it; for the admin.
    pub fn allocate(&mut self, ctx: &Context, token: Address, recipient: Address, amount: i128) -> (
    done: Result<(), Failure<Error>>)
        ensures
            match done {
                Ok(()) => old(self)@.admin_refusal(*ctx) is None && final(self)@ == old(
                    self)@.allocated(*ctx, token, recipient, amount),
                Err(f) => old(self)@.admin_refusal(*ctx) == Some(f) && final(self)@ == old(self)@,
            },
    {
        match self.require_admin(ctx) {
            Ok(()) => {},
            Err(f) => {
                return Err(f);
            },
        }
        self.effects.push(Effect::Transfer { token, from: ctx.contract, to: recipient, amount });
        self.history.push(AllocationHistory { token, recipient, amount, timestamp: ctx.now });
        self.effects.push(Effect::Allocated { recipient, token, amount });
        Ok(())
    }

    /// Sends tokens to the staking contract and lets it share them out by stake;
    /// for the admin.
    pub fn distribute_to_stakers(&mut self, ctx: &Context, token: Address, total_amount: i128) -> (
    done: Result<(), Failure<Error>>)
        ensures
            match done {
                Ok(()) => old(self)@.distribute_refusal(*ctx) is None && final(self)@ == old(
                    self)@.distributed(*ctx, token, total_amount),
                Err(f) => old(self)@.distribute_refusal(*ctx) == Some(f) && final(self)@ == old(
                    self)@,
            },
    {
        match self.require_admin(ctx) {
            Ok(()) => {},
            Err(f) => {
                return Err(f);
            },
        }
        let staking_contract: Address = match self.staking_contract {
            Some(a) => a,
            None => {
                return Err(Failure::Error(Error::NotInitialized));
            },
        };
        self.effects.push(
            Effect::Transfer {
                token,
                from: ctx.contract,
                to: staking_contract,
                amount: total_amount,
            },
        );
        self.effects.push(
            Effect::DistributeRevenue { staking_contract, token, amount: total_amount },
        );
        self.effects.push(Effect::Distributed { staking_contract, token, amount: total_amount });
        Ok(())
    }

    /// The oracle that has to be asked for the health of an asset before a
    /// buyback, if any; for the admin.
    pub fn buyback_query(
        &self,
        ctx: &Context,
        oracle_contract: Option<Address>,
        mnt_asset_symbol: Option<Symbol>,
    ) -> (query: Result<Option<(Address, Symbol)>, Failure<Error>>)
        ensures
            match query {
                Ok(q) => self@.admin_refusal(*ctx) is None && q == (match (
                    oracle_contract,
                    mnt_asset_symbol,
                ) {
                    (Some(oracle), Some(asset)) => Some((oracle, asset)),
                    _ => None,
                }),
                Err(f) => self@.admin_refusal(*ctx) == Some(f),
            },
    {
        match self.require_admin(ctx) {
            Ok(()) => {},
            Err(f) => {
                return Err(f);
            },
        }
        match (oracle_contract, mnt_asset_symbol) {
            (Some(oracle), Some(asset)) => Ok(Some((oracle, asset))),
            _ => Ok(None),
        }
    }

    /// Sends tokens to the exchange to buy back the platform's own; for the
    /// admin. `health` is what the oracle answered; it counts only where both an
    /// oracle and an asset are named. What the exchange gives is then burned by
    /// `burn_bought`.
    pub fn buyback_and_burn(
        &mut self,
        ctx: &Context,
        xlm_token: Address,
        mnt_token: Address,
        dex_contract: Address,
        xlm_amount: i128,
        oracle_contract: Option<Address>,
        mnt_asset_symbol: Option<Symbol>,
        health: &OracleHealth,
    ) -> (done: Result<(), Failure<Error>>)
        ensures
            ({
                let refusal = old(self)@.buyback_refusal(
                    *ctx,
                    oracle_contract,
                    mnt_asset_symbol,
                    *health,
                );
                match done {
                    Ok(()) => refusal is None && final(self)@ == old(self)@.bought(
                        *ctx,
                        xlm_token,
                        mnt_token,
                        dex_contract,
                        xlm_amount,
                    ),
                    Err(f) => refusal == Some(f) && final(self)@ == old(self)@,
                }
            }),
    {
        match self.buyback_query(ctx, oracle_contract, mnt_asset_symbol) {
            Ok(Some(_)) => {
                match check_oracle_health(health) {
                    Ok(()) => {},
                    Err(e) => {
                        return Err(Failure::Error(e));
                    },
                }
            },
            Ok(None) => {},
            Err(f) => {
                return Err(f);
            },
        }
        self.effects.push(
            Effect::Transfer {
                token: xlm_token,
                from: ctx.contract,
                to: dex_contract,
                amount: xlm_amount,
            },
        );
        self.effects.push(
            Effect::Swap {
                dex_contract,
                token_in: xlm_token,
                token_out: mnt_token,
                amount: xlm_amount,
            },
        );
        Ok(())
    }

    /// Burns all that the exchange gave in a buyback.
    pub fn burn_bought(&mut self, ctx: &Context, mnt_token: Address, mnt_received: i128)
        ensures
            final(self)@ == old(self)@.burned(*ctx, mnt_token, mnt_received),
    {
        self.effects.push(
            Effect::Burn { token: mnt_token, from: ctx.contract, amount: mnt_received },
        );
        self.effects.push(Effect::BoughtBack { token: mnt_token, amount: mnt_received });
    }

    /// The allocations so far.
    pub fn get_history(&self) -> (history: Vec<AllocationHistory>)
        ensures
            history@ == self@.history,
    {
        copied(&self.history)
    }
}

/// Nobody but the admin spends: without the admin's consent an allocation, a
/// distribution and a buyback are all refused.
pub proof fn law_only_admin_spends(
    s: TreasuryState,
    ctx: Context,
    oracle_contract: Option<Address>,
    mnt_asset_symbol: Option<Symbol>,
    health: OracleHealth,
)
    requires
        s.admin is None || !ctx.authorizes(s.admin->0),
    ensures
        s.admin_refusal(ctx) is Some,
        s.distribute_refusal(ctx) is Some,
        s.buyback_refusal(ctx, oracle_contract, mnt_asset_symbol, health) is Some,
{
}

/// No buyback goes through on the word of an oracle that is stale or has fewer
/// than three feeders.
pub proof fn law_oracle_guards_buyback(
    s: TreasuryState,
    ctx: Context,
    oracle_contract: Address,
    mnt_asset_symbol: Symbol,
    health: OracleHealth,
)
    ensures
        s.buyback_refusal(ctx, Some(oracle_contract), Some(mnt_asset_symbol), health) is None
            <==> s.admin_refusal(ctx) is None && !health.is_stale && health.active_feeders >= 3,
{
}

/// The history grows by exactly one entry with an allocation, and otherwise not
/// at all; what it held stays.
pub proof fn law_history_is_kept(
    s: TreasuryState,
    ctx: Context,
    a: Address,
    b: Address,
    c: Address,
    amount: i128,
)
    ensures
        s.allocated(ctx, a, b, amount).history.drop_last() == s.history,
        s.deposited(ctx, a, b, amount).history == s.history,
        s.distributed(ctx, a, amount).history == s.history,
        s.bought(ctx, a, b, c, amount).history == s.history,
        s.burned(ctx, a, amount).history == s.history,
{
    assert(s.allocated(ctx, a, b, amount).history.drop_last() =~= s.history);
}

/// Who may call: anybody deposits who consents; the contract is set up once; and the
/// admin, who consents, allocates, distributes where there is a staking contract, and
/// buys back.
pub proof fn law_calls_are_open(s: TreasuryState, ctx: Context, from: Address)
    ensures
        ({
            let signed = s.admin is Some && ctx.authorized@.contains(s.admin->0);
            &&& s.initialize_refusal() is None <==> s.admin is None
            &&& s.deposit_refusal(ctx, from) is None <==> ctx.authorized@.contains(from)
            &&& s.admin_refusal(ctx) is None <==> signed
            &&& s.admin_refusal(ctx) == Some(Failure::<Error>::Error(Error::NotInitialized))
                <==> s.admin is None
            &&& s.distribute_refusal(ctx) is None <==> signed && s.staking_contract is Some
        }),
{
}

/// When a buyback goes through: for the admin, unless both an oracle and an asset are
/// named and the oracle is stale or has fewer than three feeders; staleness is said
/// first.
pub proof fn law_buyback_is_open(
    s: TreasuryState,
    ctx: Context,
    oracle_contract: Option<Address>,
    mnt_asset_symbol: Option<Symbol>,
    health: OracleHealth,
)
    ensures
        ({
            let f = s.buyback_refusal(ctx, oracle_contract, mnt_asset_symbol, health);
            let signed = s.admin is Some && ctx.authorized@.contains(s.admin->0);
            let asked = oracle_contract is Some && mnt_asset_symbol is Some;
            &&& f is None <==> signed && (asked ==> !health.is_stale && health.active_feeders >= 3)
            &&& f == Some(Failure::<Error>::Error(Error::OracleStale)) <==> signed && asked
                && health.is_stale
            &&& f == Some(Failure::<Error>::Error(Error::OracleUnhealthy)) <==> signed && asked
                && !health.is_stale && health.active_feeders < 3
        }),
{
}

/// What the calls do: the amount named, of the token named, moves from the one named
/// to the other, and what has to be told is told, in this order; nothing else changes,
/// but for the history of an allocation.
pub proof fn law_what_moves(
    s: TreasuryState,
    ctx: Context,
    token: Address,
    other: Address,
    dex_contract: Address,
    amount: i128,
)
    ensures
        s.deposited(ctx, other, token, amount) == (TreasuryState {
            effects: s.effects + seq![
                Effect::Transfer { token, from: other, to: ctx.contract, amount },
                Effect::Deposited { from: other, token, amount },
            ],
            ..s
        }),
        s.allocated(ctx, token, other, amount) == (TreasuryState {
            history: s.history + seq![
                AllocationHistory { token, recipient: other, amount, timestamp: ctx.now },
            ],
            effects: s.effects + seq![
                Effect::Transfer { token, from: ctx.contract, to: other, amount },
                Effect::Allocated { recipient: other, token, amount },
            ],
            ..s
        }),
        s.staking_contract == Some(other) ==> s.distributed(ctx, token, amount) == (TreasuryState {
            effects: s.effects + seq![
                Effect::Transfer { token, from: ctx.contract, to: other, amount },
                Effect::DistributeRevenue { staking_contract: other, token, amount },
                Effect::Distributed { staking_contract: other, token, amount },
            ],
            ..s
        }),
        s.bought(ctx, token, other, dex_contract, amount) == (TreasuryState {
            effects: s.effects + seq![
                Effect::Transfer { token, from: ctx.contract, to: dex_contract, amount },
                Effect::Swap { dex_contract, token_in: token, token_out: other, amount },
            ],
            ..s
        }),
        s.burned(ctx, token, amount) == (TreasuryState {
            effects: s.effects + seq![
                Effect::Burn { token, from: ctx.contract, amount },
                Effect::BoughtBack { token, amount },
            ],
            ..s
        }),
        s.initialized(token, other) == (TreasuryState {
            admin: Some(token),
            staking_contract: Some(other),
            history: Seq::empty(),
            ..s
        }),
{
    assert(s.deposited(ctx, other, token, amount).effects =~= s.effects + seq![
        Effect::Transfer { token, from: other, to: ctx.contract, amount },
        Effect::Deposited { from: other, token, amount },
    ]);
    assert(s.allocated(ctx, token, other, amount).history =~= s.history + seq![
        AllocationHistory { token, recipient: other, amount, timestamp: ctx.now },
    ]);
    assert(s.allocated(ctx, token, other, amount).effects =~= s.effects + seq![
        Effect::Transfer { token, from: ctx.contract, to: other, amount },
        Effect::Allocated { recipient: other, token, amount },
    ]);
    if s.staking_contract == Some(other) {
        assert(s.distributed(ctx, token, amount).effects =~= s.effects + seq![
            Effect::Transfer { token, from: ctx.contract, to: other, amount },
            Effect::DistributeRevenue { staking_contract: other, token, amount },
            Effect::Distributed { staking_contract: other, token, amount },
        ]);
    }
    assert(s.bought(ctx, token, other, dex_contract, amount).effects =~= s.effects + seq![
        Effect::Transfer { token, from: ctx.contract, to: dex_contract, amount },
        Effect::Swap { dex_contract, token_in: token, token_out: other, amount },
    ]);
    assert(s.burned(ctx, token, amount).effects =~= s.effects + seq![
        Effect::Burn { token, from: ctx.contract, amount },
        Effect::BoughtBack { token, amount },
    ]);
}

} // verus!
