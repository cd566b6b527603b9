//! Governance of the platform: proposals, votes weighted by a snapshot of the
//! token, and the execution of what passes.

use crate::crypto::{digest_of, sha256};
use crate::fixed_point::fits;
use crate::sums::{
    lemma_sum_insert, lemma_sum_nonnegative, lemma_sum_same, lemma_sum_scale, sum_of,
};
use crate::table::Table;
use crate::types::{Address, Context, Digest, Failure, Symbol};
use vstd::prelude::*;

verus! {

/// How long a vote lasts where the deployer names no period: seven days.
pub const DEFAULT_VOTING_PERIOD_SECS: u64 = 604_800;

/// Quorum where the deployer names none: ten percent.
pub const DEFAULT_QUORUM_BPS: u32 = 1_000;

/// Quorum of a call without a template: thirty percent.
pub const CUSTOM_PROPOSAL_QUORUM_BPS: u32 = 3_000;

/// The whole, in basis points.
pub const FULL_BPS: u32 = 10_000;

/// The most arguments of a call whose digest is taken. No contract takes that of
/// more: as it puts so many bytes one behind the other, the host's metering, at its
/// default limits, stops it long before.
pub const MAX_HASHED_ARGS: usize = 0x2_0000;

/// What a proposal does once it has passed.
#[derive(Debug, PartialEq, Eq)]
pub enum ProposalAction {
    UpdateFee(u32),
    UpdateAutoRelease(u64),
    AddAsset(Address),
    UpdateAdmin(Address),
    ExecuteCall(Address, Symbol, Vec<u64>),
}

/// Where a proposal stands.
#[derive(Clone, Copy, Debug, PartialEq, Eq, Structural)]
pub enum ProposalStatus {
    Active,
    Passed,
    Failed,
    Executed,
    Cancelled,
}

impl ProposalStatus {
    /// The steps of a proposal's life.
    pub open spec fn may_become(self, to: ProposalStatus) -> bool {
        match (self, to) {
            (ProposalStatus::Active, ProposalStatus::Passed) => true,
            (ProposalStatus::Active, ProposalStatus::Failed) => true,
            (ProposalStatus::Active, ProposalStatus::Cancelled) => true,
            (ProposalStatus::Passed, ProposalStatus::Executed) => true,
            _ => false,
        }
    }

    /// Whether `from` may become `to`.
    pub fn is_valid_transition(from: &ProposalStatus, to: &ProposalStatus) -> (yes: bool)
        ensures
            yes == from.may_become(*to),
    {
        match (from, to) {
            (ProposalStatus::Active, ProposalStatus::Passed) => true,
            (ProposalStatus::Active, ProposalStatus::Failed) => true,
            (ProposalStatus::Active, ProposalStatus::Cancelled) => true,
            (ProposalStatus::Passed, ProposalStatus::Executed) => true,
            _ => false,
        }
    }
}

/// A proposal and its tally.
#[derive(Debug, PartialEq, Eq)]
pub struct Proposal {
    pub id: u32,
    pub proposer: Address,
    pub title: Vec<u8>,
    pub description_hash: Digest,
    pub action: ProposalAction,
    pub status: ProposalStatus,
    pub created_at: u64,
    pub voting_ends_at: u64,
    pub snapshot_ledger: u32,
    pub total_supply_snapshot: i128,
    pub votes_for: i128,
    pub votes_against: i128,
}

/// Why the contract stops a call.
#[derive(Clone, Copy, Debug, PartialEq, Eq, Structural)]
pub enum Refusal {
    AlreadyInitialized,
    NotInitialized,
    InvalidVotingPeriod,
    InvalidQuorum,
    ProposalOverflow,
    /// What the host says of a call that costs too much.
    BudgetExceeded,
    TemplateMismatch,
    SnapshotNotSet,
    VotingEndOverflow,
    ProposalNotFound,
    ProposalNotActive,
    VotingPeriodEnded,
    AlreadyVoted,
    NoVotingPower,
    VotesForOverflow,
    VotesAgainstOverflow,
    AlreadyExecuted,
    VotingPeriodNotEnded,
    ProposalNotExecutable,
    VoteOverflow,
    QuorumOverflow,
    QuorumThresholdOverflow,
    CannotCancelExecuted,
    TokenNotSet,
}

impl Refusal {
    /// The reason in words.
    pub open spec fn text(self) -> Seq<char> {
        match self {
            Refusal::AlreadyInitialized => "already initialized"@,
            Refusal::NotInitialized => "not initialized"@,
            Refusal::InvalidVotingPeriod => "invalid voting period"@,
            Refusal::InvalidQuorum => "invalid quorum bps"@,
            Refusal::ProposalOverflow => "proposal overflow"@,
            Refusal::BudgetExceeded => "Error(Budget, ExceededLimit)"@,
            Refusal::TemplateMismatch => "args do not match template hash"@,
            Refusal::SnapshotNotSet => "snapshot not set"@,
            Refusal::VotingEndOverflow => "voting end overflow"@,
            Refusal::ProposalNotFound => "proposal not found"@,
            Refusal::ProposalNotActive => "proposal not active"@,
            Refusal::VotingPeriodEnded => "voting period ended"@,
            Refusal::AlreadyVoted => "already voted"@,
            Refusal::NoVotingPower => "no voting power"@,
            Refusal::VotesForOverflow => "votes for overflow"@,
            Refusal::VotesAgainstOverflow => "votes against overflow"@,
            Refusal::AlreadyExecuted => "proposal already executed"@,
            Refusal::VotingPeriodNotEnded => "voting period not ended"@,
            Refusal::ProposalNotExecutable => "proposal not executable"@,
            Refusal::VoteOverflow => "vote overflow"@,
            Refusal::QuorumOverflow => "quorum overflow"@,
            Refusal::QuorumThresholdOverflow => "quorum threshold overflow"@,
            Refusal::CannotCancelExecuted => "cannot cancel executed proposal"@,
            Refusal::TokenNotSet => "token not set"@,
        }
    }

    /// The reason in words.
    pub fn message(&self) -> (m: &'static str)
        ensures
            m@ == self.text(),
    {
        match self {
            Refusal::AlreadyInitialized => "already initialized",
            Refusal::NotInitialized => "not initialized",
            Refusal::InvalidVotingPeriod => "invalid voting period",
            Refusal::InvalidQuorum => "invalid quorum bps",
            Refusal::ProposalOverflow => "proposal overflow",
            Refusal::BudgetExceeded => "Error(Budget, ExceededLimit)",
            Refusal::TemplateMismatch => "args do not match template hash",
            Refusal::SnapshotNotSet => "snapshot not set",
            Refusal::VotingEndOverflow => "voting end overflow",
            Refusal::ProposalNotFound => "proposal not found",
            Refusal::ProposalNotActive => "proposal not active",
            Refusal::VotingPeriodEnded => "voting period ended",
            Refusal::AlreadyVoted => "already voted",
            Refusal::NoVotingPower => "no voting power",
            Refusal::VotesForOverflow => "votes for overflow",
            Refusal::VotesAgainstOverflow => "votes against overflow",
            Refusal::AlreadyExecuted => "proposal already executed",
            Refusal::VotingPeriodNotEnded => "voting period not ended",
            Refusal::ProposalNotExecutable => "proposal not executable",
            Refusal::VoteOverflow => "vote overflow",
            Refusal::QuorumOverflow => "quorum overflow",
            Refusal::QuorumThresholdOverflow => "quorum threshold overflow",
            Refusal::CannotCancelExecuted => "cannot cancel executed proposal",
            Refusal::TokenNotSet => "token not set",
        }
    }
}

/// What a call asks of the ledger, in order.
#[derive(Clone, Copy, Debug, PartialEq, Eq, Structural)]
pub enum Effect {
    ProposalCreated { id: u32, proposer: Address, snapshot_ledger: u32, voting_ends_at: u64 },
    VoteCast { proposal_id: u32, voter: Address, support: bool, weight: i128 },
    /// Call `function` of `target` with the arguments in the proposal's action.
    Call { proposal_id: u32, target: Address, function: Symbol },
    ProposalExecuted { proposal_id: u32 },
}

/// What has to be asked of other contracts before a proposal can be made.
#[derive(Clone, Copy, Debug, PartialEq, Eq)]
pub struct ProposalQueries {
    /// The number that the proposal will have.
    pub id: u32,
    /// The contract that records the snapshot under that number, and then gives
    /// the total supply at it.
    pub snapshot: Address,
    /// The templates contract with the target and the function whose template
    /// hash it is asked for.
    pub template: Option<(Address, Address, Symbol)>,
}

/// The contract's storage as a mathematical value.
#[verifier::ext_equal]
pub struct GovernanceState {
    pub admin: Option<Address>,
    pub token: Option<Address>,
    pub snapshot: Option<Address>,
    pub voting_period_secs: u64,
    pub quorum_bps: u32,
    pub proposal_count: u32,
    pub timelock: Option<Address>,
    pub templates: Option<Address>,
    pub current_fee_bps: Option<u32>,
    pub current_auto_release_secs: Option<u64>,
    pub proposals: Map<u32, Proposal>,
    pub votes: Map<(u32, Address), bool>,
    pub vote_weights: Map<(u32, Address), i128>,
    pub approved_assets: Map<Address, bool>,
    pub custom: Map<u32, bool>,
    pub effects: Seq<Effect>,
}

/// The governance contract.
pub struct GovernanceContract {
    pub admin: Option<Address>,
    /// The governance token.
    pub token: Option<Address>,
    /// The contract that snapshots balances.
    pub snapshot: Option<Address>,
    pub voting_period_secs: u64,
    pub quorum_bps: u32,
    /// Number of the last proposal.
    pub proposal_count: u32,
    pub timelock: Option<Address>,
    /// The contract that holds the templates of calls.
    pub templates: Option<Address>,
    pub current_fee_bps: Option<u32>,
    pub current_auto_release_secs: Option<u64>,
    pub proposals: Table<u32, Proposal>,
    /// Who voted on which proposal, and whether in favour.
    pub votes: Table<(u32, Address), bool>,
    pub vote_weights: Table<(u32, Address), i128>,
    pub approved_assets: Table<Address, bool>,
    /// Proposals that call a function without a template.
    pub custom: Table<u32, bool>,
    /// What the calls so far ask of the ledger.
    pub effects: Vec<Effect>,
}

impl View for GovernanceContract {
    type V = GovernanceState;

    open spec fn view(&self) -> GovernanceState {
        GovernanceState {
            admin: self.admin,
            token: self.token,
            snapshot: self.snapshot,
            voting_period_secs: self.voting_period_secs,
            quorum_bps: self.quorum_bps,
            proposal_count: self.proposal_count,
            timelock: self.timelock,
            templates: self.templates,
            current_fee_bps: self.current_fee_bps,
            current_auto_release_secs: self.current_auto_release_secs,
            proposals: self.proposals@,
            votes: self.votes@,
            vote_weights: self.vote_weights@,
            approved_assets: self.approved_assets@,
            custom: self.custom@,
            effects: self.effects@,
        }
    }
}

/// The eight bytes of `v`, the most significant first.
pub open spec fn be_bytes(v: u64) -> Seq<u8> {
    seq![
        (v / 0x100_0000_0000_0000) as u8,
        (v / 0x1_0000_0000_0000 % 256) as u8,
        (v / 0x100_0000_0000 % 256) as u8,
        (v / 0x1_0000_0000 % 256) as u8,
        (v / 0x100_0000 % 256) as u8,
        (v / 0x1_0000 % 256) as u8,
        (v / 0x100 % 256) as u8,
        (v % 256) as u8,
    ]
}

/// The bytes of all arguments, one after the other.
pub open spec fn args_bytes(args: Seq<u64>) -> Seq<u8>
    decreases args.len(),
{
    if args.len() == 0 {
        Seq::empty()
    } else {
        args_bytes(args.drop_last()) + be_bytes(args.last())
    }
}

proof fn lemma_args_bytes_len(args: Seq<u64>)
    ensures
        args_bytes(args).len() == 8 * args.len(),
    decreases args.len(),
{
    if args.len() > 0 {
        lemma_args_bytes_len(args.drop_last());
    }
}

/// Whether the votes reach the quorum: their share of the total supply is at
/// least `quorum_bps`.
pub open spec fn quorum_met(p: Proposal, quorum_bps: u32) -> bool {
    p.total_supply_snapshot > 0 && (p.votes_for + p.votes_against) * FULL_BPS
        >= p.total_supply_snapshot * quorum_bps
}

/// Whether the proposal passes: by quorum and by majority.
pub open spec fn passes(p: Proposal, quorum_bps: u32) -> bool {
    quorum_met(p, quorum_bps) && p.votes_for > p.votes_against
}

impl GovernanceState {
    /// The storage of a contract that was just deployed.
    pub open spec fn fresh() -> GovernanceState {
        GovernanceState {
            admin: None,
            token: None,
            snapshot: None,
            voting_period_secs: DEFAULT_VOTING_PERIOD_SECS,
            quorum_bps: DEFAULT_QUORUM_BPS,
            proposal_count: 0,
            timelock: None,
            templates: None,
            current_fee_bps: None,
            current_auto_release_secs: None,
            proposals: Map::empty(),
            votes: Map::empty(),
            vote_weights: Map::empty(),
            approved_assets: Map::empty(),
            custom: Map::empty(),
            effects: Seq::empty(),
        }
    }

    pub open spec fn initialize_refusal(
        self,
        voting_period_secs: Option<u64>,
        quorum_bps: Option<u32>,
    ) -> Option<Failure<Refusal>> {
        if self.admin is Some {
            Some(Failure::Error(Refusal::AlreadyInitialized))
        } else if voting_period_secs == Some(0u64) {
            Some(Failure::Error(Refusal::InvalidVotingPeriod))
        } else if quorum_bps is Some && (quorum_bps->0 == 0 || quorum_bps->0 > FULL_BPS) {
            Some(Failure::Error(Refusal::InvalidQuorum))
        } else {
            None
        }
    }

    pub open spec fn initialized(
        self,
        admin: Address,
        mnt_token: Address,
        snapshot_contract: Address,
        voting_period_secs: Option<u64>,
        quorum_bps: Option<u32>,
    ) -> GovernanceState {
        GovernanceState {
            admin: Some(admin),
            token: Some(mnt_token),
            snapshot: Some(snapshot_contract),
            voting_period_secs: match voting_period_secs {
                Some(p) => p,
                None => DEFAULT_VOTING_PERIOD_SECS,
            },
            quorum_bps: match quorum_bps {
                Some(q) => q,
                None => DEFAULT_QUORUM_BPS,
            },
            proposal_count: 0,
            ..self
        }
    }

    /// Only the admin may act.
    pub open spec fn admin_refusal(self, ctx: Context) -> Option<Failure<Refusal>> {
        if self.admin is None {
            Some(Failure::Error(Refusal::NotInitialized))
        } else if !ctx.authorizes(self.admin->0) {
            Some(Failure::Unauthorized)
        } else {
            None
        }
    }

    /// Why no proposal can be made, whatever it says.
    pub open spec fn propose_refusal(self, ctx: Context, proposer: Address) -> Option<
        Failure<Refusal>,
    > {
        if !ctx.authorizes(proposer) {
            Some(Failure::Unauthorized)
        } else if self.admin is None {
            Some(Failure::Error(Refusal::NotInitialized))
        } else if self.proposal_count == u32::MAX {
            Some(Failure::Error(Refusal::ProposalOverflow))
        } else {
            None
        }
    }

    /// Whether the digest of the arguments is held against a template's.
    pub open spec fn is_templated(
        self,
        action: ProposalAction,
        template_hash: Option<Digest>,
    ) -> bool {
        action is ExecuteCall && self.templates is Some && template_hash is Some
    }

    /// Why a proposal cannot be made, given the digest of its arguments and the
    /// template's.
    pub open spec fn create_refusal(
        self,
        ctx: Context,
        proposer: Address,
        action: ProposalAction,
        args_hash: Digest,
        template_hash: Option<Digest>,
    ) -> Option<Failure<Refusal>> {
        let early = self.propose_refusal(ctx, proposer);
        if early is Some {
            early
        } else if self.is_templated(action, template_hash) && args_hash != template_hash->0 {
            Some(Failure::Error(Refusal::TemplateMismatch))
        } else if self.snapshot is None {
            Some(Failure::Error(Refusal::SnapshotNotSet))
        } else if ctx.now + self.voting_period_secs > u64::MAX {
            Some(Failure::Error(Refusal::VotingEndOverflow))
        } else {
            None
        }
    }

    /// The next proposal, active and without votes, under the next number. A
    /// call for which the templates contract knows no template is marked.
    pub open spec fn created(
        self,
        ctx: Context,
        proposer: Address,
        title: Vec<u8>,
        description_hash: Digest,
        action: ProposalAction,
        template_hash: Option<Digest>,
        total_supply: i128,
    ) -> GovernanceState {
        let id = (self.proposal_count + 1) as u32;
        let voting_ends_at = (ctx.now + self.voting_period_secs) as u64;
        let proposal = Proposal {
            id,
            proposer,
            title,
            description_hash,
            action,
            status: ProposalStatus::Active,
            created_at: ctx.now,
            voting_ends_at,
            snapshot_ledger: ctx.sequence,
            total_supply_snapshot: total_supply,
            votes_for: 0,
            votes_against: 0,
        };
        GovernanceState {
            proposal_count: id,
            proposals: self.proposals.insert(id, proposal),
            custom: if action is ExecuteCall && self.templates is Some && template_hash is None {
                self.custom.insert(id, true)
            } else {
                self.custom
            },
            effects: self.effects.push(
                Effect::ProposalCreated {
                    id,
                    proposer,
                    snapshot_ledger: ctx.sequence,
                    voting_ends_at,
                },
            ),
            ..self
        }
    }

    /// Why a vote is refused whatever its weight.
    pub open spec fn ballot_refusal(self, ctx: Context, voter: Address, id: u32) -> Option<
        Failure<Refusal>,
    > {
        let p = self.proposals[id];
        if !ctx.authorizes(voter) {
            Some(Failure::Unauthorized)
        } else if !self.proposals.contains_key(id) {
            Some(Failure::Error(Refusal::ProposalNotFound))
        } else if p.status != ProposalStatus::Active {
            Some(Failure::Error(Refusal::ProposalNotActive))
        } else if ctx.now >= p.voting_ends_at {
            Some(Failure::Error(Refusal::VotingPeriodEnded))
        } else if self.votes.contains_key((id, voter)) {
            Some(Failure::Error(Refusal::AlreadyVoted))
        } else if self.snapshot is None {
            Some(Failure::Error(Refusal::SnapshotNotSet))
        } else {
            None
        }
    }

    pub open spec fn vote_refusal(
        self,
        ctx: Context,
        voter: Address,
        id: u32,
        support: bool,
        weight: i128,
    ) -> Option<Failure<Refusal>> {
        let p = self.proposals[id];
        let early = self.ballot_refusal(ctx, voter, id);
        if early is Some {
            early
        } else if weight <= 0 {
            Some(Failure::Error(Refusal::NoVotingPower))
        } else if support && !fits(p.votes_for + weight) {
            Some(Failure::Error(Refusal::VotesForOverflow))
        } else if !support && !fits(p.votes_against + weight) {
            Some(Failure::Error(Refusal::VotesAgainstOverflow))
        } else {
            None
        }
    }

    /// The weight goes onto one side, and the vote is remembered.
    pub open spec fn voted(
        self,
        voter: Address,
        id: u32,
        support: bool,
        weight: i128,
    ) -> GovernanceState {
        let p = self.proposals[id];
        GovernanceState {
            proposals: self.proposals.insert(
                id,
                if support {
                    Proposal { votes_for: (p.votes_for + weight) as i128, ..p }
                } else {
                    Proposal { votes_against: (p.votes_against + weight) as i128, ..p }
                },
            ),
            votes: self.votes.insert((id, voter), support),
            vote_weights: self.vote_weights.insert((id, voter), weight),
            effects: self.effects.push(
                Effect::VoteCast { proposal_id: id, voter, support, weight },
            ),
            ..self
        }
    }

    /// The quorum that a proposal has to reach.
    pub open spec fn quorum_of(self, id: u32) -> u32 {
        if self.custom.contains_key(id) && self.custom[id] {
            CUSTOM_PROPOSAL_QUORUM_BPS
        } else {
            self.quorum_bps
        }
    }

    pub open spec fn execute_refusal(self, ctx: Context, id: u32) -> Option<Failure<Refusal>> {
        let p = self.proposals[id];
        let total = p.votes_for + p.votes_against;
        if !self.proposals.contains_key(id) {
            Some(Failure::Error(Refusal::ProposalNotFound))
        } else if p.status == ProposalStatus::Executed {
            Some(Failure::Error(Refusal::AlreadyExecuted))
        } else if ctx.now < p.voting_ends_at {
            Some(Failure::Error(Refusal::VotingPeriodNotEnded))
        } else if p.status == ProposalStatus::Cancelled || p.status == ProposalStatus::Failed {
            Some(Failure::Error(Refusal::ProposalNotExecutable))
        } else if !fits(total) {
            Some(Failure::Error(Refusal::VoteOverflow))
        } else if p.total_supply_snapshot > 0 && !fits(total * FULL_BPS) {
            Some(Failure::Error(Refusal::QuorumOverflow))
        } else if p.total_supply_snapshot > 0 && !fits(
            p.total_supply_snapshot * self.quorum_of(id),
        ) {
            Some(Failure::Error(Refusal::QuorumThresholdOverflow))
        } else {
            None
        }
    }

    /// What an action does to the contract's own settings.
    pub open spec fn applied(self, action: ProposalAction, id: u32) -> GovernanceState {
        match action {
            ProposalAction::UpdateFee(fee) => GovernanceState {
                current_fee_bps: Some(fee),
                ..self
            },
            ProposalAction::UpdateAutoRelease(delay) => GovernanceState {
                current_auto_release_secs: Some(delay),
                ..self
            },
            ProposalAction::AddAsset(asset) => GovernanceState {
                approved_assets: self.approved_assets.insert(asset, true),
                ..self
            },
            ProposalAction::UpdateAdmin(admin) => GovernanceState { admin: Some(admin), ..self },
            ProposalAction::ExecuteCall(target, function, args) => GovernanceState {
                effects: self.effects.push(Effect::Call { proposal_id: id, target, function }),
                ..self
            },
        }
    }

    /// A proposal that passes is carried out; one that does not has failed.
    pub open spec fn executed(self, id: u32) -> GovernanceState {
        let p = self.proposals[id];
        if passes(p, self.quorum_of(id)) {
            let s = self.applied(p.action, id);
            GovernanceState {
                proposals: s.proposals.insert(
                    id,
                    Proposal { status: ProposalStatus::Executed, ..p },
                ),
                effects: s.effects.push(Effect::ProposalExecuted { proposal_id: id }),
                ..s
            }
        } else {
            GovernanceState {
                proposals: self.proposals.insert(
                    id,
                    Proposal { status: ProposalStatus::Failed, ..p },
                ),
                ..self
            }
        }
    }

    pub open spec fn cancel_refusal(self, ctx: Context, id: u32) -> Option<Failure<Refusal>> {
        let early = self.admin_refusal(ctx);
        if early is Some {
            early
        } else if !self.proposals.contains_key(id) {
            Some(Failure::Error(Refusal::ProposalNotFound))
        } else if self.proposals[id].status == ProposalStatus::Executed {
            Some(Failure::Error(Refusal::CannotCancelExecuted))
        } else {
            None
        }
    }

    pub open spec fn cancelled(self, id: u32) -> GovernanceState {
        GovernanceState {
            proposals: self.proposals.insert(
                id,
                Proposal { status: ProposalStatus::Cancelled, ..self.proposals[id] },
            ),
            ..self
        }
    }
}

impl GovernanceContract {
    /// A contract with empty storage.
    pub fn new() -> (contract: GovernanceContract)
        ensures
            contract@ == GovernanceState::fresh(),
            contract@.valid(),
    {
        proof {
            law_fresh_is_valid();
        }
        GovernanceContract {
            admin: None,
            token: None,
            snapshot: None,
            voting_period_secs: DEFAULT_VOTING_PERIOD_SECS,
            quorum_bps: DEFAULT_QUORUM_BPS,
            proposal_count: 0,
            timelock: None,
            templates: None,
            current_fee_bps: None,
            current_auto_release_secs: None,
            proposals: Table::new(),
            votes: Table::new(),
            vote_weights: Table::new(),
            approved_assets: Table::new(),
            custom: Table::new(),
            effects: Vec::new(),
        }
    }

    /// Sets the contract up, once.
    pub fn initialize(
        &mut self,
        admin: Address,
        mnt_token: Address,
        snapshot_contract: Address,
        voting_period_secs: Option<u64>,
        quorum_bps: Option<u32>,
    ) -> (done: Result<(), Failure<Refusal>>)
        ensures
            match done {
                Ok(()) => old(self)@.initialize_refusal(voting_period_secs, quorum_bps) is None
                    && final(self)@ == old(self)@.initialized(
                    admin,
                    mnt_token,
                    snapshot_contract,
                    voting_period_secs,
                    quorum_bps,
                ),
                Err(f) => old(self)@.initialize_refusal(voting_period_secs, quorum_bps) == Some(f)
                    && final(self)@ == old(self)@,
            },
            old(self)@.valid() ==> final(self)@.valid(),
    {
        if self.admin.is_some() {
            return Err(Failure::Error(Refusal::AlreadyInitialized));
        }
        let period: u64 = match voting_period_secs {
            Some(p) => p,
            None => DEFAULT_VOTING_PERIOD_SECS,
        };
        if period == 0 {
            return Err(Failure::Error(Refusal::InvalidVotingPeriod));
        }
        let quorum: u32 = match quorum_bps {
            Some(q) => q,
            None => DEFAULT_QUORUM_BPS,
        };
        if quorum == 0 || quorum > FULL_BPS {
            return Err(Failure::Error(Refusal::InvalidQuorum));
        }
        self.admin = Some(admin);
        self.token = Some(mnt_token);
        self.snapshot = Some(snapshot_contract);
        self.voting_period_secs = period;
        self.quorum_bps = quorum;
        self.proposal_count = 0;
        proof {
            if old(self)@.valid() {
                law_settings_keep_valid(
                    old(self)@,
                    admin,
                    mnt_token,
                    snapshot_contract,
                    voting_period_secs,
                    quorum_bps,
                    admin,
                );
            }
        }
        Ok(())
    }

    /// Fails unless the admin consented.
    fn require_admin(&self, ctx: &Context) -> (done: Result<(), Failure<Refusal>>)
        ensures
            match done {
                Ok(()) => self@.admin_refusal(*ctx) is None,
                Err(f) => self@.admin_refusal(*ctx) == Some(f),
            },
    {
        match self.admin {
            None => Err(Failure::Error(Refusal::NotInitialized)),
            Some(admin) => if ctx.has_auth(admin) {
                Ok(())
            } else {
                Err(Failure::Unauthorized)
            },
        }
    }

    /// Names the timelock contract; for the admin.
    pub fn set_timelock(&mut self, ctx: &Context, timelock: Address) -> (done: Result<
        (),
        Failure<Refusal>,
    >)
        ensures
            match done {
                Ok(()) => old(self)@.admin_refusal(*ctx) is None && final(self)@
                    == (GovernanceState { timelock: Some(timelock), ..old(self)@ }),
                Err(f) => old(self)@.admin_refusal(*ctx) == Some(f) && final(self)@ == old(self)@,
            },
            old(self)@.valid() ==> final(self)@.valid(),
    {
        match self.require_admin(ctx) {
            Ok(()) => {
                self.timelock = Some(timelock);
                proof {
                    if old(self)@.valid() {
                        law_settings_keep_valid(
                            old(self)@,
                            timelock,
                            timelock,
                            timelock,
                            None,
                            None,
                            timelock,
                        );
                    }
                }
                Ok(())
            },
            Err(f) => Err(f),
        }
    }

    /// Names the templates contract; for the admin.
    pub fn set_templates_contract(&mut self, ctx: &Context, templates_contract: Address) -> (done:
        Result<(), Failure<Refusal>>)
        ensures
            match done {
                Ok(()) => old(self)@.admin_refusal(*ctx) is None && final(self)@
                    == (GovernanceState { templates: Some(templates_contract), ..old(self)@ }),
                Err(f) => old(self)@.admin_refusal(*ctx) == Some(f) && final(self)@ == old(self)@,
            },
            old(self)@.valid() ==> final(self)@.valid(),
    {
        match self.require_admin(ctx) {
            Ok(()) => {
                self.templates = Some(templates_contract);
                proof {
                    if old(self)@.valid() {
                        law_settings_keep_valid(
                            old(self)@,
                            templates_contract,
                            templates_contract,
                            templates_contract,
                            None,
                            None,
                            templates_contract,
                        );
                    }
                }
                Ok(())
            },
            Err(f) => Err(f),
        }
    }

    /// Fails where no proposal can be made, whatever it says.
    fn require_proposable(&self, ctx: &Context, proposer: Address) -> (done: Result<
        u32,
        Failure<Refusal>,
    >)
        ensures
            match done {
                Ok(id) => self@.propose_refusal(*ctx, proposer) is None && id
                    == self@.proposal_count + 1,
                Err(f) => self@.propose_refusal(*ctx, proposer) == Some(f),
            },
    {
        if !ctx.has_auth(proposer) {
            return Err(Failure::Unauthorized);
        }
        if self.admin.is_none() {
            return Err(Failure::Error(Refusal::NotInitialized));
        }
        match self.proposal_count.checked_add(1) {
            Some(id) => Ok(id),
            None => Err(Failure::Error(Refusal::ProposalOverflow)),
        }
    }

    /// What has to be asked of other contracts before `action` can be proposed.
    pub fn proposal_queries(&self, ctx: &Context, proposer: Address, action: &ProposalAction) -> (q:
        Result<ProposalQueries, Failure<Refusal>>)
        ensures
            match q {
                Ok(q) => {
                    &&& self@.propose_refusal(*ctx, proposer) is None
                    &&& q.id == self@.proposal_count + 1
                    &&& self@.snapshot == Some(q.snapshot)
                    &&& q.template == (match (*action, self@.templates) {
                        (ProposalAction::ExecuteCall(target, function, args), Some(templates)) =>
                            Some((templates, target, function)),
                        _ => None,
                    })
                },
                Err(f) => if self@.propose_refusal(*ctx, proposer) is Some {
                    self@.propose_refusal(*ctx, proposer) == Some(f)
                } else {
                    self@.snapshot is None && f == Failure::Error(Refusal::SnapshotNotSet)
                },
            },
    {
        let id: u32 = match self.require_proposable(ctx, proposer) {
            Ok(id) => id,
            Err(f) => {
                return Err(f);
            },
        };
        let template: Option<(Address, Address, Symbol)> = match action {
            ProposalAction::ExecuteCall(target, function, _) => match self.templates {
                Some(templates) => Some((templates, *target, *function)),
                None => None,
            },
            _ => None,
        };
        match self.snapshot {
            Some(snapshot) => Ok(ProposalQueries { id, snapshot, template }),
            None => Err(Failure::Error(Refusal::SnapshotNotSet)),
        }
    }

    /// Makes a proposal and gives its number. `template_hash` is what the
    /// templates contract answered, `total_supply` what the snapshot contract
    /// did. A call with a template must have the arguments that it fixes.
    pub fn create_proposal(
        &mut self,
        ctx: &Context,
        proposer: Address,
        title: Vec<u8>,
        description_hash: Digest,
        action: ProposalAction,
        template_hash: Option<Digest>,
        total_supply: i128,
    ) -> (done: Result<u32, Failure<Refusal>>)
        ensures
            ({
                let s = old(self)@;
                let hashed = s.is_templated(action, template_hash);
                let args = action->ExecuteCall_2@;
                let refusal = if s.propose_refusal(*ctx, proposer) is Some {
                    s.propose_refusal(*ctx, proposer)
                } else if hashed && args.len() > MAX_HASHED_ARGS {
                    Some(Failure::Error(Refusal::BudgetExceeded))
                } else {
                    s.create_refusal(
                        *ctx,
                        proposer,
                        action,
                        digest_of(args_bytes(args)),
                        template_hash,
                    )
                };
                match done {
                    Ok(id) => refusal is None && id == s.proposal_count + 1 && final(self)@
                        == s.created(
                        *ctx,
                        proposer,
                        title,
                        description_hash,
                        action,
                        template_hash,
                        total_supply,
                    ),
                    Err(f) => refusal == Some(f) && final(self)@ == s,
                }
            }),
            old(self)@.valid() ==> final(self)@.valid(),
    {
        match self.require_proposable(ctx, proposer) {
            Ok(_) => {},
            Err(f) => {
                return Err(f);
            },
        }
        let mut args_hash: Digest = Digest { hi: 0, lo: 0 };
        if self.templates.is_some() && template_hash.is_some() {
            match &action {
                ProposalAction::ExecuteCall(_, _, args) => {
                    if args.len() > MAX_HASHED_ARGS {
                        return Err(Failure::Error(Refusal::BudgetExceeded));
                    }
                    args_hash = Self::compute_args_hash(args);
                },
                _ => {},
            }
        }
        self.create_hashed_proposal(
            ctx,
            proposer,
            title,
            description_hash,
            action,
            args_hash,
            template_hash,
            total_supply,
        )
    }

    /// Makes a proposal the digest of whose arguments is known. The digest
    /// matters only for a call with a template.
    pub fn create_hashed_proposal(
        &mut self,
        ctx: &Context,
        proposer: Address,
        title: Vec<u8>,
        description_hash: Digest,
        action: ProposalAction,
        args_hash: Digest,
        template_hash: Option<Digest>,
        total_supply: i128,
    ) -> (done: Result<u32, Failure<Refusal>>)
        ensures
            match done {
                Ok(id) => old(self)@.create_refusal(
                    *ctx,
                    proposer,
                    action,
                    args_hash,
                    template_hash,
                ) is None && id == old(self)@.proposal_count + 1 && final(self)@ == old(self)@.created(
                    *ctx,
                    proposer,
                    title,
                    description_hash,
                    action,
                    template_hash,
                    total_supply,
                ),
                Err(f) => old(self)@.create_refusal(
                    *ctx,
                    proposer,
                    action,
                    args_hash,
                    template_hash,
                ) == Some(f) && final(self)@ == old(self)@,
            },
            old(self)@.valid() ==> final(self)@.valid(),
    {
        let ghost (title0, action0) = (title, action);
        let id: u32 = match self.require_proposable(ctx, proposer) {
            Ok(id) => id,
            Err(f) => {
                return Err(f);
            },
        };
        let is_call: bool = match &action {
            ProposalAction::ExecuteCall(_, _, _) => true,
            _ => false,
        };
        let looked_up: bool = is_call && self.templates.is_some();
        let mut custom: bool = false;
        if looked_up {
            match template_hash {
                Some(expected) => {
                    if args_hash != expected {
                        return Err(Failure::Error(Refusal::TemplateMismatch));
                    }
                },
                None => {
                    custom = true;
                },
            }
        }
        if self.snapshot.is_none() {
            return Err(Failure::Error(Refusal::SnapshotNotSet));
        }
        let voting_ends_at: u64 = match ctx.now.checked_add(self.voting_period_secs) {
            Some(t) => t,
            None => {
                return Err(Failure::Error(Refusal::VotingEndOverflow));
            },
        };
        let proposal = Proposal {
            id,
            proposer,
            title,
            description_hash,
            action,
            status: ProposalStatus::Active,
            created_at: ctx.now,
            voting_ends_at,
            snapshot_ledger: ctx.sequence,
            total_supply_snapshot: total_supply,
            votes_for: 0,
            votes_against: 0,
        };
        if custom {
            self.custom.set(id, true);
        }
        self.proposal_count = id;
        self.proposals.set(id, proposal);
        self.effects.push(
            Effect::ProposalCreated {
                id,
                proposer,
                snapshot_ledger: ctx.sequence,
                voting_ends_at,
            },
        );
        proof {
            if old(self)@.valid() {
                law_create_keeps_valid(
                    old(self)@,
                    *ctx,
                    proposer,
                    title0,
                    description_hash,
                    action0,
                    args_hash,
                    template_hash,
                    total_supply,
                );
            }
        }
        Ok(id)
    }

    /// The snapshot contract that has to be asked for the voter's weight on a
    /// proposal, where a vote is open to it.
    pub fn vote_query(&self, ctx: &Context, voter: Address, proposal_id: u32) -> (snapshot: Result<
        Address,
        Failure<Refusal>,
    >)
        ensures
            match snapshot {
                Ok(a) => self@.ballot_refusal(*ctx, voter, proposal_id) is None
                    && self@.snapshot == Some(a),
                Err(f) => self@.ballot_refusal(*ctx, voter, proposal_id) == Some(f),
            },
    {
        if !ctx.has_auth(voter) {
            return Err(Failure::Unauthorized);
        }
        match self.proposals.get(&proposal_id) {
            None => {
                return Err(Failure::Error(Refusal::ProposalNotFound));
            },
            Some(proposal) => {
                match Self::require_active_proposal(ctx, proposal) {
                    Ok(()) => {},
                    Err(f) => {
                        return Err(f);
                    },
                }
            },
        }
        if self.votes.has(&(proposal_id, voter)) {
            return Err(Failure::Error(Refusal::AlreadyVoted));
        }
        match self.snapshot {
            Some(snapshot) => Ok(snapshot),
            None => Err(Failure::Error(Refusal::SnapshotNotSet)),
        }
    }

    /// Fails unless the proposal can be voted on now.
    fn require_active_proposal(ctx: &Context, proposal: &Proposal) -> (done: Result<
        (),
        Failure<Refusal>,
    >)
        ensures
            match done {
                Ok(()) => proposal.status == ProposalStatus::Active && ctx.now
                    < proposal.voting_ends_at,
                Err(f) => f == Failure::Error(
                    if proposal.status != ProposalStatus::Active {
                        Refusal::ProposalNotActive
                    } else {
                        Refusal::VotingPeriodEnded
                    },
                ) && (proposal.status != ProposalStatus::Active || ctx.now
                    >= proposal.voting_ends_at),
            },
    {
        if proposal.status != ProposalStatus::Active {
            return Err(Failure::Error(Refusal::ProposalNotActive));
        }
        if ctx.now >= proposal.voting_ends_at {
            return Err(Failure::Error(Refusal::VotingPeriodEnded));
        }
        Ok(())
    }

    /// Votes on a proposal, once per voter. `weight` is the voting power that
    /// the snapshot contract gives the voter.
    pub fn vote(
        &mut self,
        ctx: &Context,
        voter: Address,
        proposal_id: u32,
        support: bool,
        weight: i128,
    ) -> (done: Result<(), Failure<Refusal>>)
        ensures
            match done {
                Ok(()) => old(self)@.vote_refusal(*ctx, voter, proposal_id, support, weight) is None
                    && final(self)@ == old(self)@.voted(voter, proposal_id, support, weight),
                Err(f) => old(self)@.vote_refusal(*ctx, voter, proposal_id, support, weight)
                    == Some(f) && final(self)@ == old(self)@,
            },
            old(self)@.valid() ==> final(self)@.valid(),
    {
        match self.vote_query(ctx, voter, proposal_id) {
            Ok(_) => {},
            Err(f) => {
                return Err(f);
            },
        }
        if weight <= 0 {
            return Err(Failure::Error(Refusal::NoVotingPower));
        }
        let ghost before = self.proposals@;
        let mut proposal: Proposal = match self.proposals.remove(&proposal_id) {
            Some(p) => p,
            None => {
                return Err(Failure::Error(Refusal::ProposalNotFound));
            },
        };
        let tally: i128 = if support {
            proposal.votes_for
        } else {
            proposal.votes_against
        };
        match tally.checked_add(weight) {
            Some(sum) => {
                if support {
                    proposal.votes_for = sum;
                } else {
                    proposal.votes_against = sum;
                }
            },
            None => {
                self.proposals.set(proposal_id, proposal);
                assert(self.proposals@ =~= before);
                return Err(
                    Failure::Error(
                        if support {
                            Refusal::VotesForOverflow
                        } else {
                            Refusal::VotesAgainstOverflow
                        },
                    ),
                );
            },
        }
        self.votes.set((proposal_id, voter), support);
        self.vote_weights.set((proposal_id, voter), weight);
        self.proposals.set(proposal_id, proposal);
        proof {
            assert(self.proposals@ =~= before.insert(proposal_id, proposal));
        }
        self.effects.push(Effect::VoteCast { proposal_id, voter, support, weight });
        proof {
            if old(self)@.valid() {
                law_vote_keeps_valid(old(self)@, *ctx, voter, proposal_id, support, weight);
            }
        }
        Ok(())
    }

    /// Whether a proposal passes, or which product is out of range.
    fn decide(proposal: &Proposal, quorum_bps: u32) -> (passed: Result<bool, Refusal>)
        ensures
            ({
                let total = proposal.votes_for + proposal.votes_against;
                let supply = proposal.total_supply_snapshot;
                match passed {
                    Ok(b) => b == passes(*proposal, quorum_bps) && fits(total) && (supply > 0
                        ==> fits(total * FULL_BPS) && fits(supply * quorum_bps)),
                    Err(r) => if !fits(total) {
                        r == Refusal::VoteOverflow
                    } else if !fits(total * FULL_BPS) {
                        supply > 0 && r == Refusal::QuorumOverflow
                    } else {
                        supply > 0 && !fits(supply * quorum_bps) && r
                            == Refusal::QuorumThresholdOverflow
                    },
                }
            }),
    {
        let total_votes: i128 = match proposal.votes_for.checked_add(proposal.votes_against) {
            Some(t) => t,
            None => {
                return Err(Refusal::VoteOverflow);
            },
        };
        let met: bool = if proposal.total_supply_snapshot <= 0 {
            false
        } else {
            let share: i128 = match total_votes.checked_mul(FULL_BPS as i128) {
                Some(v) => v,
                None => {
                    return Err(Refusal::QuorumOverflow);
                },
            };
            let threshold: i128 = match proposal.total_supply_snapshot.checked_mul(
                quorum_bps as i128,
            ) {
                Some(v) => v,
                None => {
                    return Err(Refusal::QuorumThresholdOverflow);
                },
            };
            share >= threshold
        };
        Ok(met && proposal.votes_for > proposal.votes_against)
    }

    /// Carries out a proposal whose voting period is over: its action where it
    /// passed, its failure where it did not.
    pub fn execute_proposal(&mut self, ctx: &Context, proposal_id: u32) -> (done: Result<
        (),
        Failure<Refusal>,
    >)
        ensures
            match done {
                Ok(()) => old(self)@.execute_refusal(*ctx, proposal_id) is None && final(self)@
                    == old(self)@.executed(proposal_id),
                Err(f) => old(self)@.execute_refusal(*ctx, proposal_id) == Some(f) && final(self)@
                    == old(self)@,
            },
            old(self)@.valid() ==> final(self)@.valid(),
    {
        let quorum_bps: u32 = match self.custom.get(&proposal_id) {
            Some(true) => CUSTOM_PROPOSAL_QUORUM_BPS,
            _ => self.quorum_bps,
        };
        let passed: bool = match self.proposals.get(&proposal_id) {
            None => {
                return Err(Failure::Error(Refusal::ProposalNotFound));
            },
            Some(proposal) => {
                if proposal.status == ProposalStatus::Executed {
                    return Err(Failure::Error(Refusal::AlreadyExecuted));
                }
                if ctx.now < proposal.voting_ends_at {
                    return Err(Failure::Error(Refusal::VotingPeriodNotEnded));
                }
                if proposal.status == ProposalStatus::Cancelled || proposal.status
                    == ProposalStatus::Failed {
                    return Err(Failure::Error(Refusal::ProposalNotExecutable));
                }
                match Self::decide(proposal, quorum_bps) {
                    Ok(b) => b,
                    Err(r) => {
                        return Err(Failure::Error(r));
                    },
                }
            },
        };
        let ghost before = self.proposals@;
        let mut proposal: Proposal = match self.proposals.remove(&proposal_id) {
            Some(p) => p,
            None => {
                return Err(Failure::Error(Refusal::ProposalNotFound));
            },
        };
        if passed {
            self.apply_action(&proposal.action, proposal_id);
            proposal.status = ProposalStatus::Executed;
        } else {
            proposal.status = ProposalStatus::Failed;
        }
        self.proposals.set(proposal_id, proposal);
        proof {
            assert(self.proposals@ =~= before.insert(proposal_id, proposal));
        }
        if passed {
            self.effects.push(Effect::ProposalExecuted { proposal_id });
        }
        proof {
            if old(self)@.valid() {
                law_closing_keeps_valid(old(self)@, proposal_id);
            }
        }
        Ok(())
    }

    /// Puts an action into effect.
    fn apply_action(&mut self, action: &ProposalAction, proposal_id: u32)
        ensures
            final(self)@ == old(self)@.applied(*action, proposal_id),
    {
        match action {
            ProposalAction::UpdateFee(new_fee_bps) => {
                self.current_fee_bps = Some(*new_fee_bps);
            },
            ProposalAction::UpdateAutoRelease(new_delay) => {
                self.current_auto_release_secs = Some(*new_delay);
            },
            ProposalAction::AddAsset(asset) => {
                self.approved_assets.set(*asset, true);
            },
            ProposalAction::UpdateAdmin(new_admin) => {
                self.admin = Some(*new_admin);
            },
            ProposalAction::ExecuteCall(target, function, _) => {
                self.effects.push(
                    Effect::Call { proposal_id, target: *target, function: *function },
                );
            },
        }
    }

    /// Cancels a proposal that is not executed; for the admin.
    pub fn cancel_proposal(&mut self, ctx: &Context, proposal_id: u32) -> (done: Result<
        (),
        Failure<Refusal>,
    >)
        ensures
            match done {
                Ok(()) => old(self)@.cancel_refusal(*ctx, proposal_id) is None && final(self)@
                    == old(self)@.cancelled(proposal_id),
                Err(f) => old(self)@.cancel_refusal(*ctx, proposal_id) == Some(f) && final(self)@
                    == old(self)@,
            },
            old(self)@.valid() ==> final(self)@.valid(),
    {
        match self.require_admin(ctx) {
            Ok(()) => {},
            Err(f) => {
                return Err(f);
            },
        }
        match self.proposals.get(&proposal_id) {
            None => {
                return Err(Failure::Error(Refusal::ProposalNotFound));
            },
            Some(proposal) => {
                if proposal.status == ProposalStatus::Executed {
                    return Err(Failure::Error(Refusal::CannotCancelExecuted));
                }
            },
        }
        let ghost before = self.proposals@;
        match self.proposals.remove(&proposal_id) {
            Some(found) => {
                let mut proposal: Proposal = found;
                proposal.status = ProposalStatus::Cancelled;
                self.proposals.set(proposal_id, proposal);
                proof {
                    assert(self.proposals@ =~= before.insert(proposal_id, proposal));
                }
            },
            None => {},
        }
        proof {
            if old(self)@.valid() {
                law_closing_keeps_valid(old(self)@, proposal_id);
            }
        }
        Ok(())
    }

    /// The bytes of all arguments, each big-endian.
    pub fn encode_args(args: &Vec<u64>) -> (bytes: Vec<u8>)
        ensures
            bytes@ == args_bytes(args@),
    {
        let mut bytes: Vec<u8> = Vec::new();
        let n: usize = args.len();
        for i in 0..n
            invariant
                n == args@.len(),
                bytes@ == args_bytes(args@.take(i as int)),
        {
            let v: u64 = args[i];
            bytes.push((v / 0x100_0000_0000_0000) as u8);
            bytes.push((v / 0x1_0000_0000_0000 % 256) as u8);
            bytes.push((v / 0x100_0000_0000 % 256) as u8);
            bytes.push((v / 0x1_0000_0000 % 256) as u8);
            bytes.push((v / 0x100_0000 % 256) as u8);
            bytes.push((v / 0x1_0000 % 256) as u8);
            bytes.push((v / 0x100 % 256) as u8);
            bytes.push((v % 256) as u8);
            proof {
                let front = args@.take(i as int);
                let more = args@.take(i as int + 1);
                assert(more.drop_last() =~= front);
                assert(more.last() == v);
                assert(bytes@ =~= args_bytes(front) + be_bytes(v));
            }
        }
        assert(args@.take(n as int) =~= args@);
        bytes
    }

    /// The digest of the arguments of a call.
    pub fn compute_args_hash(args: &Vec<u64>) -> (digest: Digest)
        requires
            args.len() <= MAX_HASHED_ARGS,
        ensures
            digest == digest_of(args_bytes(args@)),
    {
        let bytes: Vec<u8> = Self::encode_args(args);
        proof {
            lemma_args_bytes_len(args@);
        }
        sha256(&bytes)
    }

    /// A proposal and its tally.
    pub fn get_proposal(&self, id: u32) -> (found: Result<&Proposal, Failure<Refusal>>)
        ensures
            match found {
                Ok(p) => self@.proposals.contains_key(id) && *p == self@.proposals[id],
                Err(f) => !self@.proposals.contains_key(id) && f == Failure::Error(
                    Refusal::ProposalNotFound,
                ),
            },
    {
        match self.proposals.get(&id) {
            Some(p) => Ok(p),
            None => Err(Failure::Error(Refusal::ProposalNotFound)),
        }
    }

    /// Whether the voter voted in favour; false also where it did not vote.
    pub fn get_vote(&self, id: u32, voter: Address) -> (support: bool)
        ensures
            support == (self@.votes.contains_key((id, voter)) && self@.votes[(id, voter)]),
    {
        match self.votes.get(&(id, voter)) {
            Some(support) => *support,
            None => false,
        }
    }

    /// The weight that the voter voted with; zero where it did not vote.
    pub fn get_vote_weight(&self, id: u32, voter: Address) -> (weight: i128)
        ensures
            weight == (if self@.vote_weights.contains_key((id, voter)) {
                self@.vote_weights[(id, voter)]
            } else {
                0
            }),
    {
        match self.vote_weights.get(&(id, voter)) {
            Some(weight) => *weight,
            None => 0,
        }
    }

    /// The governance token.
    pub fn token_address(&self) -> (token: Result<Address, Failure<Refusal>>)
        ensures
            match token {
                Ok(a) => self@.token == Some(a),
                Err(f) => self@.token is None && f == Failure::Error(Refusal::TokenNotSet),
            },
    {
        match self.token {
            Some(token) => Ok(token),
            None => Err(Failure::Error(Refusal::TokenNotSet)),
        }
    }
}

/// What a vote adds to one side of one proposal.
pub open spec fn weight_on(id: u32, support: bool, votes: Map<(u32, Address), bool>) -> spec_fn(
    (u32, Address),
    i128,
) -> int {
    |k: (u32, Address), weight: i128|
        if k.0 == id && votes[k] == support {
            weight as int
        } else {
            0
        }
}

impl GovernanceState {
    /// The weight of the recorded votes on one side of a proposal.
    pub open spec fn tally(self, id: u32, support: bool) -> int {
        sum_of(self.vote_weights, weight_on(id, support, self.votes))
    }

    /// What holds of the storage between calls: proposals are numbered from one
    /// up to the count and exist only once the contract is set up, every vote
    /// has its weight and its proposal, and the tallies of a proposal are the
    /// sums of the recorded weights.
    pub open spec fn valid(self) -> bool {
        &&& self.vote_weights.dom().finite()
        &&& self.votes.dom() == self.vote_weights.dom()
        &&& self.admin is None ==> self.proposal_count == 0
        &&& forall|id: u32| #[trigger]
            self.proposals.contains_key(id) ==> self.valid_proposal(id, self.proposals[id])
        &&& forall|k: (u32, Address)| #[trigger]
            self.vote_weights.contains_key(k) ==> self.proposals.contains_key(k.0)
                && self.vote_weights[k] > 0
        &&& forall|id: u32| #[trigger] self.custom.contains_key(id) ==> id <= self.proposal_count
    }

    pub open spec fn valid_proposal(self, id: u32, p: Proposal) -> bool {
        &&& p.id == id
        &&& 1 <= id <= self.proposal_count
        &&& p.status != ProposalStatus::Passed
        &&& p.votes_for == self.tally(id, true)
        &&& p.votes_against == self.tally(id, false)
    }

    /// The same votes and proposals, but for one proposal that keeps its number
    /// and its tallies, and whatever else.
    spec fn same_votes(self, t: GovernanceState, id: u32) -> bool {
        &&& self.proposals.contains_key(id)
        &&& t.vote_weights == self.vote_weights
        &&& t.votes == self.votes
        &&& t.proposal_count == self.proposal_count
        &&& t.custom == self.custom
        &&& self.admin is Some ==> t.admin is Some
        &&& t.proposals == self.proposals.insert(id, t.proposals[id])
        &&& t.proposals[id].id == self.proposals[id].id
        &&& t.proposals[id].votes_for == self.proposals[id].votes_for
        &&& t.proposals[id].votes_against == self.proposals[id].votes_against
        &&& t.proposals[id].status != ProposalStatus::Passed
    }
}

proof fn lemma_same_votes(s: GovernanceState, t: GovernanceState, id: u32)
    requires
        s.valid(),
        s.same_votes(t, id),
    ensures
        t.valid(),
{
    assert forall|j: u32| #[trigger] t.proposals.contains_key(j) implies t.valid_proposal(
        j,
        t.proposals[j],
    ) by {
        assert(s.proposals.contains_key(j));
        assert(s.valid_proposal(j, s.proposals[j]));
    }
    assert forall|k: (u32, Address)| #[trigger]
        t.vote_weights.contains_key(k) implies t.proposals.contains_key(k.0) && t.vote_weights[k]
        > 0 by {
        assert(s.vote_weights.contains_key(k));
    }
    assert forall|j: u32| #[trigger] t.custom.contains_key(j) implies j <= t.proposal_count by {
        assert(s.custom.contains_key(j));
    }
}

/// A contract that was just deployed is valid.
pub proof fn law_fresh_is_valid()
    ensures
        GovernanceState::fresh().valid(),
{
    let s = GovernanceState::fresh();
    assert(s.votes.dom() =~= s.vote_weights.dom());
}

/// Setting the contract up, and naming the timelock or the templates contract,
/// keep the storage valid.
pub proof fn law_settings_keep_valid(
    s: GovernanceState,
    admin: Address,
    mnt_token: Address,
    snapshot_contract: Address,
    voting_period_secs: Option<u64>,
    quorum_bps: Option<u32>,
    named: Address,
)
    requires
        s.valid(),
    ensures
        s.initialize_refusal(voting_period_secs, quorum_bps) is None ==> s.initialized(
            admin,
            mnt_token,
            snapshot_contract,
            voting_period_secs,
            quorum_bps,
        ).valid(),
        (GovernanceState { timelock: Some(named), ..s }).valid(),
        (GovernanceState { templates: Some(named), ..s }).valid(),
{
    let i = s.initialized(admin, mnt_token, snapshot_contract, voting_period_secs, quorum_bps);
    let a = GovernanceState { timelock: Some(named), ..s };
    let b = GovernanceState { templates: Some(named), ..s };
    if s.admin is None {
        lemma_same_ballots(s, i);
    }
    lemma_same_ballots(s, a);
    lemma_same_ballots(s, b);
}

proof fn lemma_same_ballots(s: GovernanceState, t: GovernanceState)
    requires
        s.valid(),
        t.votes == s.votes,
        t.vote_weights == s.vote_weights,
        t.proposals == s.proposals,
        t.proposal_count == s.proposal_count,
        t.custom == s.custom,
        s.admin is Some ==> t.admin is Some,
    ensures
        t.valid(),
{
    assert forall|j: u32| #[trigger] t.proposals.contains_key(j) implies t.valid_proposal(
        j,
        t.proposals[j],
    ) by {
        assert(s.valid_proposal(j, s.proposals[j]));
    }
}

proof fn lemma_no_votes(s: GovernanceState, id: u32, support: bool)
    requires
        s.vote_weights.dom().finite(),
        forall|k: (u32, Address)| #[trigger] s.vote_weights.contains_key(k) ==> k.0 != id,
    ensures
        s.tally(id, support) == 0,
{
    let f = weight_on(id, support, s.votes);
    let m = s.vote_weights;
    assert forall|k: (u32, Address)| m.contains_key(k) implies #[trigger] f(k, m[k]) * 1 <= 0 * f(
        k,
        m[k],
    ) by {}
    lemma_sum_scale(m, f, f, 0, 1);
    assert forall|k: (u32, Address)| m.contains_key(k) implies #[trigger] f(k, m[k]) >= 0 by {}
    lemma_sum_nonnegative(m, f);
}

/// A new proposal keeps the storage valid, takes a number that was free and
/// leaves the others as they are.
pub proof fn law_create_keeps_valid(
    s: GovernanceState,
    ctx: Context,
    proposer: Address,
    title: Vec<u8>,
    description_hash: Digest,
    action: ProposalAction,
    args_hash: Digest,
    template_hash: Option<Digest>,
    total_supply: i128,
)
    requires
        s.valid(),
        s.create_refusal(ctx, proposer, action, args_hash, template_hash) is None,
    ensures
        ({
            let t = s.created(
                ctx,
                proposer,
                title,
                description_hash,
                action,
                template_hash,
                total_supply,
            );
            &&& t.valid()
            &&& !s.proposals.contains_key(t.proposal_count)
            &&& t.proposals.remove(t.proposal_count) == s.proposals
        }),
{
    let t = s.created(
        ctx,
        proposer,
        title,
        description_hash,
        action,
        template_hash,
        total_supply,
    );
    let id = t.proposal_count;
    assert(!s.proposals.contains_key(id)) by {
        if s.proposals.contains_key(id) {
            assert(s.valid_proposal(id, s.proposals[id]));
        }
    }
    assert(t.proposals.remove(id) =~= s.proposals);
    assert forall|k: (u32, Address)| #[trigger] t.vote_weights.contains_key(k) implies k.0 != id
        && t.proposals.contains_key(k.0) && t.vote_weights[k] > 0 by {
        assert(s.vote_weights.contains_key(k));
    }
    lemma_no_votes(t, id, true);
    lemma_no_votes(t, id, false);
    assert forall|j: u32| #[trigger] t.proposals.contains_key(j) implies t.valid_proposal(
        j,
        t.proposals[j],
    ) by {
        if j != id {
            assert(s.proposals.contains_key(j));
            assert(s.valid_proposal(j, s.proposals[j]));
        }
    }
    assert forall|j: u32| #[trigger] t.custom.contains_key(j) implies j <= t.proposal_count by {
        if j != id {
            assert(s.custom.contains_key(j));
        }
    }
}

/// A vote keeps the storage valid: the tallies stay the sums of the recorded
/// weights.
pub proof fn law_vote_keeps_valid(
    s: GovernanceState,
    ctx: Context,
    voter: Address,
    id: u32,
    support: bool,
    weight: i128,
)
    requires
        s.valid(),
        s.vote_refusal(ctx, voter, id, support, weight) is None,
    ensures
        s.voted(voter, id, support, weight).valid(),
{
    let t = s.voted(voter, id, support, weight);
    let key = (id, voter);
    assert(t.votes.dom() =~= t.vote_weights.dom());
    assert(!s.vote_weights.contains_key(key));
    assert(s.valid_proposal(id, s.proposals[id]));
    assert forall|j: u32| #[trigger] t.proposals.contains_key(j) implies t.valid_proposal(
        j,
        t.proposals[j],
    ) by {
        assert(s.proposals.contains_key(j));
        assert(s.valid_proposal(j, s.proposals[j]));
        assert forall|side: bool| #[trigger]
            t.tally(j, side) == s.tally(j, side) + (if j == id && side == support {
                weight as int
            } else {
                0
            }) by {
            let m = s.vote_weights;
            let f = weight_on(j, side, s.votes);
            let g = weight_on(j, side, t.votes);
            assert forall|k: (u32, Address)| m.contains_key(k) implies #[trigger] f(k, m[k]) == g(
                k,
                m[k],
            ) by {}
            lemma_sum_same(m, f, g);
            lemma_sum_insert(m, g, key, weight);
        }
    }
    assert forall|k: (u32, Address)| #[trigger]
        t.vote_weights.contains_key(k) implies t.proposals.contains_key(k.0) && t.vote_weights[k]
        > 0 by {
        if k != key {
            assert(s.vote_weights.contains_key(k));
        }
    }
    assert forall|j: u32| #[trigger] t.custom.contains_key(j) implies j <= t.proposal_count by {
        assert(s.custom.contains_key(j));
    }
}

/// Execution and cancellation keep the storage valid.
pub proof fn law_closing_keeps_valid(s: GovernanceState, id: u32)
    requires
        s.valid(),
        s.proposals.contains_key(id),
    ensures
        s.executed(id).valid(),
        s.cancelled(id).valid(),
{
    lemma_same_votes(s, s.executed(id), id);
    lemma_same_votes(s, s.cancelled(id), id);
}

/// Whoever voted on a proposal cannot vote on it again: the second vote is
/// refused, and no call forgets the first.
pub proof fn law_one_vote_each(s: GovernanceState, voter: Address, id: u32)
    requires
        s.votes.contains_key((id, voter)),
    ensures
        forall|ctx: Context, support: bool, weight: i128| #[trigger]
            s.vote_refusal(ctx, voter, id, support, weight) is Some,
        forall|ctx: Context, support: bool, weight: i128|
            ctx.authorizes(voter) && s.proposals.contains_key(id) && s.proposals[id].status
                == ProposalStatus::Active && ctx.now < s.proposals[id].voting_ends_at
                ==> #[trigger] s.vote_refusal(ctx, voter, id, support, weight) == Some(
                Failure::<Refusal>::Error(Refusal::AlreadyVoted),
            ),
        forall|j: u32| #[trigger] s.executed(j).votes == s.votes,
        forall|j: u32| #[trigger] s.cancelled(j).votes == s.votes,
        forall|v: Address, j: u32, support: bool, weight: i128|
            (v, j) != (voter, id) ==> #[trigger] s.voted(v, j, support, weight).votes.contains_key(
                (id, voter),
            ) && s.voted(v, j, support, weight).votes[(id, voter)] == s.votes[(id, voter)],
        forall|
            ctx: Context,
            proposer: Address,
            title: Vec<u8>,
            description_hash: Digest,
            action: ProposalAction,
            template_hash: Option<Digest>,
            total_supply: i128,
        | #[trigger]
            s.created(
                ctx,
                proposer,
                title,
                description_hash,
                action,
                template_hash,
                total_supply,
            ).votes == s.votes,
{
}

/// An executed proposal is final; a failed or cancelled one is neither voted on
/// nor executed.
pub proof fn law_closed_stays_closed(s: GovernanceState, id: u32)
    requires
        s.proposals.contains_key(id),
        s.proposals[id].status != ProposalStatus::Active,
        s.valid(),
    ensures
        forall|ctx: Context, voter: Address, support: bool, weight: i128| #[trigger]
            s.vote_refusal(ctx, voter, id, support, weight) is Some,
        forall|ctx: Context| #[trigger] s.execute_refusal(ctx, id) is Some,
        s.proposals[id].status == ProposalStatus::Executed ==> forall|ctx: Context| #[trigger]
            s.cancel_refusal(ctx, id) is Some,
{
    assert(s.valid_proposal(id, s.proposals[id]));
}

/// The execution of an active proposal goes through the steps of its life: to
/// failure, or by way of passing to execution. So does the cancellation of an
/// active one.
pub proof fn law_status_steps(s: GovernanceState, id: u32)
    requires
        s.proposals.contains_key(id),
        s.proposals[id].status == ProposalStatus::Active,
    ensures
        ({
            let from = s.proposals[id].status;
            let to = s.executed(id).proposals[id].status;
            ||| to == ProposalStatus::Failed && from.may_become(to)
            ||| to == ProposalStatus::Executed && from.may_become(ProposalStatus::Passed)
                && ProposalStatus::Passed.may_become(to)
        }),
        s.proposals[id].status.may_become(s.cancelled(id).proposals[id].status),
{
}

/// A call for which there is no template is executed only with thirty percent
/// of the total supply voting.
pub proof fn law_custom_call_needs_more(s: GovernanceState, id: u32)
    requires
        s.proposals.contains_key(id),
        s.custom.contains_key(id),
        s.custom[id],
        s.executed(id).proposals[id].status == ProposalStatus::Executed,
    ensures
        s.proposals[id].total_supply_snapshot > 0,
        10 * (s.proposals[id].votes_for + s.proposals[id].votes_against) >= 3
            * s.proposals[id].total_supply_snapshot,
        s.proposals[id].votes_for > s.proposals[id].votes_against,
{
}

/// How an execution decides. The proposal is executed exactly where somebody holds
/// the token, the votes of both sides together reach the quorum's share of the
/// total supply, and more of them are in favour than against; otherwise it has
/// failed. The quorum is thirty percent for a call without a template, and the
/// configured one for anything else. Nothing else of the proposal changes, nor any
/// other proposal, nor the votes.
pub proof fn law_execution_decides(s: GovernanceState, id: u32)
    requires
        s.proposals.contains_key(id),
    ensures
        ({
            let t = s.executed(id);
            let p = s.proposals[id];
            let custom = s.custom.contains_key(id) && s.custom[id];
            let quorum = if custom {
                3_000int
            } else {
                s.quorum_bps as int
            };
            let passed = p.total_supply_snapshot > 0 && 10_000 * (p.votes_for + p.votes_against)
                >= p.total_supply_snapshot * quorum && p.votes_for > p.votes_against;
            &&& t.proposals.contains_key(id)
            &&& t.proposals[id].status == ProposalStatus::Executed <==> passed
            &&& t.proposals[id].status == ProposalStatus::Failed <==> !passed
            &&& t.proposals[id] == (Proposal { status: t.proposals[id].status, ..p })
            &&& forall|j: u32|
                j != id ==> (#[trigger] t.proposals.contains_key(j) == s.proposals.contains_key(j))
                    && t.proposals[j] == s.proposals[j]
            &&& t.votes == s.votes
            &&& t.vote_weights == s.vote_weights
            &&& t.custom == s.custom
            &&& t.proposal_count == s.proposal_count
        }),
{
    let p = s.proposals[id];
    let total = p.votes_for + p.votes_against;
    assert(total * FULL_BPS == 10_000 * total);
}

/// What an execution carries out: the action of a proposal that passes, and
/// nothing else; of one that fails, nothing at all.
pub proof fn law_execution_carries_out(s: GovernanceState, id: u32)
    requires
        s.proposals.contains_key(id),
    ensures
        ({
            let t = s.executed(id);
            let passed = t.proposals[id].status == ProposalStatus::Executed;
            let done = seq![Effect::ProposalExecuted { proposal_id: id }];
            let action = s.proposals[id].action;
            &&& t.token == s.token && t.snapshot == s.snapshot && t.timelock == s.timelock
            &&& t.templates == s.templates && t.quorum_bps == s.quorum_bps
            &&& t.voting_period_secs == s.voting_period_secs
            &&& t.current_fee_bps == (match action {
                ProposalAction::UpdateFee(fee) if passed => Some(fee),
                _ => s.current_fee_bps,
            })
            &&& t.current_auto_release_secs == (match action {
                ProposalAction::UpdateAutoRelease(secs) if passed => Some(secs),
                _ => s.current_auto_release_secs,
            })
            &&& t.approved_assets == (match action {
                ProposalAction::AddAsset(asset) if passed => s.approved_assets.insert(asset, true),
                _ => s.approved_assets,
            })
            &&& t.admin == (match action {
                ProposalAction::UpdateAdmin(admin) if passed => Some(admin),
                _ => s.admin,
            })
            &&& t.effects == (if !passed {
                s.effects
            } else {
                match action {
                    ProposalAction::ExecuteCall(target, function, args) => s.effects + seq![
                        Effect::Call { proposal_id: id, target, function },
                    ] + done,
                    _ => s.effects + done,
                }
            })
        }),
{
    let done = seq![Effect::ProposalExecuted { proposal_id: id }];
    let t = s.executed(id);
    match s.proposals[id].action {
        ProposalAction::ExecuteCall(target, function, args) => {
            let call = seq![Effect::Call { proposal_id: id, target, function }];
            assert(s.effects.push(Effect::Call { proposal_id: id, target, function }).push(
                Effect::ProposalExecuted { proposal_id: id },
            ) =~= s.effects + call + done);
        },
        _ => {
            assert(s.effects.push(Effect::ProposalExecuted { proposal_id: id }) =~= s.effects
                + done);
        },
    }
}

/// When an execution is open: for a proposal that exists and is neither executed,
/// failed nor cancelled, from the end of its voting period on, as long as the sums
/// stay in range. Each refusal has its reason.
pub proof fn law_execution_is_open(s: GovernanceState, ctx: Context, id: u32)
    ensures
        ({
            let p = s.proposals[id];
            let total = p.votes_for + p.votes_against;
            let quorum = if s.custom.contains_key(id) && s.custom[id] {
                3_000int
            } else {
                s.quorum_bps as int
            };
            let f = s.execute_refusal(ctx, id);
            let open = {
                &&& s.proposals.contains_key(id)
                &&& p.status == ProposalStatus::Active || p.status == ProposalStatus::Passed
                &&& ctx.now >= p.voting_ends_at
            };
            &&& f is None <==> open && i128::MIN <= total <= i128::MAX && (p.total_supply_snapshot
                > 0 ==> i128::MIN <= 10_000 * total <= i128::MAX && p.total_supply_snapshot * quorum
                <= i128::MAX)
            &&& f == Some(Failure::<Refusal>::Error(Refusal::ProposalNotFound))
                <==> !s.proposals.contains_key(id)
            &&& f == Some(Failure::<Refusal>::Error(Refusal::AlreadyExecuted))
                <==> s.proposals.contains_key(id) && p.status == ProposalStatus::Executed
            &&& f == Some(Failure::<Refusal>::Error(Refusal::VotingPeriodNotEnded))
                <==> s.proposals.contains_key(id) && p.status != ProposalStatus::Executed && ctx.now
                < p.voting_ends_at
            &&& f == Some(Failure::<Refusal>::Error(Refusal::ProposalNotExecutable))
                <==> s.proposals.contains_key(id) && (p.status == ProposalStatus::Failed || p.status
                == ProposalStatus::Cancelled) && ctx.now >= p.voting_ends_at
            &&& f != Some(Failure::<Refusal>::Unauthorized)
        }),
{
    let p = s.proposals[id];
    let total = p.votes_for + p.votes_against;
    let q = s.quorum_of(id);
    assert(total * FULL_BPS == 10_000 * total);
    assert(p.total_supply_snapshot > 0 ==> p.total_supply_snapshot * q >= 0) by (nonlinear_arith)
        requires
            q >= 0,
    ;
}

/// When a vote is open: to somebody who consents, has not voted on the proposal
/// and has voting power, on an active proposal, before its voting period ends.
pub proof fn law_vote_is_open(
    s: GovernanceState,
    ctx: Context,
    voter: Address,
    id: u32,
    support: bool,
    weight: i128,
)
    ensures
        ({
            let p = s.proposals[id];
            let side = if support {
                p.votes_for
            } else {
                p.votes_against
            };
            let f = s.vote_refusal(ctx, voter, id, support, weight);
            let signed = ctx.authorized@.contains(voter);
            let found = signed && s.proposals.contains_key(id);
            let active = found && p.status == ProposalStatus::Active;
            let during = active && ctx.now < p.voting_ends_at;
            let voted = s.votes.contains_key((id, voter));
            &&& f is None <==> during && !voted && s.snapshot is Some && weight > 0 && side + weight
                <= i128::MAX
            &&& f == Some(Failure::<Refusal>::Unauthorized) <==> !signed
            &&& f == Some(Failure::<Refusal>::Error(Refusal::ProposalNotFound)) <==> signed
                && !found
            &&& f == Some(Failure::<Refusal>::Error(Refusal::ProposalNotActive)) <==> found
                && !active
            &&& f == Some(Failure::<Refusal>::Error(Refusal::VotingPeriodEnded)) <==> active
                && !during
            &&& f == Some(Failure::<Refusal>::Error(Refusal::AlreadyVoted)) <==> during && voted
            &&& f == Some(Failure::<Refusal>::Error(Refusal::NoVotingPower)) <==> during && !voted
                && s.snapshot is Some && weight <= 0
        }),
{
}

/// What a vote does: the whole weight goes onto its side and onto no other, the
/// vote and its weight are remembered, and nothing else changes.
pub proof fn law_vote_counts_its_weight(
    s: GovernanceState,
    ctx: Context,
    voter: Address,
    id: u32,
    support: bool,
    weight: i128,
)
    requires
        s.vote_refusal(ctx, voter, id, support, weight) is None,
    ensures
        ({
            let t = s.voted(voter, id, support, weight);
            let (p, q) = (s.proposals[id], t.proposals[id]);
            &&& q.votes_for - p.votes_for == (if support {
                weight as int
            } else {
                0
            })
            &&& q.votes_against - p.votes_against == (if support {
                0
            } else {
                weight as int
            })
            &&& q == (Proposal { votes_for: q.votes_for, votes_against: q.votes_against, ..p })
            &&& t.votes == s.votes.insert((id, voter), support)
            &&& t.vote_weights == s.vote_weights.insert((id, voter), weight)
            &&& t.effects == s.effects + seq![
                Effect::VoteCast { proposal_id: id, voter, support, weight },
            ]
            &&& forall|j: u32|
                j != id ==> (#[trigger] t.proposals.contains_key(j) == s.proposals.contains_key(j))
                    && t.proposals[j] == s.proposals[j]
            &&& t == (GovernanceState {
                proposals: t.proposals,
                votes: t.votes,
                vote_weights: t.vote_weights,
                effects: t.effects,
                ..s
            })
        }),
{
    let t = s.voted(voter, id, support, weight);
    assert(t.effects =~= s.effects + seq![
        Effect::VoteCast { proposal_id: id, voter, support, weight },
    ]);
}

/// When a proposal can be made: by somebody who consents, once the contract is set
/// up. A call with a template must have arguments of the template's digest.
pub proof fn law_proposal_is_open(
    s: GovernanceState,
    ctx: Context,
    proposer: Address,
    action: ProposalAction,
    args_hash: Digest,
    template_hash: Option<Digest>,
)
    ensures
        ({
            let f = s.create_refusal(ctx, proposer, action, args_hash, template_hash);
            let signed = ctx.authorized@.contains(proposer);
            let ready = signed && s.admin is Some && s.proposal_count < u32::MAX;
            let is_call = match action {
                ProposalAction::ExecuteCall(target, function, args) => true,
                _ => false,
            };
            let mismatch = is_call && s.templates is Some && template_hash is Some && template_hash
                != Some(args_hash);
            &&& f is None <==> ready && !mismatch && s.snapshot is Some && ctx.now
                + s.voting_period_secs <= u64::MAX
            &&& f == Some(Failure::<Refusal>::Unauthorized) <==> !signed
            &&& f == Some(Failure::<Refusal>::Error(Refusal::NotInitialized)) <==> signed
                && s.admin is None
            &&& f == Some(Failure::<Refusal>::Error(Refusal::TemplateMismatch)) <==> ready
                && mismatch
            &&& f == Some(Failure::<Refusal>::Error(Refusal::VotingEndOverflow)) <==> ready
                && !mismatch && s.snapshot is Some && ctx.now + s.voting_period_secs > u64::MAX
        }),
{
}

/// What a new proposal is: active, without votes, under the next number, with the
/// snapshot's supply, open from now for the configured period. It is marked as
/// custom exactly where it is a call that the templates contract, if there is one,
/// knows no template of. Nothing else changes.
pub proof fn law_proposal_starts_active(
    s: GovernanceState,
    ctx: Context,
    proposer: Address,
    title: Vec<u8>,
    description_hash: Digest,
    action: ProposalAction,
    args_hash: Digest,
    template_hash: Option<Digest>,
    total_supply: i128,
)
    requires
        s.create_refusal(ctx, proposer, action, args_hash, template_hash) is None,
    ensures
        ({
            let t = s.created(
                ctx,
                proposer,
                title,
                description_hash,
                action,
                template_hash,
                total_supply,
            );
            let id = t.proposal_count;
            let p = t.proposals[id];
            let is_call = match action {
                ProposalAction::ExecuteCall(target, function, args) => true,
                _ => false,
            };
            let custom = is_call && s.templates is Some && template_hash is None;
            &&& id == s.proposal_count + 1
            &&& t.proposals.contains_key(id)
            &&& p.id == id && p.proposer == proposer && p.title == title
            &&& p.description_hash == description_hash && p.action == action
            &&& p.status == ProposalStatus::Active
            &&& p.created_at == ctx.now
            &&& p.voting_ends_at - p.created_at == s.voting_period_secs
            &&& p.snapshot_ledger == ctx.sequence
            &&& p.total_supply_snapshot == total_supply
            &&& p.votes_for == 0 && p.votes_against == 0
            &&& t.custom == (if custom {
                s.custom.insert(id, true)
            } else {
                s.custom
            })
            &&& t.effects == s.effects + seq![
                Effect::ProposalCreated {
                    id,
                    proposer,
                    snapshot_ledger: ctx.sequence,
                    voting_ends_at: p.voting_ends_at,
                },
            ]
            &&& forall|j: u32|
                j != id ==> (#[trigger] t.proposals.contains_key(j) == s.proposals.contains_key(j))
                    && t.proposals[j] == s.proposals[j]
            &&& t == (GovernanceState {
                proposal_count: id,
                proposals: t.proposals,
                custom: t.custom,
                effects: t.effects,
                ..s
            })
        }),
{
    let t = s.created(
        ctx,
        proposer,
        title,
        description_hash,
        action,
        template_hash,
        total_supply,
    );
    let id = t.proposal_count;
    assert(t.effects =~= s.effects + seq![
        Effect::ProposalCreated {
            id,
            proposer,
            snapshot_ledger: ctx.sequence,
            voting_ends_at: t.proposals[id].voting_ends_at,
        },
    ]);
}

/// The admin, and nobody else, cancels any proposal that is not executed; nothing
/// but its status changes.
pub proof fn law_cancellation(s: GovernanceState, ctx: Context, id: u32)
    ensures
        ({
            let f = s.cancel_refusal(ctx, id);
            let t = s.cancelled(id);
            &&& f is None <==> s.admin is Some && ctx.authorized@.contains(s.admin->0)
                && s.proposals.contains_key(id) && s.proposals[id].status
                != ProposalStatus::Executed
            &&& f == Some(Failure::<Refusal>::Error(Refusal::NotInitialized)) <==> s.admin is None
            &&& f == Some(Failure::<Refusal>::Unauthorized) <==> s.admin is Some
                && !ctx.authorized@.contains(s.admin->0)
            &&& t == (GovernanceState {
                proposals: s.proposals.insert(
                    id,
                    Proposal { status: ProposalStatus::Cancelled, ..s.proposals[id] },
                ),
                ..s
            })
            &&& s.admin_refusal(ctx) is None <==> s.admin is Some && ctx.authorized@.contains(
                s.admin->0,
            )
        }),
{
}

/// The contract is set up once, with a period that is not zero and a quorum of at
/// least one and at most ten thousand basis points: those given, or seven days and
/// ten percent.
pub proof fn law_setting_up(
    s: GovernanceState,
    admin: Address,
    mnt_token: Address,
    snapshot_contract: Address,
    voting_period_secs: Option<u64>,
    quorum_bps: Option<u32>,
)
    ensures
        ({
            let f = s.initialize_refusal(voting_period_secs, quorum_bps);
            let t = s.initialized(
                admin,
                mnt_token,
                snapshot_contract,
                voting_period_secs,
                quorum_bps,
            );
            &&& f is None <==> s.admin is None && voting_period_secs != Some(0u64) && (
            quorum_bps is Some ==> 1 <= quorum_bps->0 <= 10_000)
            &&& t.admin == Some(admin) && t.token == Some(mnt_token) && t.snapshot == Some(
                snapshot_contract,
            )
            &&& voting_period_secs is Some ==> Some(t.voting_period_secs) == voting_period_secs
            &&& voting_period_secs is None ==> t.voting_period_secs == 7 * 24 * 60 * 60
            &&& quorum_bps is Some ==> Some(t.quorum_bps) == quorum_bps
            &&& quorum_bps is None ==> t.quorum_bps == 1_000
            &&& t == (GovernanceState {
                admin: t.admin,
                token: t.token,
                snapshot: t.snapshot,
                voting_period_secs: t.voting_period_secs,
                quorum_bps: t.quorum_bps,
                proposal_count: 0,
                ..s
            })
        }),
{
}

/// The bytes of the arguments are the arguments: eight to each, in order, the most
/// significant first, so that the arguments can be read back.
pub proof fn law_args_bytes(args: Seq<u64>)
    ensures
        args_bytes(args).len() == 8 * args.len(),
        forall|i: int|
            0 <= i < args.len() ==> {
                let b = args_bytes(args);
                &&& (#[trigger] args[i]) == b[8 * i] * 0x100_0000_0000_0000 + b[8 * i + 1]
                    * 0x1_0000_0000_0000 + b[8 * i + 2] * 0x100_0000_0000 + b[8 * i + 3]
                    * 0x1_0000_0000 + b[8 * i + 4] * 0x100_0000 + b[8 * i + 5] * 0x1_0000 + b[8 * i
                    + 6] * 0x100 + b[8 * i + 7]
            },
    decreases args.len(),
{
    lemma_args_bytes_len(args);
    if args.len() > 0 {
        let front = args.drop_last();
        law_args_bytes(front);
        lemma_args_bytes_len(front);
        let n = front.len() as int;
        let v = args.last();
        let b = args_bytes(args);
        assert forall|i: int| 0 <= i < args.len() implies {
            &&& (#[trigger] args[i]) == b[8 * i] * 0x100_0000_0000_0000 + b[8 * i + 1]
                * 0x1_0000_0000_0000 + b[8 * i + 2] * 0x100_0000_0000 + b[8 * i + 3] * 0x1_0000_0000
                + b[8 * i + 4] * 0x100_0000 + b[8 * i + 5] * 0x1_0000 + b[8 * i + 6] * 0x100 + b[8
                * i + 7]
        } by {
            if i < n {
                assert(front[i] == args[i]);
            } else {
                assert(b.subrange(8 * n, 8 * n + 8) =~= be_bytes(v));
                lemma_be_bytes(v);
                assert(forall|k: int| 0 <= k < 8 ==> #[trigger] b[8 * n + k] == be_bytes(v)[k]);
                assert(b[8 * n + 0] == be_bytes(v)[0]);
            }
        }
    }
}

proof fn lemma_be_bytes(v: u64)
    ensures
        be_bytes(v).len() == 8,
        v == be_bytes(v)[0] * 0x100_0000_0000_0000 + be_bytes(v)[1] * 0x1_0000_0000_0000 + be_bytes(
            v,
        )[2] * 0x100_0000_0000 + be_bytes(v)[3] * 0x1_0000_0000 + be_bytes(v)[4] * 0x100_0000
            + be_bytes(v)[5] * 0x1_0000 + be_bytes(v)[6] * 0x100 + be_bytes(v)[7],
{
    let v = v as int;
    let q1 = v / 0x100;
    let q2 = v / 0x1_0000;
    let q3 = v / 0x100_0000;
    let q4 = v / 0x1_0000_0000;
    let q5 = v / 0x100_0000_0000;
    let q6 = v / 0x1_0000_0000_0000;
    let q7 = v / 0x100_0000_0000_0000;
    assert(q1 == v / 256);
    assert(q2 == q1 / 256);
    assert(q3 == q2 / 256);
    assert(q4 == q3 / 256);
    assert(q5 == q4 / 256);
    assert(q6 == q5 / 256);
    assert(q7 == q6 / 256);
    assert(v == 256 * q1 + v % 256);
    assert(q1 == 256 * q2 + q1 % 256);
    assert(q2 == 256 * q3 + q2 % 256);
    assert(q3 == 256 * q4 + q3 % 256);
    assert(q4 == 256 * q5 + q4 % 256);
    assert(q5 == 256 * q6 + q5 % 256);
    assert(q6 == 256 * q7 + q6 % 256);
    assert(q7 < 256);
}

} // verus!
