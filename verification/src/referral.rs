//! Referrals: who brought whom to the platform, the rewards for it, and a
//! leaderboard of referrers for every epoch.

use crate::fixed_point::fits;
use crate::lists::{copied, lemma_seqs_empty, lemma_seqs_insert, seqs};
use crate::sums::{lemma_sum_empty, lemma_sum_insert, sum_of};
use crate::table::{at_or, Table};
use crate::types::{Address, Context, Failure};
use vstd::prelude::*;

verus! {

/// Reward for a mentor: 50 tokens of seven decimals.
pub const REWARD_MENTOR: i128 = 500_000_000;

/// Reward for a learner: 20 tokens.
pub const REWARD_LEARNER: i128 = 200_000_000;

/// Bonus for each of the top referrers of an epoch: 100 tokens.
pub const BONUS_MNT: i128 = 1_000_000_000;

/// Length of an epoch: 30 days.
pub const LEADERBOARD_EPOCH_SECS: u64 = 2_592_000;

/// What the first of a leaderboard multiplies rewards by.
pub const MAX_MULTIPLIER: u32 = 10;

/// How many referrers of an epoch get the bonus.
pub const TOP_REFERRER_BONUS_COUNT: usize = 3;

/// How many referrers a leaderboard holds.
pub const LEADERBOARD_MAX_SIZE: usize = 10;

/// As what a user came to the platform.
#[derive(Clone, Copy, Debug, PartialEq, Eq, Structural)]
pub enum RefereeType {
    Mentor,
    Learner,
}

/// By whom a user was referred.
#[derive(Clone, Copy, Debug, PartialEq, Eq, Structural)]
pub struct ReferralInfo {
    pub referrer: Address,
    pub referee_type: RefereeType,
    pub completed: bool,
}

/// What is published of a new referral.
#[derive(Clone, Copy, Debug, PartialEq, Eq, Structural)]
pub struct ReferralRegisteredEventData {
    pub referee: Address,
    pub is_mentor: bool,
}

/// What is published of a claim.
#[derive(Clone, Copy, Debug, PartialEq, Eq, Structural)]
pub struct RewardClaimedEventData {
    pub amount: i128,
}

/// What a call asks of the ledger, in order.
#[derive(Clone, Copy, Debug, PartialEq, Eq, Structural)]
pub enum Effect {
    Mint { token: Address, to: Address, amount: i128 },
    Registered { referrer: Address, data: ReferralRegisteredEventData },
    RewardClaimed { referrer: Address, data: RewardClaimedEventData },
}

/// Why the contract stops a call.
#[derive(Clone, Copy, Debug, PartialEq, Eq, Structural)]
pub enum Refusal {
    AlreadyInitialized,
    NotInitialized,
    SelfReferral,
    AlreadyRegistered,
    OutOfRange,
    ReferralNotFound,
    AlreadyCompleted,
    NoRewards,
    RewardOverflow,
    TokenNotSet,
    NoPreviousEpoch,
    BonusDistributed,
}

impl Refusal {
    /// The reason in words.
    pub open spec fn text(self) -> Seq<char> {
        match self {
            Refusal::AlreadyInitialized => "Already initialized"@,
            Refusal::NotInitialized => "Not initialized"@,
            Refusal::SelfReferral => "Self-referral not allowed"@,
            Refusal::AlreadyRegistered => "Referee already registered"@,
            Refusal::OutOfRange => "arithmetic out of range"@,
            Refusal::ReferralNotFound => "Referral not found"@,
            Refusal::AlreadyCompleted => "Already completed"@,
            Refusal::NoRewards => "No rewards to claim"@,
            Refusal::RewardOverflow => "reward overflow"@,
            Refusal::TokenNotSet => "Token not set"@,
            Refusal::NoPreviousEpoch => "no previous epoch"@,
            Refusal::BonusDistributed => "bonus already distributed"@,
        }
    }

    /// The reason in words.
    pub fn message(&self) -> (m: &'static str)
        ensures
            m@ == self.text(),
    {
        match self {
            Refusal::AlreadyInitialized => "Already initialized",
            Refusal::NotInitialized => "Not initialized",
            Refusal::SelfReferral => "Self-referral not allowed",
            Refusal::AlreadyRegistered => "Referee already registered",
            Refusal::OutOfRange => "arithmetic out of range",
            Refusal::ReferralNotFound => "Referral not found",
            Refusal::AlreadyCompleted => "Already completed",
            Refusal::NoRewards => "No rewards to claim",
            Refusal::RewardOverflow => "reward overflow",
            Refusal::TokenNotSet => "Token not set",
            Refusal::NoPreviousEpoch => "no previous epoch",
            Refusal::BonusDistributed => "bonus already distributed",
        }
    }
}

/// The place of `who` on the board; its length where it is not there.
pub open spec fn rank(board: Seq<(Address, u32)>, who: Address) -> int
    decreases board.len(),
{
    if board.len() == 0 {
        0
    } else if board[0].0 == who {
        0
    } else {
        1 + rank(board.skip(1), who)
    }
}

/// The entry goes behind all that count at least as much.
pub open spec fn insert_ranked(board: Seq<(Address, u32)>, entry: (Address, u32)) -> Seq<
    (Address, u32),
>
    decreases board.len(),
{
    if board.len() == 0 || board.last().1 >= entry.1 {
        board.push(entry)
    } else {
        insert_ranked(board.drop_last(), entry).push(board.last())
    }
}

/// The entries by falling count; those of one count stay in their order.
pub open spec fn ranked(entries: Seq<(Address, u32)>) -> Seq<(Address, u32)>
    decreases entries.len(),
{
    if entries.len() == 0 {
        entries
    } else {
        insert_ranked(ranked(entries.drop_last()), entries.last())
    }
}

/// Counts never rise along the board.
pub open spec fn falling(board: Seq<(Address, u32)>) -> bool {
    forall|i: int, j: int| 0 <= i <= j < board.len() ==> (#[trigger] board[i]).1 >= (
    #[trigger] board[j]).1
}

/// Nobody stands on the board twice.
pub open spec fn distinct(board: Seq<(Address, u32)>) -> bool {
    forall|i: int, j: int| 0 <= i < j < board.len() ==> (#[trigger] board[i]).0 != (
    #[trigger] board[j]).0
}

/// `who` stands on the board.
pub open spec fn on_board(board: Seq<(Address, u32)>, who: Address) -> bool {
    exists|i: int| 0 <= i < board.len() && (#[trigger] board[i]).0 == who
}

/// The board once `who` has reached `count`: its entry is renewed, or appended
/// while there is room, or takes the place of the last one that it beats.
pub open spec fn recorded(board: Seq<(Address, u32)>, who: Address, count: u32) -> Seq<
    (Address, u32),
> {
    let i = rank(board, who);
    ranked(
        if i < board.len() {
            board.update(i, (who, count))
        } else if board.len() < LEADERBOARD_MAX_SIZE {
            board.push((who, count))
        } else if count > board.last().1 {
            board.update(board.len() - 1, (who, count))
        } else {
            board
        },
    )
}

/// What `who` multiplies rewards by: the higher on the board, the more. A
/// single referral that nobody competes with earns no more than the reward.
pub open spec fn multiplier_of(board: Seq<(Address, u32)>, who: Address) -> u32 {
    let i = rank(board, who);
    if i >= board.len() || (board.len() == 1 && board[0].1 == 1) {
        1
    } else if i == 0 {
        MAX_MULTIPLIER
    } else if i == 1 {
        5
    } else if i == 2 {
        3
    } else {
        2
    }
}

/// The epoch of a ledger time.
pub open spec fn epoch_of(now: u64) -> u32 {
    (now / LEADERBOARD_EPOCH_SECS) as u32
}

/// The reward for bringing a user of this type.
pub open spec fn reward_of(referee_type: RefereeType) -> i128 {
    match referee_type {
        RefereeType::Mentor => REWARD_MENTOR,
        RefereeType::Learner => REWARD_LEARNER,
    }
}

/// The contract's storage as a mathematical value.
#[verifier::ext_equal]
pub struct ReferralState {
    pub admin: Option<Address>,
    pub mnt_token: Option<Address>,
    pub referrals: Map<Address, ReferralInfo>,
    pub referrer_counts: Map<Address, u32>,
    pub pending_rewards: Map<Address, i128>,
    pub epoch_counts: Map<(u32, Address), u32>,
    pub leaderboards: Map<u32, Seq<(Address, u32)>>,
    pub bonus_distributed: Map<u32, bool>,
    pub effects: Seq<Effect>,
}

/// The referral contract.
pub struct ReferralContract {
    pub admin: Option<Address>,
    /// The token in which rewards are minted.
    pub mnt_token: Option<Address>,
    /// By referee.
    pub referrals: Table<Address, ReferralInfo>,
    /// Referrals of all time, by referrer.
    pub referrer_counts: Table<Address, u32>,
    /// Rewards before the multiplier, by referrer.
    pub pending_rewards: Table<Address, i128>,
    /// Referrals in an epoch, by referrer.
    pub epoch_counts: Table<(u32, Address), u32>,
    pub leaderboards: Table<u32, Vec<(Address, u32)>>,
    pub bonus_distributed: Table<u32, bool>,
    /// What the calls so far ask of the ledger.
    pub effects: Vec<Effect>,
}

impl View for ReferralContract {
    type V = ReferralState;

    open spec fn view(&self) -> ReferralState {
        ReferralState {
            admin: self.admin,
            mnt_token: self.mnt_token,
            referrals: self.referrals@,
            referrer_counts: self.referrer_counts@,
            pending_rewards: self.pending_rewards@,
            epoch_counts: self.epoch_counts@,
            leaderboards: seqs(self.leaderboards@),
            bonus_distributed: self.bonus_distributed@,
            effects: self.effects@,
        }
    }
}

impl ReferralState {
    /// The storage of a contract that was just deployed.
    pub open spec fn fresh() -> ReferralState {
        ReferralState {
            admin: None,
            mnt_token: None,
            referrals: Map::empty(),
            referrer_counts: Map::empty(),
            pending_rewards: Map::empty(),
            epoch_counts: Map::empty(),
            leaderboards: Map::empty(),
            bonus_distributed: Map::empty(),
            effects: Seq::empty(),
        }
    }

    pub open spec fn initialize_refusal(self) -> Option<Failure<Refusal>> {
        if self.admin is Some {
            Some(Failure::Error(Refusal::AlreadyInitialized))
        } else {
            None
        }
    }

    pub open spec fn initialized(self, admin: Address, mnt_token: Address) -> ReferralState {
        ReferralState { admin: Some(admin), mnt_token: Some(mnt_token), ..self }
    }

    /// Only the admin may act.
    pub open spec fn admin_refusal(self, ctx: Context) -> Option<Failure<Refusal>> {
        if self.admin is None {
            Some(Failure::Error(Refusal::NotInitialized))
        } else if !ctx.authorizes(self.admin->0) {
            Some(Failure::Unauthorized)
        } else {
            None
        }
    }

    /// The leaderboard of an epoch, empty at first.
    pub open spec fn board(self, epoch: u32) -> Seq<(Address, u32)> {
        at_or(self.leaderboards, epoch, Seq::empty())
    }

    pub open spec fn register_refusal(
        self,
        ctx: Context,
        referrer: Address,
        referee: Address,
    ) -> Option<Failure<Refusal>> {
        let early = self.admin_refusal(ctx);
        if early is Some {
            early
        } else if referrer == referee {
            Some(Failure::Error(Refusal::SelfReferral))
        } else if self.referrals.contains_key(referee) {
            Some(Failure::Error(Refusal::AlreadyRegistered))
        } else if at_or(self.referrer_counts, referrer, 0) == u32::MAX || at_or(
            self.epoch_counts,
            (epoch_of(ctx.now), referrer),
            0,
        ) == u32::MAX {
            Some(Failure::Error(Refusal::OutOfRange))
        } else {
            None
        }
    }

    /// The referrer has one referral more in the epoch, and the leaderboard shows
    /// it.
    pub open spec fn with_epoch_referral(self, epoch: u32, referrer: Address) -> ReferralState {
        let count = (at_or(self.epoch_counts, (epoch, referrer), 0) + 1) as u32;
        ReferralState {
            epoch_counts: self.epoch_counts.insert((epoch, referrer), count),
            leaderboards: self.leaderboards.insert(
                epoch,
                recorded(self.board(epoch), referrer, count),
            ),
            ..self
        }
    }

    /// The referral is remembered, and counts for the referrer: of all time, in
    /// this epoch and on its leaderboard.
    pub open spec fn registered(
        self,
        ctx: Context,
        referrer: Address,
        referee: Address,
        is_mentor: bool,
    ) -> ReferralState {
        let counted = self.with_epoch_referral(epoch_of(ctx.now), referrer);
        ReferralState {
            referrals: self.referrals.insert(
                referee,
                ReferralInfo {
                    referrer,
                    referee_type: if is_mentor {
                        RefereeType::Mentor
                    } else {
                        RefereeType::Learner
                    },
                    completed: false,
                },
            ),
            referrer_counts: self.referrer_counts.insert(
                referrer,
                (at_or(self.referrer_counts, referrer, 0) + 1) as u32,
            ),
            effects: self.effects.push(
                Effect::Registered {
                    referrer,
                    data: ReferralRegisteredEventData { referee, is_mentor },
                },
            ),
            ..counted
        }
    }

    pub open spec fn fulfill_refusal(self, ctx: Context, referee: Address) -> Option<
        Failure<Refusal>,
    > {
        let early = self.admin_refusal(ctx);
        let info = self.referrals[referee];
        if early is Some {
            early
        } else if !self.referrals.contains_key(referee) {
            Some(Failure::Error(Refusal::ReferralNotFound))
        } else if info.completed {
            Some(Failure::Error(Refusal::AlreadyCompleted))
        } else if !fits(
            at_or(self.pending_rewards, info.referrer, 0) + reward_of(info.referee_type),
        ) {
            Some(Failure::Error(Refusal::OutOfRange))
        } else {
            None
        }
    }

    /// The referral is completed, and its reward is pending.
    pub open spec fn fulfilled(self, referee: Address) -> ReferralState {
        let info = self.referrals[referee];
        ReferralState {
            referrals: self.referrals.insert(referee, ReferralInfo { completed: true, ..info }),
            pending_rewards: self.pending_rewards.insert(
                info.referrer,
                (at_or(self.pending_rewards, info.referrer, 0) + reward_of(
                    info.referee_type,
                )) as i128,
            ),
            ..self
        }
    }

    /// What a claim pays now: the pending rewards times the multiplier.
    pub open spec fn claim_total(self, ctx: Context, referrer: Address) -> int {
        at_or(self.pending_rewards, referrer, 0) * multiplier_of(
            self.board(epoch_of(ctx.now)),
            referrer,
        )
    }

    pub open spec fn claim_refusal(self, ctx: Context, referrer: Address) -> Option<
        Failure<Refusal>,
    > {
        if !ctx.authorizes(referrer) {
            Some(Failure::Unauthorized)
        } else if at_or(self.pending_rewards, referrer, 0) <= 0 {
            Some(Failure::Error(Refusal::NoRewards))
        } else if !fits(self.claim_total(ctx, referrer)) {
            Some(Failure::Error(Refusal::RewardOverflow))
        } else if self.mnt_token is None {
            Some(Failure::Error(Refusal::TokenNotSet))
        } else {
            None
        }
    }

    pub open spec fn claimed(self, ctx: Context, referrer: Address) -> ReferralState {
        let total = self.claim_total(ctx, referrer) as i128;
        ReferralState {
            pending_rewards: self.pending_rewards.insert(referrer, 0),
            effects: self.effects.push(
                Effect::Mint { token: self.mnt_token->0, to: referrer, amount: total },
            ).push(
                Effect::RewardClaimed { referrer, data: RewardClaimedEventData { amount: total } },
            ),
            ..self
        }
    }

    pub open spec fn bonus_refusal(self, ctx: Context) -> Option<Failure<Refusal>> {
        let early = self.admin_refusal(ctx);
        let epoch = epoch_of(ctx.now);
        if early is Some {
            early
        } else if epoch == 0 {
            Some(Failure::Error(Refusal::NoPreviousEpoch))
        } else if at_or(self.bonus_distributed, (epoch - 1) as u32, false) {
            Some(Failure::Error(Refusal::BonusDistributed))
        } else if self.mnt_token is None {
            Some(Failure::Error(Refusal::TokenNotSet))
        } else {
            None
        }
    }

    /// The bonuses of a board: one for each of its first three.
    pub open spec fn bonuses(token: Address, board: Seq<(Address, u32)>) -> Seq<Effect> {
        let top = if board.len() < TOP_REFERRER_BONUS_COUNT {
            board
        } else {
            board.take(TOP_REFERRER_BONUS_COUNT as int)
        };
        top.map_values(
            |entry: (Address, u32)| Effect::Mint { token, to: entry.0, amount: BONUS_MNT },
        )
    }

    /// The top referrers of the epoch before get their bonus.
    pub open spec fn bonus_paid(self, ctx: Context) -> ReferralState {
        let before = (epoch_of(ctx.now) - 1) as u32;
        ReferralState {
            bonus_distributed: self.bonus_distributed.insert(before, true),
            effects: self.effects + Self::bonuses(self.mnt_token->0, self.board(before)),
            ..self
        }
    }
}

proof fn lemma_rank_bounds(board: Seq<(Address, u32)>, who: Address)
    ensures
        0 <= rank(board, who) <= board.len(),
        rank(board, who) < board.len() ==> board[rank(board, who)].0 == who,
        forall|i: int| 0 <= i < rank(board, who) ==> (#[trigger] board[i]).0 != who,
        on_board(board, who) <==> rank(board, who) < board.len(),
    decreases board.len(),
{
    if board.len() > 0 && board[0].0 != who {
        let rest = board.skip(1);
        lemma_rank_bounds(rest, who);
        assert forall|i: int| 0 <= i < rank(board, who) implies (#[trigger] board[i]).0 != who by {
            if i > 0 {
                assert(rest[i - 1] == board[i]);
            }
        }
    }
    if on_board(board, who) {
        let i = choose|i: int| 0 <= i < board.len() && (#[trigger] board[i]).0 == who;
        assert(board[i].0 == who);
    }
}

/// The place of `who` on the board.
fn find(board: &Vec<(Address, u32)>, who: Address) -> (at: Option<usize>)
    ensures
        match at {
            Some(i) => i == rank(board@, who) && i < board@.len(),
            None => rank(board@, who) == board@.len(),
        },
{
    proof {
        lemma_rank_bounds(board@, who);
    }
    let n: usize = board.len();
    for i in 0..n
        invariant
            n == board@.len(),
            forall|j: int| 0 <= j < i ==> (#[trigger] board@[j]).0 != who,
            0 <= rank(board@, who) <= board@.len(),
            rank(board@, who) < board@.len() ==> board@[rank(board@, who)].0 == who,
            forall|j: int| 0 <= j < rank(board@, who) ==> (#[trigger] board@[j]).0 != who,
    {
        if board[i].0 == who {
            return Some(i);
        }
    }
    None
}

/// Two insertions of different counts commute.
proof fn lemma_insert_commutes(
    board: Seq<(Address, u32)>,
    low: (Address, u32),
    high: (Address, u32),
)
    requires
        low.1 < high.1,
    ensures
        insert_ranked(insert_ranked(board, low), high) == insert_ranked(
            insert_ranked(board, high),
            low,
        ),
    decreases board.len(),
{
    let a = insert_ranked(board, low);
    let b = insert_ranked(board, high);
    if board.len() == 0 {
        assert(a.drop_last() =~= board);
    } else {
        let l = board.last();
        let front = board.drop_last();
        if l.1 >= low.1 {
            assert(a.drop_last() =~= board);
        } else {
            lemma_insert_commutes(front, low, high);
            assert(a.drop_last() =~= insert_ranked(front, low));
            assert(b.drop_last() =~= insert_ranked(front, high));
        }
    }
}

/// What follows equal rankings keeps them equal.
proof fn lemma_ranked_append(
    a: Seq<(Address, u32)>,
    b: Seq<(Address, u32)>,
    tail: Seq<(Address, u32)>,
)
    requires
        ranked(a) == ranked(b),
    ensures
        ranked(a + tail) == ranked(b + tail),
    decreases tail.len(),
{
    if tail.len() == 0 {
        assert(a + tail =~= a);
        assert(b + tail =~= b);
    } else {
        lemma_ranked_append(a, b, tail.drop_last());
        assert((a + tail).drop_last() =~= a + tail.drop_last());
        assert((b + tail).drop_last() =~= b + tail.drop_last());
    }
}

/// Exchanging two neighbours of which the second counts more changes nothing.
proof fn lemma_swap(entries: Seq<(Address, u32)>, j: int)
    requires
        0 <= j < entries.len() - 1,
        entries[j].1 < entries[j + 1].1,
    ensures
        ranked(entries.update(j, entries[j + 1]).update(j + 1, entries[j])) == ranked(entries),
{
    let front = entries.take(j);
    let (low, high) = (entries[j], entries[j + 1]);
    let tail = entries.skip(j + 2);
    let before = front.push(low).push(high);
    let after = front.push(high).push(low);
    assert(before.drop_last() =~= front.push(low));
    assert(front.push(low).drop_last() =~= front);
    assert(after.drop_last() =~= front.push(high));
    assert(front.push(high).drop_last() =~= front);
    assert(ranked(front.push(low)) == insert_ranked(ranked(front), low));
    assert(ranked(front.push(high)) == insert_ranked(ranked(front), high));
    lemma_insert_commutes(ranked(front), low, high);
    lemma_ranked_append(before, after, tail);
    assert(before + tail =~= entries);
    assert(after + tail =~= entries.update(j, high).update(j + 1, low));
}

/// A board whose counts fall is ranked.
proof fn lemma_falling_is_ranked(board: Seq<(Address, u32)>)
    requires
        falling(board),
    ensures
        ranked(board) == board,
    decreases board.len(),
{
    if board.len() > 0 {
        let front = board.drop_last();
        assert forall|i: int, j: int| 0 <= i <= j < front.len() implies (#[trigger] front[i]).1 >= (
        #[trigger] front[j]).1 by {
            assert(board[i].1 >= board[j].1);
        }
        lemma_falling_is_ranked(front);
        if front.len() > 0 {
            assert(board[front.len() - 1].1 >= board[front.len() as int].1);
        }
        assert(front.push(board.last()) =~= board);
    }
}

impl ReferralContract {
    /// A contract with empty storage.
    pub fn new() -> (contract: ReferralContract)
        ensures
            contract@ == ReferralState::fresh(),
            contract@.valid(),
    {
        proof {
            law_fresh_is_valid();
        }
        let contract = ReferralContract {
            admin: None,
            mnt_token: None,
            referrals: Table::new(),
            referrer_counts: Table::new(),
            pending_rewards: Table::new(),
            epoch_counts: Table::new(),
            leaderboards: Table::new(),
            bonus_distributed: Table::new(),
            effects: Vec::new(),
        };
        proof {
            lemma_seqs_empty::<u32, (Address, u32)>();
        }
        contract
    }

    /// Names the admin and the token, once.
    pub fn initialize(&mut self, admin: Address, mnt_token: Address) -> (done: Result<
        (),
        Failure<Refusal>,
    >)
        ensures
            match done {
                Ok(()) => old(self)@.initialize_refusal() is None && final(self)@ == old(
                    self)@.initialized(admin, mnt_token),
                Err(f) => old(self)@.initialize_refusal() == Some(f) && final(self)@ == old(self)@,
            },
            old(self)@.valid() ==> final(self)@.valid(),
    {
        if self.admin.is_some() {
            return Err(Failure::Error(Refusal::AlreadyInitialized));
        }
        self.admin = Some(admin);
        self.mnt_token = Some(mnt_token);
        proof {
            if old(self)@.valid() {
                law_initialize_keeps_valid(old(self)@, admin, mnt_token);
            }
        }
        Ok(())
    }

    /// Fails unless the admin consented.
    fn require_admin(&self, ctx: &Context) -> (done: Result<(), Failure<Refusal>>)
        ensures
            match done {
                Ok(()) => self@.admin_refusal(*ctx) is None,
                Err(f) => self@.admin_refusal(*ctx) == Some(f),
            },
    {
        match self.admin {
            None => Err(Failure::Error(Refusal::NotInitialized)),
            Some(admin) => if ctx.has_auth(admin) {
                Ok(())
            } else {
                Err(Failure::Unauthorized)
            },
        }
    }

    /// Remembers that `referrer` brought `referee`; for the admin.
    pub fn register_referral(
        &mut self,
        ctx: &Context,
        referrer: Address,
        referee: Address,
        is_mentor: bool,
    ) -> (done: Result<(), Failure<Refusal>>)
        ensures
            match done {
                Ok(()) => old(self)@.register_refusal(*ctx, referrer, referee) is None && final(
                    self)@ == old(self)@.registered(*ctx, referrer, referee, is_mentor),
                Err(f) => old(self)@.register_refusal(*ctx, referrer, referee) == Some(f) && final(
                    self)@ == old(self)@,
            },
            old(self)@.valid() ==> final(self)@.valid(),
    {
        match self.require_admin(ctx) {
            Ok(()) => {},
            Err(f) => {
                return Err(f);
            },
        }
        if referrer == referee {
            return Err(Failure::Error(Refusal::SelfReferral));
        }
        if self.referrals.has(&referee) {
            return Err(Failure::Error(Refusal::AlreadyRegistered));
        }
        let count: u32 = self.get_referral_count(referrer);
        let epoch: u32 = Self::current_epoch(ctx);
        let epoch_count: u32 = self.get_epoch_referral_count(epoch, referrer);
        if count == u32::MAX || epoch_count == u32::MAX {
            return Err(Failure::Error(Refusal::OutOfRange));
        }
        let referee_type = if is_mentor {
            RefereeType::Mentor
        } else {
            RefereeType::Learner
        };
        self.referrals.set(referee, ReferralInfo { referrer, referee_type, completed: false });
        self.referrer_counts.set(referrer, count + 1);
        self.record_epoch_referral(epoch, referrer);
        self.effects.push(
            Effect::Registered {
                referrer,
                data: ReferralRegisteredEventData { referee, is_mentor },
            },
        );
        proof {
            if old(self)@.valid() {
                law_register_keeps_valid(old(self)@, *ctx, referrer, referee, is_mentor);
            }
        }
        Ok(())
    }

    /// Completes a referral; for the admin. Its reward is then pending.
    pub fn fulfill_referral(&mut self, ctx: &Context, referee: Address) -> (done: Result<
        (),
        Failure<Refusal>,
    >)
        ensures
            match done {
                Ok(()) => old(self)@.fulfill_refusal(*ctx, referee) is None && final(self)@ == old(
                    self)@.fulfilled(referee),
                Err(f) => old(self)@.fulfill_refusal(*ctx, referee) == Some(f) && final(self)@
                    == old(self)@,
            },
            old(self)@.valid() ==> final(self)@.valid(),
    {
        match self.require_admin(ctx) {
            Ok(()) => {},
            Err(f) => {
                return Err(f);
            },
        }
        let mut info: ReferralInfo = match self.referrals.get(&referee) {
            Some(info) => *info,
            None => {
                return Err(Failure::Error(Refusal::ReferralNotFound));
            },
        };
        if info.completed {
            return Err(Failure::Error(Refusal::AlreadyCompleted));
        }
        info.completed = true;
        let reward: i128 = match info.referee_type {
            RefereeType::Mentor => REWARD_MENTOR,
            RefereeType::Learner => REWARD_LEARNER,
        };
        let pending: i128 = match self.get_pending_rewards(info.referrer).checked_add(reward) {
            Some(p) => p,
            None => {
                return Err(Failure::Error(Refusal::OutOfRange));
            },
        };
        self.referrals.set(referee, info);
        self.pending_rewards.set(info.referrer, pending);
        proof {
            if old(self)@.valid() {
                law_other_calls_keep_valid(old(self)@, *ctx, referee);
            }
        }
        Ok(())
    }

    /// Mints the pending rewards of a referrer, times its multiplier.
    pub fn claim_reward(&mut self, ctx: &Context, referrer: Address) -> (done: Result<
        (),
        Failure<Refusal>,
    >)
        ensures
            match done {
                Ok(()) => old(self)@.claim_refusal(*ctx, referrer) is None && final(self)@ == old(
                    self)@.claimed(*ctx, referrer),
                Err(f) => old(self)@.claim_refusal(*ctx, referrer) == Some(f) && final(self)@
                    == old(self)@,
            },
            old(self)@.valid() ==> final(self)@.valid(),
    {
        if !ctx.has_auth(referrer) {
            return Err(Failure::Unauthorized);
        }
        let pending: i128 = self.get_pending_rewards(referrer);
        if pending <= 0 {
            return Err(Failure::Error(Refusal::NoRewards));
        }
        let multiplier: u32 = self.get_multiplier(ctx, referrer);
        let total: i128 = match pending.checked_mul(multiplier as i128) {
            Some(t) => t,
            None => {
                return Err(Failure::Error(Refusal::RewardOverflow));
            },
        };
        let token: Address = match self.mnt_token {
            Some(t) => t,
            None => {
                return Err(Failure::Error(Refusal::TokenNotSet));
            },
        };
        self.effects.push(Effect::Mint { token, to: referrer, amount: total });
        self.pending_rewards.set(referrer, 0);
        self.effects.push(
            Effect::RewardClaimed { referrer, data: RewardClaimedEventData { amount: total } },
        );
        proof {
            if old(self)@.valid() {
                law_other_calls_keep_valid(old(self)@, *ctx, referrer);
            }
        }
        Ok(())
    }

    /// The epoch that the call falls into.
    pub fn current_epoch(ctx: &Context) -> (epoch: u32)
        ensures
            epoch == epoch_of(ctx.now),
    {
        #[verifier::truncate]
        let epoch = (ctx.now / LEADERBOARD_EPOCH_SECS) as u32;
        epoch
    }

    /// Counts one more referral of a referrer in an epoch, and brings the
    /// leaderboard up to date.
    fn record_epoch_referral(&mut self, epoch: u32, referrer: Address)
        requires
            at_or(old(self)@.epoch_counts, (epoch, referrer), 0) < u32::MAX,
        ensures
            final(self)@ == old(self)@.with_epoch_referral(epoch, referrer),
            old(self)@.valid_boards() ==> final(self)@.valid_boards(),
    {
        proof {
            if self@.valid_boards() {
                law_epoch_referral(self@, epoch, referrer);
            }
        }
        let new_count: u32 = self.get_epoch_referral_count(epoch, referrer) + 1;
        self.epoch_counts.set((epoch, referrer), new_count);
        let ghost before = self.leaderboards@;
        let mut lb: Vec<(Address, u32)> = match self.leaderboards.remove(&epoch) {
            Some(lb) => lb,
            None => Vec::new(),
        };
        assert(lb@ =~= old(self)@.board(epoch));
        let n: usize = lb.len();
        proof {
            lemma_rank_bounds(lb@, referrer);
        }
        match find(&lb, referrer) {
            Some(i) => {
                lb.set(i, (referrer, new_count));
            },
            None => {
                if n < LEADERBOARD_MAX_SIZE {
                    lb.push((referrer, new_count));
                } else if new_count > lb[n - 1].1 {
                    lb.set(n - 1, (referrer, new_count));
                }
            },
        }
        Self::sort_leaderboard(&mut lb);
        proof {
            lemma_seqs_insert(before, epoch, lb);
        }
        self.leaderboards.set(epoch, lb);
    }

    /// Sorts a leaderboard by falling count, in place. Entries of one count keep
    /// their order.
    fn sort_leaderboard(lb: &mut Vec<(Address, u32)>)
        ensures
            final(lb)@ == ranked(old(lb)@),
            falling(final(lb)@),
    {
        let n: usize = lb.len();
        let ghost start = lb@;
        let mut i: usize = 0;
        while i < n
            invariant
                n == lb@.len(),
                i <= n,
                ranked(lb@) == ranked(start),
                forall|a: int, b: int|
                    0 <= a <= b < n && n - i <= b ==> (#[trigger] lb@[a]).1 >= (#[trigger] lb@[b]).1,
            decreases n - i,
        {
            let mut j: usize = 0;
            while j < n - 1 - i
                invariant
                    n == lb@.len(),
                    i < n,
                    j <= n - 1 - i,
                    ranked(lb@) == ranked(start),
                    forall|a: int, b: int|
                        0 <= a <= b < n && n - i <= b ==> (#[trigger] lb@[a]).1 >= (
                        #[trigger] lb@[b]).1,
                    forall|a: int| 0 <= a <= j ==> (#[trigger] lb@[a]).1 >= lb@[j as int].1,
                decreases n - j,
            {
                let a: (Address, u32) = lb[j];
                let b: (Address, u32) = lb[j + 1];
                if b.1 > a.1 {
                    let ghost before = lb@;
                    proof {
                        lemma_swap(before, j as int);
                    }
                    lb.set(j, b);
                    lb.set(j + 1, a);
                    assert(lb@ == before.update(j as int, before[j + 1]).update(
                        j + 1,
                        before[j as int],
                    ));
                    assert forall|x: int, y: int| 0 <= x <= y < n && n - i <= y implies (
                    #[trigger] lb@[x]).1 >= (#[trigger] lb@[y]).1 by {
                        assert(lb@[y] == before[y]);
                        assert(before[x].1 >= before[y].1);
                        assert(before[j as int].1 >= before[y].1);
                        assert(before[j + 1].1 >= before[y].1);
                    }
                    assert forall|x: int| 0 <= x <= j + 1 implies (#[trigger] lb@[x]).1 >= lb@[j + 1].1 by {
                        if x < j {
                            assert(before[x].1 >= before[j as int].1);
                        }
                    }
                }
                j = j + 1;
            }
            i = i + 1;
        }
        proof {
            lemma_falling_is_ranked(lb@);
        }
    }

    /// What a referrer multiplies its rewards by now.
    pub fn get_multiplier(&self, ctx: &Context, referrer: Address) -> (multiplier: u32)
        ensures
            multiplier == multiplier_of(self@.board(epoch_of(ctx.now)), referrer),
            1 <= multiplier <= MAX_MULTIPLIER,
    {
        let epoch: u32 = Self::current_epoch(ctx);
        match self.leaderboards.get(&epoch) {
            None => 1,
            Some(lb) => {
                if lb.len() == 1 && lb[0].1 == 1 {
                    return 1;
                }
                match find(lb, referrer) {
                    None => 1,
                    Some(i) => {
                        proof {
                            lemma_rank_bounds(lb@, referrer);
                        }
                        if i == 0 {
                            MAX_MULTIPLIER
                        } else if i == 1 {
                            5
                        } else if i == 2 {
                            3
                        } else {
                            2
                        }
                    },
                }
            },
        }
    }

    /// Mints the bonus for the top referrers of the epoch before; for the admin,
    /// once per epoch.
    pub fn distribute_epoch_bonus(&mut self, ctx: &Context) -> (done: Result<(), Failure<Refusal>>)
        ensures
            match done {
                Ok(()) => old(self)@.bonus_refusal(*ctx) is None && final(self)@ == old(
                    self)@.bonus_paid(*ctx),
                Err(f) => old(self)@.bonus_refusal(*ctx) == Some(f) && final(self)@ == old(self)@,
            },
            old(self)@.valid() ==> final(self)@.valid(),
    {
        match self.require_admin(ctx) {
            Ok(()) => {},
            Err(f) => {
                return Err(f);
            },
        }
        let epoch: u32 = Self::current_epoch(ctx);
        if epoch == 0 {
            return Err(Failure::Error(Refusal::NoPreviousEpoch));
        }
        let prev_epoch: u32 = epoch - 1;
        let distributed: bool = match self.bonus_distributed.get(&prev_epoch) {
            Some(b) => *b,
            None => false,
        };
        if distributed {
            return Err(Failure::Error(Refusal::BonusDistributed));
        }
        let token: Address = match self.mnt_token {
            Some(t) => t,
            None => {
                return Err(Failure::Error(Refusal::TokenNotSet));
            },
        };
        let lb: Vec<(Address, u32)> = self.get_epoch_leaderboard(prev_epoch);
        let ghost before = self.effects@;
        let ghost all = ReferralState::bonuses(token, lb@);
        let mut i: usize = 0;
        let n: usize = lb.len();
        while i < n && i < TOP_REFERRER_BONUS_COUNT
            invariant
                n == lb@.len(),
                i <= n,
                i <= TOP_REFERRER_BONUS_COUNT,
                all == ReferralState::bonuses(token, lb@),
                self.effects@ == before + all.take(i as int),
                old(self)@ == (ReferralState { effects: before, ..self@ }),
            decreases n - i,
        {
            self.effects.push(Effect::Mint { token, to: lb[i].0, amount: BONUS_MNT });
            i = i + 1;
            assert(all[i - 1] == Effect::Mint { token, to: lb@[i - 1].0, amount: BONUS_MNT });
            assert(all.take(i as int) =~= all.take(i - 1).push(all[i - 1]));
            assert(self.effects@ =~= before + all.take(i as int));
        }
        assert(all.take(i as int) =~= all);
        self.bonus_distributed.set(prev_epoch, true);
        proof {
            if old(self)@.valid() {
                law_other_calls_keep_valid(old(self)@, *ctx, token);
            }
        }
        Ok(())
    }

    /// How many referrals a referrer made in an epoch.
    pub fn get_epoch_referral_count(&self, epoch: u32, referrer: Address) -> (count: u32)
        ensures
            count == at_or(self@.epoch_counts, (epoch, referrer), 0),
    {
        match self.epoch_counts.get(&(epoch, referrer)) {
            Some(n) => *n,
            None => 0,
        }
    }

    /// The leaderboard of an epoch.
    pub fn get_epoch_leaderboard(&self, epoch: u32) -> (board: Vec<(Address, u32)>)
        ensures
            board@ == self@.board(epoch),
    {
        match self.leaderboards.get(&epoch) {
            Some(lb) => copied(lb),
            None => Vec::new(),
        }
    }

    /// How many referrals a referrer made in all.
    pub fn get_referral_count(&self, referrer: Address) -> (count: u32)
        ensures
            count == at_or(self@.referrer_counts, referrer, 0),
    {
        match self.referrer_counts.get(&referrer) {
            Some(n) => *n,
            None => 0,
        }
    }

    /// The rewards that a referrer can claim, before the multiplier.
    pub fn get_pending_rewards(&self, referrer: Address) -> (pending: i128)
        ensures
            pending == at_or(self@.pending_rewards, referrer, 0),
    {
        match self.pending_rewards.get(&referrer) {
            Some(p) => *p,
            None => 0,
        }
    }

    /// The admin.
    pub fn get_admin(&self) -> (admin: Result<Address, Failure<Refusal>>)
        ensures
            match admin {
                Ok(a) => self@.admin == Some(a),
                Err(f) => self@.admin is None && f == Failure::Error(Refusal::NotInitialized),
            },
    {
        match self.admin {
            Some(a) => Ok(a),
            None => Err(Failure::Error(Refusal::NotInitialized)),
        }
    }
}

/// One for a referral by `who`.
pub open spec fn referred_by(who: Address) -> spec_fn(Address, ReferralInfo) -> int {
    |referee: Address, info: ReferralInfo|
        if info.referrer == who {
            1int
        } else {
            0
        }
}

impl ReferralState {
    /// What holds of the storage between calls: admin and token are set together,
    /// a referrer's count is the number of its referrals, no pending reward is
    /// negative, and the leaderboard of an epoch holds the referrers of the
    /// highest counts in it.
    pub open spec fn valid(self) -> bool {
        &&& self.admin is Some <==> self.mnt_token is Some
        &&& self.referrals.dom().finite()
        &&& forall|who: Address| #[trigger]
            at_or(self.referrer_counts, who, 0) == sum_of(self.referrals, referred_by(who))
        &&& forall|who: Address| #[trigger] at_or(self.pending_rewards, who, 0) >= 0
        &&& self.valid_boards()
    }

    /// The leaderboard of every epoch is valid.
    pub open spec fn valid_boards(self) -> bool {
        forall|epoch: u32| self.valid_board(epoch, #[trigger] self.board(epoch))
    }

    /// The board is ranked, without repetition, of at most ten entries that give
    /// the counts of the epoch; whoever is not on it has no more referrals than
    /// its last, and only once it is full.
    pub open spec fn valid_board(self, epoch: u32, board: Seq<(Address, u32)>) -> bool {
        &&& board.len() <= LEADERBOARD_MAX_SIZE
        &&& falling(board)
        &&& distinct(board)
        &&& forall|i: int|
            0 <= i < board.len() ==> at_or(self.epoch_counts, (epoch, (#[trigger] board[i]).0), 0)
                == board[i].1 && board[i].1 > 0
        &&& forall|who: Address|
            #![trigger at_or(self.epoch_counts, (epoch, who), 0)]
            !on_board(board, who) && at_or(self.epoch_counts, (epoch, who), 0) > 0 ==> board.len()
                == LEADERBOARD_MAX_SIZE && at_or(self.epoch_counts, (epoch, who), 0)
                <= board.last().1
    }
}

proof fn lemma_insert_ranked(board: Seq<(Address, u32)>, entry: (Address, u32))
    ensures
        insert_ranked(board, entry).len() == board.len() + 1,
        forall|e: (Address, u32)| #[trigger]
            insert_ranked(board, entry).contains(e) <==> board.contains(e) || e == entry,
        falling(board) ==> falling(insert_ranked(board, entry)),
        distinct(board) && !on_board(board, entry.0) ==> distinct(insert_ranked(board, entry)),
    decreases board.len(),
{
    let after = insert_ranked(board, entry);
    if board.len() == 0 || board.last().1 >= entry.1 {
        assert(after == board.push(entry));
        assert forall|e: (Address, u32)| #[trigger] after.contains(e) implies board.contains(e) || e
            == entry by {
            let i = choose|i: int| 0 <= i < after.len() && after[i] == e;
            if i < board.len() {
                assert(board[i] == e);
            }
        }
        assert forall|e: (Address, u32)| board.contains(e) || e == entry implies #[trigger] after.contains(
        e) by {
            if e == entry {
                assert(after[board.len() as int] == e);
            } else {
                let i = choose|i: int| 0 <= i < board.len() && board[i] == e;
                assert(after[i] == e);
            }
        }
        if falling(board) {
            assert forall|i: int, j: int| 0 <= i <= j < after.len() implies (#[trigger] after[i]).1
                >= (#[trigger] after[j]).1 by {
                if j == board.len() && i < j {
                    assert(board[i].1 >= board[board.len() - 1].1);
                } else if j < board.len() {
                    assert(board[i].1 >= board[j].1);
                }
            }
        }
    } else {
        let front = board.drop_last();
        let inner = insert_ranked(front, entry);
        let last = board.last();
        lemma_insert_ranked(front, entry);
        assert(after == inner.push(last));
        assert forall|e: (Address, u32)| #[trigger] after.contains(e) implies board.contains(e) || e
            == entry by {
            let i = choose|i: int| 0 <= i < after.len() && after[i] == e;
            if i < inner.len() {
                assert(inner[i] == e);
                assert(inner.contains(e));
                if e != entry {
                    let k = choose|k: int| 0 <= k < front.len() && front[k] == e;
                    assert(board[k] == e);
                }
            } else {
                assert(board[board.len() - 1] == e);
            }
        }
        assert forall|e: (Address, u32)| board.contains(e) || e == entry implies #[trigger] after.contains(
        e) by {
            if e == last {
                assert(after[inner.len() as int] == e);
            } else {
                if e != entry {
                    let k = choose|k: int| 0 <= k < board.len() && board[k] == e;
                    assert(front[k] == e);
                }
                assert(inner.contains(e));
                let i = choose|i: int| 0 <= i < inner.len() && inner[i] == e;
                assert(after[i] == e);
            }
        }
        if falling(board) {
            assert forall|i: int, j: int| 0 <= i <= j < front.len() implies (#[trigger] front[i]).1
                >= (#[trigger] front[j]).1 by {
                assert(board[i].1 >= board[j].1);
            }
            assert forall|i: int, j: int| 0 <= i <= j < after.len() implies (#[trigger] after[i]).1
                >= (#[trigger] after[j]).1 by {
                if j < inner.len() {
                    assert(inner[i].1 >= inner[j].1);
                } else if i < j {
                    assert(inner.contains(inner[i]));
                    if inner[i] != entry {
                        let k = choose|k: int| 0 <= k < front.len() && front[k] == inner[i];
                        assert(board[k].1 >= board[board.len() - 1].1);
                    }
                }
            }
        }
        if distinct(board) && !on_board(board, entry.0) {
            assert forall|i: int, j: int| 0 <= i < j < front.len() implies (#[trigger] front[i]).0
                != (#[trigger] front[j]).0 by {
                assert(board[i].0 != board[j].0);
            }
            assert(!on_board(front, entry.0)) by {
                if on_board(front, entry.0) {
                    let k = choose|k: int| 0 <= k < front.len() && (#[trigger] front[k]).0
                        == entry.0;
                    assert(board[k].0 == entry.0);
                }
            }
            assert forall|i: int, j: int| 0 <= i < j < after.len() implies (#[trigger] after[i]).0
                != (#[trigger] after[j]).0 by {
                if j < inner.len() {
                    assert(inner[i].0 != inner[j].0);
                } else {
                    assert(inner.contains(inner[i]));
                    assert(board[board.len() - 1].0 != entry.0);
                    if inner[i] != entry {
                        let k = choose|k: int| 0 <= k < front.len() && front[k] == inner[i];
                        assert(board[k].0 != board[board.len() - 1].0);
                    }
                }
            }
        }
    }
}

/// Ranking keeps the entries, and makes their counts fall.
pub proof fn law_ranked(entries: Seq<(Address, u32)>)
    ensures
        ranked(entries).len() == entries.len(),
        forall|e: (Address, u32)| #[trigger]
            ranked(entries).contains(e) <==> entries.contains(e),
        falling(ranked(entries)),
        distinct(entries) ==> distinct(ranked(entries)),
    decreases entries.len(),
{
    if entries.len() > 0 {
        let front = entries.drop_last();
        let last = entries.last();
        law_ranked(front);
        lemma_insert_ranked(ranked(front), last);
        assert forall|e: (Address, u32)| #[trigger]
            ranked(entries).contains(e) implies entries.contains(e) by {
            if e == last {
                assert(entries[entries.len() - 1] == e);
            } else {
                assert(ranked(front).contains(e));
                let i = choose|i: int| 0 <= i < front.len() && front[i] == e;
                assert(entries[i] == e);
            }
        }
        assert forall|e: (Address, u32)| entries.contains(e) implies #[trigger] ranked(
            entries,
        ).contains(e) by {
            if e != last {
                let i = choose|i: int| 0 <= i < entries.len() && entries[i] == e;
                assert(front[i] == e);
                assert(ranked(front).contains(e));
            }
        }
        if distinct(entries) {
            assert forall|i: int, j: int| 0 <= i < j < front.len() implies (#[trigger] front[i]).0
                != (#[trigger] front[j]).0 by {
                assert(entries[i].0 != entries[j].0);
            }
            assert(!on_board(ranked(front), last.0)) by {
                if on_board(ranked(front), last.0) {
                    let r = ranked(front);
                    let k = choose|k: int| 0 <= k < r.len() && (#[trigger] r[k]).0 == last.0;
                    assert(r.contains(r[k]));
                    let i = choose|i: int| 0 <= i < front.len() && front[i] == r[k];
                    assert(entries[i].0 != entries[entries.len() - 1].0);
                }
            }
        }
    }
}

/// A multiplier lies between one and ten.
pub proof fn law_multiplier_bounded(board: Seq<(Address, u32)>, who: Address)
    ensures
        1 <= multiplier_of(board, who) <= MAX_MULTIPLIER,
{
}

/// Whoever made no referral in an epoch has no multiplier in it: rankings start
/// anew with every epoch.
pub proof fn law_no_referrals_no_multiplier(s: ReferralState, epoch: u32, who: Address)
    requires
        s.valid(),
        at_or(s.epoch_counts, (epoch, who), 0) == 0,
    ensures
        multiplier_of(s.board(epoch), who) == 1,
{
    let board = s.board(epoch);
    assert(s.valid_board(epoch, board));
    lemma_rank_bounds(board, who);
}

/// A leaderboard holds the best referrers of its epoch: nobody who is not on it
/// has more referrals than anybody who is.
pub proof fn law_board_holds_the_best(s: ReferralState, epoch: u32, who: Address, i: int)
    requires
        s.valid(),
        !on_board(s.board(epoch), who),
        0 <= i < s.board(epoch).len(),
    ensures
        at_or(s.epoch_counts, (epoch, who), 0) <= s.board(epoch)[i].1,
        s.board(epoch)[i].1 == at_or(s.epoch_counts, (epoch, s.board(epoch)[i].0), 0),
{
    let board = s.board(epoch);
    assert(s.valid_board(epoch, board));
    assert(board[i].1 >= board[board.len() - 1].1);
    assert(at_or(s.epoch_counts, (epoch, who), 0) >= 0);
}

/// A contract that was just deployed is valid.
pub proof fn law_fresh_is_valid()
    ensures
        ReferralState::fresh().valid(),
{
    let s = ReferralState::fresh();
    assert forall|who: Address| #[trigger] at_or(s.referrer_counts, who, 0) == sum_of(
        s.referrals,
        referred_by(who),
    ) by {
        lemma_sum_empty(referred_by(who));
    }
}

/// The board of an epoch stays valid when a referrer gains a referral in it.
proof fn lemma_recorded(s: ReferralState, t: ReferralState, epoch: u32, who: Address, count: u32)
    requires
        s.valid_board(epoch, s.board(epoch)),
        count > at_or(s.epoch_counts, (epoch, who), 0),
        t.epoch_counts == s.epoch_counts.insert((epoch, who), count),
        t.board(epoch) == recorded(s.board(epoch), who, count),
    ensures
        t.valid_board(epoch, t.board(epoch)),
{
    let board = s.board(epoch);
    let i = rank(board, who);
    lemma_rank_bounds(board, who);
    let entries = if i < board.len() {
        board.update(i, (who, count))
    } else if board.len() < LEADERBOARD_MAX_SIZE {
        board.push((who, count))
    } else if count > board.last().1 {
        board.update(board.len() - 1, (who, count))
    } else {
        board
    };
    let after = t.board(epoch);
    assert forall|a: int, b: int| 0 <= a < b < entries.len() implies (#[trigger] entries[a]).0 != (
    #[trigger] entries[b]).0 by {
        if a < board.len() && b < board.len() {
            assert(board[a].0 != board[b].0);
        }
        if a < board.len() {
            assert(i >= board.len() ==> board[a].0 != who);
        }
        if b < board.len() {
            assert(i >= board.len() ==> board[b].0 != who);
        }
    }
    law_ranked(entries);
    assert forall|a: int| 0 <= a < entries.len() implies at_or(
        t.epoch_counts,
        (epoch, (#[trigger] entries[a]).0),
        0,
    ) == entries[a].1 && entries[a].1 > 0 by {
        if a < board.len() && entries[a] == board[a] {
            assert(board[a].0 != who);
            assert(at_or(s.epoch_counts, (epoch, board[a].0), 0) == board[a].1);
        }
    }
    assert forall|a: int| 0 <= a < after.len() implies at_or(
        t.epoch_counts,
        (epoch, (#[trigger] after[a]).0),
        0,
    ) == after[a].1 && after[a].1 > 0 by {
        assert(after.contains(after[a]));
        let k = choose|k: int| 0 <= k < entries.len() && entries[k] == after[a];
        assert(entries[k].1 > 0);
    }
    assert forall|q: Address|
        #![trigger at_or(t.epoch_counts, (epoch, q), 0)]
        !on_board(after, q) && at_or(t.epoch_counts, (epoch, q), 0) > 0 implies after.len()
        == LEADERBOARD_MAX_SIZE && at_or(t.epoch_counts, (epoch, q), 0) <= after.last().1 by {
        let c = at_or(t.epoch_counts, (epoch, q), 0);
        // Nobody among the entries is missing from the board.
        assert forall|a: int| 0 <= a < entries.len() implies (#[trigger] entries[a]).0 != q by {
            if entries[a].0 == q {
                assert(entries.contains(entries[a]));
                assert(ranked(entries).contains(entries[a]));
                let k = choose|k: int| 0 <= k < after.len() && after[k] == entries[a];
                assert(after[k].0 == q);
            }
        }
        if q == who {
            assert(i >= board.len()) by {
                if i < board.len() {
                    assert(entries[i].0 == who);
                }
            }
            assert(board.len() == LEADERBOARD_MAX_SIZE) by {
                if board.len() < LEADERBOARD_MAX_SIZE {
                    assert(entries[board.len() as int].0 == who);
                }
            }
            if count > board.last().1 {
                assert(entries[board.len() - 1].0 == who);
            }
        } else {
            assert(c == at_or(s.epoch_counts, (epoch, q), 0));
            if on_board(board, q) {
                let k = choose|k: int| 0 <= k < board.len() && (#[trigger] board[k]).0 == q;
                assert(entries[k].0 != q);
                assert(k == board.len() - 1);
                assert(at_or(s.epoch_counts, (epoch, board[k].0), 0) == board[k].1);
            }
        }
        assert(board.len() == LEADERBOARD_MAX_SIZE && c <= board.last().1);
        assert(after.contains(after[after.len() - 1]));
        let k = choose|k: int| 0 <= k < entries.len() && entries[k] == after.last();
        if entries[k] == board[k] {
            assert(board[k].1 >= board[board.len() - 1].1);
        } else if i < board.len() {
            assert(at_or(s.epoch_counts, (epoch, board[i].0), 0) == board[i].1);
            assert(board[i].1 >= board[board.len() - 1].1);
        }
    }
}

/// What one more referral in an epoch does. The referrer's count rises by one and
/// no other changes. The board then has at most ten entries, of distinct
/// referrers, by falling counts, which are those of the epoch. With fewer than ten
/// it lists everybody who has a referral, and nobody who is not listed has more
/// than anybody who is. The boards of other epochs are as before.
pub proof fn law_epoch_referral(s: ReferralState, epoch: u32, referrer: Address)
    requires
        s.valid_boards(),
        at_or(s.epoch_counts, (epoch, referrer), 0) < u32::MAX,
    ensures
        ({
            let t = s.with_epoch_referral(epoch, referrer);
            let board = t.board(epoch);
            &&& t.valid_boards()
            &&& at_or(t.epoch_counts, (epoch, referrer), 0) == at_or(
                s.epoch_counts,
                (epoch, referrer),
                0,
            ) + 1
            &&& forall|e: u32, a: Address|
                (e, a) != (epoch, referrer) ==> #[trigger] at_or(t.epoch_counts, (e, a), 0)
                    == at_or(s.epoch_counts, (e, a), 0)
            &&& board.len() <= 10
            &&& distinct(board)
            &&& falling(board)
            &&& forall|i: int|
                0 <= i < board.len() ==> at_or(
                    t.epoch_counts,
                    (epoch, (#[trigger] board[i]).0),
                    0,
                ) == board[i].1
            &&& forall|a: Address|
                #![trigger on_board(board, a)]
                board.len() < 10 && at_or(t.epoch_counts, (epoch, a), 0) > 0 ==> on_board(board, a)
            &&& forall|a: Address, i: int|
                #![trigger on_board(board, a), board[i]]
                !on_board(board, a) && 0 <= i < board.len() ==> at_or(
                    t.epoch_counts,
                    (epoch, a),
                    0,
                ) <= board[i].1
            &&& forall|e: u32| e != epoch ==> #[trigger] t.board(e) == s.board(e)
        }),
{
    let t = s.with_epoch_referral(epoch, referrer);
    let board = t.board(epoch);
    assert forall|e: u32| t.valid_board(e, #[trigger] t.board(e)) by {
        assert(s.valid_board(e, s.board(e)));
        if e == epoch {
            lemma_recorded(s, t, epoch, referrer, t.epoch_counts[(epoch, referrer)]);
        } else {
            let other = t.board(e);
            assert(other == s.board(e));
            assert forall|who: Address|
                #![trigger at_or(t.epoch_counts, (e, who), 0)]
                !on_board(other, who) && at_or(t.epoch_counts, (e, who), 0) > 0 implies other.len()
                == LEADERBOARD_MAX_SIZE && at_or(t.epoch_counts, (e, who), 0)
                <= other.last().1 by {
                assert(at_or(s.epoch_counts, (e, who), 0) == at_or(t.epoch_counts, (e, who), 0));
            }
        }
    }
    assert(t.valid_board(epoch, board));
    assert forall|a: Address, i: int|
        #![trigger on_board(board, a), board[i]]
        !on_board(board, a) && 0 <= i < board.len() implies at_or(t.epoch_counts, (epoch, a), 0)
        <= board[i].1 by {
        assert(board[i].1 >= board[board.len() - 1].1);
        assert(at_or(t.epoch_counts, (epoch, a), 0) >= 0);
    }
    assert forall|a: Address|
        #![trigger on_board(board, a)]
        board.len() < 10 && at_or(t.epoch_counts, (epoch, a), 0) > 0 implies on_board(board, a) by {
        if !on_board(board, a) {
            assert(at_or(t.epoch_counts, (epoch, a), 0) > 0);
        }
    }
}

/// A new referral keeps the storage valid, and does to the counts and the boards
/// what one more referral in the epoch does.
pub proof fn law_register_keeps_valid(
    s: ReferralState,
    ctx: Context,
    referrer: Address,
    referee: Address,
    is_mentor: bool,
)
    requires
        s.valid(),
        s.register_refusal(ctx, referrer, referee) is None,
    ensures
        s.registered(ctx, referrer, referee, is_mentor).valid(),
        s.registered(ctx, referrer, referee, is_mentor).epoch_counts == s.with_epoch_referral(
            epoch_of(ctx.now),
            referrer,
        ).epoch_counts,
        s.registered(ctx, referrer, referee, is_mentor).leaderboards == s.with_epoch_referral(
            epoch_of(ctx.now),
            referrer,
        ).leaderboards,
{
    let t = s.registered(ctx, referrer, referee, is_mentor);
    let counted = s.with_epoch_referral(epoch_of(ctx.now), referrer);
    law_epoch_referral(s, epoch_of(ctx.now), referrer);
    assert forall|who: Address| #[trigger] at_or(t.referrer_counts, who, 0) == sum_of(
        t.referrals,
        referred_by(who),
    ) by {
        assert(at_or(s.referrer_counts, who, 0) == sum_of(s.referrals, referred_by(who)));
        lemma_sum_insert(s.referrals, referred_by(who), referee, t.referrals[referee]);
    }
    assert forall|who: Address| #[trigger] at_or(t.pending_rewards, who, 0) >= 0 by {
        assert(at_or(s.pending_rewards, who, 0) >= 0);
    }
    assert forall|e: u32| t.valid_board(e, #[trigger] t.board(e)) by {
        assert(counted.valid_board(e, counted.board(e)));
        assert(t.board(e) == counted.board(e));
    }
}

/// Whatever leaves the referrals' referrers, the counts and the boards alone
/// keeps the storage valid.
proof fn lemma_same_counts(s: ReferralState, t: ReferralState)
    requires
        s.valid(),
        t.admin is Some <==> t.mnt_token is Some,
        t.referrer_counts == s.referrer_counts,
        t.epoch_counts == s.epoch_counts,
        t.leaderboards == s.leaderboards,
        t.referrals.dom() == s.referrals.dom(),
        forall|who: Address| #[trigger]
            sum_of(t.referrals, referred_by(who)) == sum_of(s.referrals, referred_by(who)),
        forall|who: Address| #[trigger] at_or(t.pending_rewards, who, 0) >= 0,
    ensures
        t.valid(),
{
    assert forall|who: Address| #[trigger] at_or(t.referrer_counts, who, 0) == sum_of(
        t.referrals,
        referred_by(who),
    ) by {
        assert(at_or(s.referrer_counts, who, 0) == sum_of(s.referrals, referred_by(who)));
    }
    assert forall|e: u32| t.valid_board(e, #[trigger] t.board(e)) by {
        assert(s.valid_board(e, s.board(e)));
        assert(t.board(e) == s.board(e));
    }
}

/// Naming the admin and the token keeps the storage valid.
pub proof fn law_initialize_keeps_valid(s: ReferralState, admin: Address, mnt_token: Address)
    requires
        s.valid(),
    ensures
        s.initialized(admin, mnt_token).valid(),
{
    assert forall|a: Address| #[trigger] at_or(s.pending_rewards, a, 0) >= 0 by {}
    lemma_same_counts(s, s.initialized(admin, mnt_token));
}

/// A completion, a claim and a bonus keep the storage valid.
pub proof fn law_other_calls_keep_valid(s: ReferralState, ctx: Context, who: Address)
    requires
        s.valid(),
    ensures
        s.fulfill_refusal(ctx, who) is None ==> s.fulfilled(who).valid(),
        s.claim_refusal(ctx, who) is None ==> s.claimed(ctx, who).valid(),
        s.bonus_refusal(ctx) is None ==> s.bonus_paid(ctx).valid(),
{
    assert forall|a: Address| #[trigger] at_or(s.pending_rewards, a, 0) >= 0 by {}
    lemma_same_counts(s, s.bonus_paid(ctx));
    let c = s.claimed(ctx, who);
    assert forall|a: Address| #[trigger] at_or(c.pending_rewards, a, 0) >= 0 by {
        assert(at_or(s.pending_rewards, a, 0) >= 0);
    }
    lemma_same_counts(s, c);
    if s.fulfill_refusal(ctx, who) is None {
        let t = s.fulfilled(who);
        assert(t.referrals.dom() =~= s.referrals.dom());
        assert forall|a: Address| #[trigger]
            sum_of(t.referrals, referred_by(a)) == sum_of(s.referrals, referred_by(a)) by {
            lemma_sum_insert(s.referrals, referred_by(a), who, t.referrals[who]);
        }
        assert forall|a: Address| #[trigger] at_or(t.pending_rewards, a, 0) >= 0 by {
            assert(at_or(s.pending_rewards, a, 0) >= 0);
        }
        lemma_same_counts(s, t);
    }
}

/// A user is referred once, and no call forgets by whom.
pub proof fn law_referred_once(s: ReferralState, referee: Address)
    requires
        s.referrals.contains_key(referee),
    ensures
        forall|ctx: Context, referrer: Address| #[trigger]
            s.register_refusal(ctx, referrer, referee) is Some,
        forall|ctx: Context, referrer: Address|
            s.admin_refusal(ctx) is None && referrer != referee
                ==> #[trigger] s.register_refusal(ctx, referrer, referee) == Some(
                Failure::<Refusal>::Error(Refusal::AlreadyRegistered),
            ),
        forall|ctx: Context, referrer: Address, other: Address, is_mentor: bool|
            other != referee ==> #[trigger] s.registered(
                ctx,
                referrer,
                other,
                is_mentor,
            ).referrals[referee] == s.referrals[referee],
        forall|other: Address| #[trigger]
            s.fulfilled(other).referrals[referee].referrer == s.referrals[referee].referrer,
        forall|ctx: Context, who: Address| #[trigger]
            s.claimed(ctx, who).referrals == s.referrals,
        forall|ctx: Context| #[trigger] s.bonus_paid(ctx).referrals == s.referrals,
{
}

/// A referral is rewarded once: after its completion a second one is refused.
pub proof fn law_rewarded_once(s: ReferralState, ctx: Context, later: Context, referee: Address)
    requires
        s.fulfill_refusal(ctx, referee) is None,
        s.admin_refusal(later) is None,
    ensures
        s.fulfilled(referee).fulfill_refusal(later, referee) == Some(
            Failure::<Refusal>::Error(Refusal::AlreadyCompleted),
        ),
{
}

/// A claim leaves nothing to claim.
pub proof fn law_claim_empties(s: ReferralState, ctx: Context, later: Context, referrer: Address)
    requires
        s.claim_refusal(ctx, referrer) is None,
        later.authorizes(referrer),
    ensures
        s.claimed(ctx, referrer).claim_refusal(later, referrer) == Some(
            Failure::<Refusal>::Error(Refusal::NoRewards),
        ),
{
}

/// The bonus of an epoch is paid once.
pub proof fn law_bonus_once(s: ReferralState, ctx: Context, later: Context)
    requires
        s.bonus_refusal(ctx) is None,
        s.admin_refusal(later) is None,
        epoch_of(later.now) == epoch_of(ctx.now),
    ensures
        s.bonus_paid(ctx).bonus_refusal(later) == Some(
            Failure::<Refusal>::Error(Refusal::BonusDistributed),
        ),
{
}

/// What the places of a leaderboard are worth. Among two or more, the first
/// multiplies by ten, the second by five, the third by three and everybody behind
/// them by two. One who is alone on the board multiplies by ten, but with a single
/// referral by one. Whoever is not on the board multiplies by one.
pub proof fn law_multiplier_by_place(board: Seq<(Address, u32)>, i: int, who: Address)
    requires
        forall|a: int, b: int|
            0 <= a < b < board.len() ==> (#[trigger] board[a]).0 != (#[trigger] board[b]).0,
        0 <= i < board.len(),
    ensures
        board.len() >= 2 && i == 0 ==> multiplier_of(board, board[i].0) == 10,
        board.len() >= 2 && i == 1 ==> multiplier_of(board, board[i].0) == 5,
        board.len() >= 2 && i == 2 ==> multiplier_of(board, board[i].0) == 3,
        board.len() >= 2 && i >= 3 ==> multiplier_of(board, board[i].0) == 2,
        board.len() == 1 && board[0].1 != 1 ==> multiplier_of(board, board[0].0) == 10,
        board.len() == 1 && board[0].1 == 1 ==> multiplier_of(board, board[0].0) == 1,
        (forall|j: int| 0 <= j < board.len() ==> (#[trigger] board[j]).0 != who) ==> multiplier_of(
            board,
            who,
        ) == 1,
{
    lemma_rank_bounds(board, board[i].0);
    let r = rank(board, board[i].0);
    assert(r == i) by {
        assert(r <= i) by {
            if r > i {
                assert(board[i].0 != board[i].0);
            }
        }
        if r < i {
            assert(board[r].0 != board[i].0);
        }
    }
    lemma_rank_bounds(board, who);
}

/// Whoever stands on no board at all multiplies by one.
pub proof fn law_multiplier_off_the_board(board: Seq<(Address, u32)>, who: Address)
    requires
        forall|j: int| 0 <= j < board.len() ==> (#[trigger] board[j]).0 != who,
    ensures
        multiplier_of(board, who) == 1,
{
    lemma_rank_bounds(board, who);
}

/// Epochs are thirty days long and numbered from zero on.
pub proof fn law_epoch(now: u64)
    requires
        now < 2_592_000 * 0x1_0000_0000,
    ensures
        2_592_000 * epoch_of(now) <= now < 2_592_000 * epoch_of(now) + 2_592_000,
{
}

/// The entries of one count, in their order.
pub open spec fn of_count(entries: Seq<(Address, u32)>, count: u32) -> Seq<(Address, u32)> {
    entries.filter(|e: (Address, u32)| e.1 == count)
}

proof fn lemma_of_count_push(entries: Seq<(Address, u32)>, e: (Address, u32), count: u32)
    ensures
        of_count(entries.push(e), count) == (if e.1 == count {
            of_count(entries, count).push(e)
        } else {
            of_count(entries, count)
        }),
{
    reveal(Seq::filter);
    assert(entries.push(e).drop_last() =~= entries);
}

proof fn lemma_insert_stable(board: Seq<(Address, u32)>, e: (Address, u32), count: u32)
    ensures
        of_count(insert_ranked(board, e), count) == (if e.1 == count {
            of_count(board, count).push(e)
        } else {
            of_count(board, count)
        }),
    decreases board.len(),
{
    if board.len() == 0 || board.last().1 >= e.1 {
        lemma_of_count_push(board, e, count);
    } else {
        let front = board.drop_last();
        let last = board.last();
        lemma_insert_stable(front, e, count);
        lemma_of_count_push(insert_ranked(front, e), last, count);
        lemma_of_count_push(front, last, count);
        assert(front.push(last) =~= board);
    }
}

/// Ranking is stable: entries of one count keep their order. With falling counts
/// this leaves a single way to rank.
pub proof fn law_ranking_is_stable(entries: Seq<(Address, u32)>, count: u32)
    ensures
        of_count(ranked(entries), count) == of_count(entries, count),
        forall|i: int, j: int|
            0 <= i <= j < ranked(entries).len() ==> (#[trigger] ranked(entries)[i]).1 >= (
            #[trigger] ranked(entries)[j]).1,
        ranked(entries).len() == entries.len(),
    decreases entries.len(),
{
    law_ranked(entries);
    if entries.len() > 0 {
        let front = entries.drop_last();
        law_ranking_is_stable(front, count);
        lemma_insert_stable(ranked(front), entries.last(), count);
        lemma_of_count_push(front, entries.last(), count);
        assert(front.push(entries.last()) =~= entries);
    }
}

/// What a new count does to a board, before it is ranked again: the entry of one who
/// is on it is renewed in its place; one who is not comes last while there are fewer
/// than ten, and else takes the place of the last if it counts more; otherwise the
/// board stays as it is.
pub proof fn law_board_entry(
    board: Seq<(Address, u32)>,
    who: Address,
    count: u32,
    i: int,
    c: u32,
)
    ensures
        ({
            let after = recorded(board, who, count);
            let absent = forall|j: int| 0 <= j < board.len() ==> (#[trigger] board[j]).0 != who;
            let first = 0 <= i < board.len() && board[i].0 == who && forall|j: int|
                0 <= j < i ==> (#[trigger] board[j]).0 != who;
            &&& first ==> of_count(after, c) == of_count(board.update(i, (who, count)), c)
                && after.len() == board.len()
            &&& absent && board.len() < 10 ==> of_count(after, c) == of_count(
                board.push((who, count)),
                c,
            ) && after.len() == board.len() + 1
            &&& absent && board.len() >= 10 && count > board.last().1 ==> of_count(after, c)
                == of_count(board.update(board.len() - 1, (who, count)), c) && after.len()
                == board.len()
            &&& absent && board.len() >= 10 && count <= board.last().1 ==> of_count(after, c)
                == of_count(board, c) && after.len() == board.len()
            &&& forall|a: int, b: int|
                0 <= a <= b < after.len() ==> (#[trigger] after[a]).1 >= (#[trigger] after[b]).1
        }),
{
    lemma_rank_bounds(board, who);
    let r = rank(board, who);
    let entries = if r < board.len() {
        board.update(r, (who, count))
    } else if board.len() < LEADERBOARD_MAX_SIZE {
        board.push((who, count))
    } else if count > board.last().1 {
        board.update(board.len() - 1, (who, count))
    } else {
        board
    };
    law_ranking_is_stable(entries, c);
    let first = 0 <= i < board.len() && board[i].0 == who && forall|j: int|
        0 <= j < i ==> (#[trigger] board[j]).0 != who;
    if first {
        assert(r == i) by {
            if r < i {
                assert(board[r].0 != who);
            }
        }
    }
    if forall|j: int| 0 <= j < board.len() ==> (#[trigger] board[j]).0 != who {
        assert(r == board.len());
    }
}

/// When a referral can be registered: by the admin, of somebody else, who was not
/// referred before, as long as the counts stay in range.
pub proof fn law_registration_is_open(
    s: ReferralState,
    ctx: Context,
    referrer: Address,
    referee: Address,
)
    ensures
        ({
            let f = s.register_refusal(ctx, referrer, referee);
            let signed = s.admin is Some && ctx.authorized@.contains(s.admin->0);
            let key = ((ctx.now / 2_592_000) as u32, referrer);
            let full = (s.referrer_counts.contains_key(referrer) && s.referrer_counts[referrer]
                == u32::MAX) || (s.epoch_counts.contains_key(key) && s.epoch_counts[key]
                == u32::MAX);
            &&& f is None <==> signed && referrer != referee && !s.referrals.contains_key(referee)
                && !full
            &&& f == Some(Failure::<Refusal>::Error(Refusal::NotInitialized)) <==> s.admin is None
            &&& f == Some(Failure::<Refusal>::Unauthorized) <==> s.admin is Some && !signed
            &&& f == Some(Failure::<Refusal>::Error(Refusal::SelfReferral)) <==> signed && referrer
                == referee
            &&& f == Some(Failure::<Refusal>::Error(Refusal::AlreadyRegistered)) <==> signed
                && referrer != referee && s.referrals.contains_key(referee)
            &&& s.admin_refusal(ctx) is None <==> signed
            &&& s.initialize_refusal() is None <==> s.admin is None
        }),
{
}

/// What a registration does: the referral is remembered as not completed, the
/// referrer's count of all time rises by one, and so does that of the epoch, which
/// the leaderboard follows. No reward, and no other count or referral, changes.
pub proof fn law_registration(
    s: ReferralState,
    ctx: Context,
    referrer: Address,
    referee: Address,
    is_mentor: bool,
)
    requires
        s.register_refusal(ctx, referrer, referee) is None,
    ensures
        ({
            let t = s.registered(ctx, referrer, referee, is_mentor);
            let epoch = (ctx.now / 2_592_000) as u32;
            let info = t.referrals[referee];
            &&& t.referrals == s.referrals.insert(referee, info)
            &&& info.referrer == referrer && !info.completed
            &&& info.referee_type == RefereeType::Mentor <==> is_mentor
            &&& forall|a: Address| #[trigger]
                at_or(t.referrer_counts, a, 0) == at_or(s.referrer_counts, a, 0) + (if a
                    == referrer {
                    1int
                } else {
                    0
                })
            &&& forall|e: u32, a: Address| #[trigger]
                at_or(t.epoch_counts, (e, a), 0) == at_or(s.epoch_counts, (e, a), 0) + (if e
                    == epoch && a == referrer {
                    1int
                } else {
                    0
                })
            &&& t.leaderboards == s.leaderboards.insert(
                epoch,
                recorded(s.board(epoch), referrer, t.epoch_counts[(epoch, referrer)]),
            )
            &&& t.effects == s.effects + seq![
                Effect::Registered {
                    referrer,
                    data: ReferralRegisteredEventData { referee, is_mentor },
                },
            ]
            &&& t.admin == s.admin && t.mnt_token == s.mnt_token
            &&& t.pending_rewards == s.pending_rewards
            &&& t.bonus_distributed == s.bonus_distributed
        }),
{
    let t = s.registered(ctx, referrer, referee, is_mentor);
    assert(t.effects =~= s.effects + seq![
        Effect::Registered { referrer, data: ReferralRegisteredEventData { referee, is_mentor } },
    ]);
}

/// What a completion does, and when: the admin completes a referral that is not, and
/// its referrer, and nobody else, then has 50 tokens of seven decimals more pending
/// for a mentor, 20 for a learner.
pub proof fn law_completion(s: ReferralState, ctx: Context, referee: Address)
    ensures
        ({
            let f = s.fulfill_refusal(ctx, referee);
            let info = s.referrals[referee];
            let t = s.fulfilled(referee);
            let signed = s.admin is Some && ctx.authorized@.contains(s.admin->0);
            let reward = if info.referee_type == RefereeType::Mentor {
                500_000_000int
            } else {
                200_000_000
            };
            &&& f is None <==> signed && s.referrals.contains_key(referee) && !info.completed
                && at_or(s.pending_rewards, info.referrer, 0) + reward <= i128::MAX
            &&& f == Some(Failure::<Refusal>::Error(Refusal::ReferralNotFound)) <==> signed
                && !s.referrals.contains_key(referee)
            &&& f == Some(Failure::<Refusal>::Error(Refusal::AlreadyCompleted)) <==> signed
                && s.referrals.contains_key(referee) && info.completed
            &&& f is None ==> {
                &&& forall|a: Address| #[trigger]
                    at_or(t.pending_rewards, a, 0) == at_or(s.pending_rewards, a, 0) + (if a
                        == info.referrer {
                        reward
                    } else {
                        0
                    })
                &&& t.referrals == s.referrals.insert(
                    referee,
                    ReferralInfo { completed: true, ..info },
                )
                &&& t == (ReferralState {
                    referrals: t.referrals,
                    pending_rewards: t.pending_rewards,
                    ..s
                })
            }
        }),
{
}

/// What a claim pays, and when: somebody who consents and has rewards pending is
/// minted these times what its place on the leaderboard of the running epoch is
/// worth, and then has none. Nobody else's change.
pub proof fn law_claim(s: ReferralState, ctx: Context, referrer: Address)
    ensures
        ({
            let f = s.claim_refusal(ctx, referrer);
            let t = s.claimed(ctx, referrer);
            let epoch = (ctx.now / 2_592_000) as u32;
            let board = if s.leaderboards.contains_key(epoch) {
                s.leaderboards[epoch]
            } else {
                Seq::empty()
            };
            let pending = if s.pending_rewards.contains_key(referrer) {
                s.pending_rewards[referrer] as int
            } else {
                0
            };
            let total = pending * multiplier_of(board, referrer);
            let signed = ctx.authorized@.contains(referrer);
            &&& f is None <==> signed && pending > 0 && total <= i128::MAX && s.mnt_token is Some
            &&& f == Some(Failure::<Refusal>::Unauthorized) <==> !signed
            &&& f == Some(Failure::<Refusal>::Error(Refusal::NoRewards)) <==> signed && pending <= 0
            &&& f is None ==> {
                &&& t.pending_rewards == s.pending_rewards.insert(referrer, 0)
                &&& t.effects == s.effects + seq![
                    Effect::Mint {
                        token: s.mnt_token->0,
                        to: referrer,
                        amount: total as i128,
                    },
                    Effect::RewardClaimed {
                        referrer,
                        data: RewardClaimedEventData { amount: total as i128 },
                    },
                ]
                &&& i128::MIN <= total
                &&& t == (ReferralState {
                    pending_rewards: t.pending_rewards,
                    effects: t.effects,
                    ..s
                })
            }
        }),
{
    let t = s.claimed(ctx, referrer);
    let total = s.claim_total(ctx, referrer);
    let m = multiplier_of(s.board(epoch_of(ctx.now)), referrer);
    let pending = at_or(s.pending_rewards, referrer, 0);
    assert(pending > 0 ==> pending * m >= 0) by (nonlinear_arith)
        requires
            m >= 0,
    ;
    assert(t.effects =~= s.effects + seq![
        Effect::Mint { token: s.mnt_token->0, to: referrer, amount: total as i128 },
        Effect::RewardClaimed { referrer, data: RewardClaimedEventData { amount: total as i128 } },
    ]);
}

/// What the bonus of an epoch is, and when: the admin has 100 tokens minted to each
/// of the first three, or as many as there are, of the epoch before the running one;
/// once.
pub proof fn law_bonus(s: ReferralState, ctx: Context)
    ensures
        ({
            let f = s.bonus_refusal(ctx);
            let t = s.bonus_paid(ctx);
            let epoch = (ctx.now / 2_592_000) as u32;
            let before = (epoch - 1) as u32;
            let board = if s.leaderboards.contains_key(before) {
                s.leaderboards[before]
            } else {
                Seq::empty()
            };
            let signed = s.admin is Some && ctx.authorized@.contains(s.admin->0);
            let paid = s.bonus_distributed.contains_key(before) && s.bonus_distributed[before];
            let n = s.effects.len() as int;
            &&& f is None <==> signed && epoch > 0 && !paid && s.mnt_token is Some
            &&& f == Some(Failure::<Refusal>::Error(Refusal::NoPreviousEpoch)) <==> signed && epoch
                == 0
            &&& f == Some(Failure::<Refusal>::Error(Refusal::BonusDistributed)) <==> signed && epoch
                > 0 && paid
            &&& f is None ==> {
                &&& t.bonus_distributed == s.bonus_distributed.insert(before, true)
                &&& t.effects.len() == n + (if board.len() < 3 {
                    board.len() as int
                } else {
                    3
                })
                &&& t.effects.take(n) == s.effects
                &&& forall|i: int|
                    n <= i < t.effects.len() ==> #[trigger] t.effects[i] == (Effect::Mint {
                        token: s.mnt_token->0,
                        to: board[i - n].0,
                        amount: 1_000_000_000,
                    })
                &&& t == (ReferralState {
                    bonus_distributed: t.bonus_distributed,
                    effects: t.effects,
                    ..s
                })
            }
        }),
{
    let t = s.bonus_paid(ctx);
    assert(t.effects.take(s.effects.len() as int) =~= s.effects);
}

/// Admin and token are named once, and are then those that were named.
pub proof fn law_naming_the_admin(s: ReferralState, admin: Address, mnt_token: Address)
    ensures
        s.initialize_refusal() is None <==> s.admin is None,
        s.initialized(admin, mnt_token) == (ReferralState {
            admin: Some(admin),
            mnt_token: Some(mnt_token),
            ..s
        }),
{
}

} // verus!
