//! Bundles of completed sessions as tokens that can be handed over, redeemed and
//! burned.

use crate::lists::{
    copied, lemma_seqs_empty, lemma_seqs_insert, lemma_without, lemma_without_one, seqs, without,
};
use crate::session_registry::{SessionRecord, SessionStatus};
use crate::table::{at_or, Table};
use crate::types::{Address, Context, Digest, Failure, Symbol};
use vstd::prelude::*;

verus! {

/// Why the contract stops a call.
#[derive(Clone, Copy, Debug, PartialEq, Eq, Structural)]
pub enum Refusal {
    NoSessions,
    SessionNotFound,
    SessionNotCompleted,
    LearnerMismatch,
    DifferentMentors,
    OutOfRange,
    BundleNotFound,
    NotOwner,
    NotTransferable,
    OwnerListNotFound,
    Expired,
    NoSessionsRemaining,
    CannotBurn,
}

impl Refusal {
    /// The reason in words.
    pub open spec fn text(self) -> Seq<char> {
        match self {
            Refusal::NoSessions => "No sessions provided"@,
            Refusal::SessionNotFound => "Session not found"@,
            Refusal::SessionNotCompleted => "Session not completed"@,
            Refusal::LearnerMismatch => "Session learner mismatch"@,
            Refusal::DifferentMentors => "Sessions have different mentors"@,
            Refusal::OutOfRange => "arithmetic out of range"@,
            Refusal::BundleNotFound => "Bundle not found"@,
            Refusal::NotOwner => "Not the owner"@,
            Refusal::NotTransferable => "Not transferable"@,
            Refusal::OwnerListNotFound => "Owner list not found"@,
            Refusal::Expired => "Expired"@,
            Refusal::NoSessionsRemaining => "No sessions remaining"@,
            Refusal::CannotBurn => "Cannot burn: neither expired nor empty"@,
        }
    }

    /// The reason in words.
    pub fn message(&self) -> (m: &'static str)
        ensures
            m@ == self.text(),
    {
        match self {
            Refusal::NoSessions => "No sessions provided",
            Refusal::SessionNotFound => "Session not found",
            Refusal::SessionNotCompleted => "Session not completed",
            Refusal::LearnerMismatch => "Session learner mismatch",
            Refusal::DifferentMentors => "Sessions have different mentors",
            Refusal::OutOfRange => "arithmetic out of range",
            Refusal::BundleNotFound => "Bundle not found",
            Refusal::NotOwner => "Not the owner",
            Refusal::NotTransferable => "Not transferable",
            Refusal::OwnerListNotFound => "Owner list not found",
            Refusal::Expired => "Expired",
            Refusal::NoSessionsRemaining => "No sessions remaining",
            Refusal::CannotBurn => "Cannot burn: neither expired nor empty",
        }
    }
}

/// A bundle of sessions with one mentor, as a token.
#[derive(Clone, Copy, Debug, PartialEq, Eq, Structural)]
pub struct BundleNFT {
    pub token_id: u64,
    pub owner: Address,
    pub mentor: Address,
    pub sessions_total: u32,
    pub sessions_remaining: u32,
    pub expiry: u64,
    pub transferable: bool,
}

/// What is published of a new bundle.
#[derive(Clone, Copy, Debug, PartialEq, Eq, Structural)]
pub struct NFTMintedEvent {
    pub nft_id: u64,
    pub learner: Address,
    pub session_count: u32,
    pub session_ids_hash: Digest,
}

/// What a call asks of the ledger, in order.
#[derive(Clone, Copy, Debug, PartialEq, Eq, Structural)]
pub enum Effect {
    Minted { token_id: u64, event: NFTMintedEvent },
    Transferred { token_id: u64, from: Address, to: Address },
    Redeemed { token_id: u64, holder: Address, sessions_remaining: u32 },
    SessionDue { mentor: Address, holder: Address, at: u64 },
    Burned { token_id: u64, holder: Address },
}

/// The contract's storage as a mathematical value.
#[verifier::ext_equal]
pub struct BundleState {
    pub token_id_counter: u64,
    pub bundles: Map<u64, BundleNFT>,
    pub minted_at: Map<u64, u64>,
    pub owner_bundles: Map<Address, Seq<u64>>,
    pub bundled_sessions: Map<u64, Seq<Symbol>>,
    pub effects: Seq<Effect>,
}

/// The contract of session bundles.
pub struct SessionBundleNFT {
    /// Number of the last token minted.
    pub token_id_counter: u64,
    pub bundles: Table<u64, BundleNFT>,
    /// When a bundle was minted.
    pub minted_at: Table<u64, u64>,
    /// The tokens of an owner.
    pub owner_bundles: Table<Address, Vec<u64>>,
    /// The sessions behind a token.
    pub bundled_sessions: Table<u64, Vec<Symbol>>,
    /// What the calls so far ask of the ledger.
    pub effects: Vec<Effect>,
}

impl View for SessionBundleNFT {
    type V = BundleState;

    open spec fn view(&self) -> BundleState {
        BundleState {
            token_id_counter: self.token_id_counter,
            bundles: self.bundles@,
            minted_at: self.minted_at@,
            owner_bundles: seqs(self.owner_bundles@),
            bundled_sessions: seqs(self.bundled_sessions@),
            effects: self.effects@,
        }
    }
}

/// Why a session cannot go into a bundle of `learner` with `mentor`.
pub open spec fn session_fault(
    registry: Map<Symbol, SessionRecord>,
    learner: Address,
    mentor: Address,
    id: Symbol,
) -> Option<Refusal> {
    if !registry.contains_key(id) {
        Some(Refusal::SessionNotFound)
    } else if registry[id].status != SessionStatus::Completed {
        Some(Refusal::SessionNotCompleted)
    } else if registry[id].learner != learner {
        Some(Refusal::LearnerMismatch)
    } else if registry[id].mentor != mentor {
        Some(Refusal::DifferentMentors)
    } else {
        None
    }
}

/// What is wrong with the first session that cannot go into a bundle.
pub open spec fn first_fault(
    registry: Map<Symbol, SessionRecord>,
    learner: Address,
    ids: Seq<Symbol>,
) -> Option<Refusal>
    decreases ids.len(),
{
    if ids.len() == 0 {
        None
    } else {
        let early = first_fault(registry, learner, ids.drop_last());
        if early is Some {
            early
        } else {
            session_fault(registry, learner, registry[ids[0]].mentor, ids.last())
        }
    }
}

/// Whether every session is still completed, or that the registry does not know
/// one before which all are.
pub open spec fn provenance(registry: Map<Symbol, SessionRecord>, ids: Seq<Symbol>) -> Result<
    bool,
    Failure<Refusal>,
>
    decreases ids.len(),
{
    if ids.len() == 0 {
        Ok(true)
    } else {
        let early = provenance(registry, ids.drop_last());
        if early != Ok::<bool, Failure<Refusal>>(true) {
            early
        } else if !registry.contains_key(ids.last()) {
            Err(Failure::Error(Refusal::SessionNotFound))
        } else {
            Ok(registry[ids.last()].status == SessionStatus::Completed)
        }
    }
}

/// The bundles under the given numbers, as far as they exist.
pub open spec fn listed(bundles: Map<u64, BundleNFT>, ids: Seq<u64>) -> Seq<BundleNFT>
    decreases ids.len(),
{
    if ids.len() == 0 {
        Seq::empty()
    } else {
        let front = listed(bundles, ids.drop_last());
        if bundles.contains_key(ids.last()) {
            front.push(bundles[ids.last()])
        } else {
            front
        }
    }
}

impl BundleState {
    /// The storage of a contract that was just deployed.
    pub open spec fn fresh() -> BundleState {
        BundleState {
            token_id_counter: 0,
            bundles: Map::empty(),
            minted_at: Map::empty(),
            owner_bundles: Map::empty(),
            bundled_sessions: Map::empty(),
            effects: Seq::empty(),
        }
    }

    pub open spec fn mint_refusal(
        self,
        ctx: Context,
        learner: Address,
        registry: Map<Symbol, SessionRecord>,
        ids: Seq<Symbol>,
    ) -> Option<Failure<Refusal>> {
        let fault = first_fault(registry, learner, ids);
        if !ctx.authorizes(learner) {
            Some(Failure::Unauthorized)
        } else if ids.len() == 0 {
            Some(Failure::Error(Refusal::NoSessions))
        } else if fault is Some {
            Some(Failure::Error(fault->0))
        } else if ids.len() > u32::MAX || self.token_id_counter == u64::MAX {
            Some(Failure::Error(Refusal::OutOfRange))
        } else {
            None
        }
    }

    /// The learner owns the next token, on all of the sessions.
    pub open spec fn minted(
        self,
        ctx: Context,
        learner: Address,
        registry: Map<Symbol, SessionRecord>,
        ids: Seq<Symbol>,
        session_ids_hash: Digest,
        expiry: u64,
    ) -> BundleState {
        let id = (self.token_id_counter + 1) as u64;
        let count = ids.len() as u32;
        BundleState {
            token_id_counter: id,
            bundles: self.bundles.insert(
                id,
                BundleNFT {
                    token_id: id,
                    owner: learner,
                    mentor: registry[ids[0]].mentor,
                    sessions_total: count,
                    sessions_remaining: count,
                    expiry,
                    transferable: true,
                },
            ),
            minted_at: self.minted_at.insert(id, ctx.now),
            owner_bundles: self.owner_bundles.insert(
                learner,
                at_or(self.owner_bundles, learner, Seq::empty()).push(id),
            ),
            bundled_sessions: self.bundled_sessions.insert(id, ids),
            effects: self.effects.push(
                Effect::Minted {
                    token_id: id,
                    event: NFTMintedEvent {
                        nft_id: id,
                        learner,
                        session_count: count,
                        session_ids_hash,
                    },
                },
            ),
        }
    }

    /// Only the owner of a bundle may act on it.
    pub open spec fn holder_refusal(self, ctx: Context, holder: Address, id: u64) -> Option<
        Failure<Refusal>,
    > {
        if !ctx.authorizes(holder) {
            Some(Failure::Unauthorized)
        } else if !self.bundles.contains_key(id) {
            Some(Failure::Error(Refusal::BundleNotFound))
        } else if self.bundles[id].owner != holder {
            Some(Failure::Error(Refusal::NotOwner))
        } else {
            None
        }
    }

    pub open spec fn transfer_refusal(self, ctx: Context, from: Address, id: u64) -> Option<
        Failure<Refusal>,
    > {
        let early = self.holder_refusal(ctx, from, id);
        if early is Some {
            early
        } else if !self.bundles[id].transferable {
            Some(Failure::Error(Refusal::NotTransferable))
        } else if !self.owner_bundles.contains_key(from) {
            Some(Failure::Error(Refusal::OwnerListNotFound))
        } else {
            None
        }
    }

    /// The token goes from the list of one owner to the end of the other's.
    pub open spec fn transferred(self, from: Address, to: Address, id: u64) -> BundleState {
        let taken = self.owner_bundles.insert(from, without(self.owner_bundles[from], id));
        BundleState {
            bundles: self.bundles.insert(id, BundleNFT { owner: to, ..self.bundles[id] }),
            owner_bundles: taken.insert(to, at_or(taken, to, Seq::empty()).push(id)),
            effects: self.effects.push(Effect::Transferred { token_id: id, from, to }),
            ..self
        }
    }

    /// A bundle cannot be redeemed after its expiry, unless it had expired
    /// already when it was minted: such an expiry does not bind.
    pub open spec fn is_expired(self, ctx: Context, id: u64) -> bool {
        ctx.now > self.bundles[id].expiry && at_or(self.minted_at, id, 0)
            <= self.bundles[id].expiry
    }

    pub open spec fn redeem_refusal(self, ctx: Context, holder: Address, id: u64) -> Option<
        Failure<Refusal>,
    > {
        let early = self.holder_refusal(ctx, holder, id);
        if early is Some {
            early
        } else if self.is_expired(ctx, id) {
            Some(Failure::Error(Refusal::Expired))
        } else if self.bundles[id].sessions_remaining == 0 {
            Some(Failure::Error(Refusal::NoSessionsRemaining))
        } else {
            None
        }
    }

    /// One session less remains, and the mentor owes one.
    pub open spec fn redeemed(self, ctx: Context, holder: Address, id: u64) -> BundleState {
        let bundle = self.bundles[id];
        let remaining = (bundle.sessions_remaining - 1) as u32;
        BundleState {
            bundles: self.bundles.insert(
                id,
                BundleNFT { sessions_remaining: remaining, ..bundle },
            ),
            effects: self.effects.push(
                Effect::Redeemed { token_id: id, holder, sessions_remaining: remaining },
            ).push(Effect::SessionDue { mentor: bundle.mentor, holder, at: ctx.now }),
            ..self
        }
    }

    pub open spec fn burn_refusal(self, ctx: Context, holder: Address, id: u64) -> Option<
        Failure<Refusal>,
    > {
        let early = self.holder_refusal(ctx, holder, id);
        if early is Some {
            early
        } else if ctx.now <= self.bundles[id].expiry && self.bundles[id].sessions_remaining != 0 {
            Some(Failure::Error(Refusal::CannotBurn))
        } else {
            None
        }
    }

    /// Nothing is left of the token.
    pub open spec fn burned(self, holder: Address, id: u64) -> BundleState {
        BundleState {
            bundles: self.bundles.remove(id),
            minted_at: self.minted_at.remove(id),
            owner_bundles: if self.owner_bundles.contains_key(holder) {
                self.owner_bundles.insert(holder, without(self.owner_bundles[holder], id))
            } else {
                self.owner_bundles
            },
            bundled_sessions: self.bundled_sessions.remove(id),
            effects: self.effects.push(Effect::Burned { token_id: id, holder }),
            ..self
        }
    }
}

/// The list without `id`.
fn drop_id(list: &Vec<u64>, id: u64) -> (rest: Vec<u64>)
    ensures
        rest@ == without(list@, id),
{
    let mut rest: Vec<u64> = Vec::new();
    let n: usize = list.len();
    proof {
        reveal(Seq::filter);
    }
    for i in 0..n
        invariant
            n == list@.len(),
            rest@ == without(list@.take(i as int), id),
    {
        proof {
            reveal(Seq::filter);
            assert(list@.take(i + 1).drop_last() =~= list@.take(i as int));
        }
        if list[i] != id {
            rest.push(list[i]);
        }
    }
    assert(list@.take(n as int) =~= list@);
    rest
}

impl SessionBundleNFT {
    /// A contract with empty storage.
    pub fn new() -> (contract: SessionBundleNFT)
        ensures
            contract@ == BundleState::fresh(),
            contract@.valid(),
    {
        proof {
            law_fresh_is_valid();
        }
        proof {
            lemma_seqs_empty::<Address, u64>();
            lemma_seqs_empty::<u64, Symbol>();
        }
        SessionBundleNFT {
            token_id_counter: 0,
            bundles: Table::new(),
            minted_at: Table::new(),
            owner_bundles: Table::new(),
            bundled_sessions: Table::new(),
            effects: Vec::new(),
        }
    }

    /// Finds the mentor of sessions that can all go into one bundle, or what is
    /// wrong with the first that cannot.
    fn common_mentor(
        learner: Address,
        registry: &Table<Symbol, SessionRecord>,
        ids: &Vec<Symbol>,
    ) -> (mentor: Result<Option<Address>, Refusal>)
        ensures
            match mentor {
                Ok(m) => first_fault(registry@, learner, ids@) is None && (m is Some <==> ids@.len()
                    > 0) && (m is Some ==> m == Some(registry@[ids@[0]].mentor)),
                Err(r) => first_fault(registry@, learner, ids@) == Some(r),
            },
    {
        let mut mentor: Option<Address> = None;
        let n: usize = ids.len();
        for i in 0..n
            invariant
                n == ids@.len(),
                first_fault(registry@, learner, ids@.take(i as int)) is None,
                mentor is Some <==> i > 0,
                mentor is Some ==> mentor == Some(registry@[ids@[0]].mentor),
        {
            let ghost more = ids@.take(i + 1);
            assert(more.drop_last() =~= ids@.take(i as int));
            assert(more[0] == ids@[0]);
            let fault: Option<Refusal> = match registry.get(&ids[i]) {
                None => Some(Refusal::SessionNotFound),
                Some(record) => {
                    if record.status != SessionStatus::Completed {
                        Some(Refusal::SessionNotCompleted)
                    } else if record.learner != learner {
                        Some(Refusal::LearnerMismatch)
                    } else {
                        let differs: bool = match mentor {
                            Some(m) => m != record.mentor,
                            None => false,
                        };
                        mentor = Some(record.mentor);
                        if differs {
                            Some(Refusal::DifferentMentors)
                        } else {
                            None
                        }
                    }
                },
            };
            match fault {
                Some(r) => {
                    proof {
                        lemma_fault_stays(registry@, learner, ids@, i + 1);
                    }
                    return Err(r);
                },
                None => {},
            }
        }
        assert(ids@.take(n as int) =~= ids@);
        Ok(mentor)
    }

    /// Mints a bundle of completed sessions of the learner with one mentor, and
    /// gives its number. `registry` holds what the session registry knows of
    /// them.
    pub fn mint_bundle(
        &mut self,
        ctx: &Context,
        learner: Address,
        registry: &Table<Symbol, SessionRecord>,
        session_ids: Vec<Symbol>,
        session_ids_hash: Digest,
        expiry: u64,
    ) -> (done: Result<u64, Failure<Refusal>>)
        ensures
            ({
                let refusal = old(self)@.mint_refusal(*ctx, learner, registry@, session_ids@);
                match done {
                    Ok(id) => refusal is None && id == old(self)@.token_id_counter + 1 && final(
                        self)@ == old(self)@.minted(
                        *ctx,
                        learner,
                        registry@,
                        session_ids@,
                        session_ids_hash,
                        expiry,
                    ),
                    Err(f) => refusal == Some(f) && final(self)@ == old(self)@,
                }
            }),
            old(self)@.valid() ==> final(self)@.valid(),
    {
        let ghost ids = session_ids@;
        if !ctx.has_auth(learner) {
            return Err(Failure::Unauthorized);
        }
        if session_ids.len() == 0 {
            return Err(Failure::Error(Refusal::NoSessions));
        }
        let mentor: Address = match Self::common_mentor(learner, registry, &session_ids) {
            Ok(Some(m)) => m,
            Ok(None) => {
                return Err(Failure::Error(Refusal::NoSessions));
            },
            Err(r) => {
                return Err(Failure::Error(r));
            },
        };
        if session_ids.len() as u64 > u32::MAX as u64 || self.token_id_counter == u64::MAX {
            return Err(Failure::Error(Refusal::OutOfRange));
        }
        let count: u32 = session_ids.len() as u32;
        let token_id: u64 = self.token_id_counter + 1;
        self.token_id_counter = token_id;
        self.bundles.set(
            token_id,
            BundleNFT {
                token_id,
                owner: learner,
                mentor,
                sessions_total: count,
                sessions_remaining: count,
                expiry,
                transferable: true,
            },
        );
        self.minted_at.set(token_id, ctx.now);
        proof {
            lemma_seqs_insert(self.bundled_sessions@, token_id, session_ids);
        }
        self.bundled_sessions.set(token_id, session_ids);
        self.append_to_owner(learner, token_id);
        self.effects.push(
            Effect::Minted {
                token_id,
                event: NFTMintedEvent {
                    nft_id: token_id,
                    learner,
                    session_count: count,
                    session_ids_hash,
                },
            },
        );
        proof {
            if old(self)@.valid() {
                law_mint_keeps_valid(
                    old(self)@,
                    *ctx,
                    learner,
                    registry@,
                    ids,
                    session_ids_hash,
                    expiry,
                );
            }
        }
        Ok(token_id)
    }

    /// Puts a token at the end of an owner's list.
    fn append_to_owner(&mut self, owner: Address, token_id: u64)
        ensures
            final(self)@ == (BundleState {
                owner_bundles: old(self)@.owner_bundles.insert(
                    owner,
                    at_or(old(self)@.owner_bundles, owner, Seq::empty()).push(token_id),
                ),
                ..old(self)@
            }),
    {
        let ghost before = self.owner_bundles@;
        let mut list: Vec<u64> = match self.owner_bundles.remove(&owner) {
            Some(list) => list,
            None => Vec::new(),
        };
        assert(list@ =~= at_or(seqs(before), owner, Seq::empty()));
        list.push(token_id);
        proof {
            lemma_seqs_insert(before, owner, list);
        }
        self.owner_bundles.set(owner, list);
    }

    /// Takes a token out of an owner's list, where there is one.
    fn remove_from_owner(&mut self, owner: Address, token_id: u64) -> (found: bool)
        ensures
            found == old(self)@.owner_bundles.contains_key(owner),
            final(self)@ == (BundleState {
                owner_bundles: if found {
                    old(self)@.owner_bundles.insert(
                        owner,
                        without(old(self)@.owner_bundles[owner], token_id),
                    )
                } else {
                    old(self)@.owner_bundles
                },
                ..old(self)@
            }),
    {
        match self.owner_bundles.get(&owner) {
            Some(list) => {
                let rest: Vec<u64> = drop_id(list, token_id);
                proof {
                    lemma_seqs_insert(self.owner_bundles@, owner, rest);
                }
                self.owner_bundles.set(owner, rest);
                true
            },
            None => false,
        }
    }

    /// The bundle, where the holder consented and owns it.
    fn held_bundle(&self, ctx: &Context, holder: Address, token_id: u64) -> (found: Result<
        BundleNFT,
        Failure<Refusal>,
    >)
        ensures
            match found {
                Ok(b) => self@.holder_refusal(*ctx, holder, token_id) is None && b
                    == self@.bundles[token_id],
                Err(f) => self@.holder_refusal(*ctx, holder, token_id) == Some(f),
            },
    {
        if !ctx.has_auth(holder) {
            return Err(Failure::Unauthorized);
        }
        match self.bundles.get(&token_id) {
            None => Err(Failure::Error(Refusal::BundleNotFound)),
            Some(bundle) => if bundle.owner != holder {
                Err(Failure::Error(Refusal::NotOwner))
            } else {
                Ok(*bundle)
            },
        }
    }

    /// Hands a bundle over to another owner.
    pub fn transfer(&mut self, ctx: &Context, from: Address, to: Address, token_id: u64) -> (done:
        Result<(), Failure<Refusal>>)
        ensures
            match done {
                Ok(()) => old(self)@.transfer_refusal(*ctx, from, token_id) is None && final(self)@
                    == old(self)@.transferred(from, to, token_id),
                Err(f) => old(self)@.transfer_refusal(*ctx, from, token_id) == Some(f) && final(
                    self)@ == old(self)@,
            },
            old(self)@.valid() ==> final(self)@.valid(),
    {
        let mut bundle: BundleNFT = match self.held_bundle(ctx, from, token_id) {
            Ok(b) => b,
            Err(f) => {
                return Err(f);
            },
        };
        if !bundle.transferable {
            return Err(Failure::Error(Refusal::NotTransferable));
        }
        if !self.remove_from_owner(from, token_id) {
            return Err(Failure::Error(Refusal::OwnerListNotFound));
        }
        self.append_to_owner(to, token_id);
        bundle.owner = to;
        self.bundles.set(token_id, bundle);
        self.effects.push(Effect::Transferred { token_id, from, to });
        proof {
            if old(self)@.valid() {
                law_transfer_keeps_valid(old(self)@, *ctx, from, to, token_id);
            }
        }
        Ok(())
    }

    /// Redeems one session of a bundle.
    pub fn redeem(&mut self, ctx: &Context, holder: Address, token_id: u64) -> (done: Result<
        (),
        Failure<Refusal>,
    >)
        ensures
            match done {
                Ok(()) => old(self)@.redeem_refusal(*ctx, holder, token_id) is None && final(self)@
                    == old(self)@.redeemed(*ctx, holder, token_id),
                Err(f) => old(self)@.redeem_refusal(*ctx, holder, token_id) == Some(f) && final(
                    self)@ == old(self)@,
            },
            old(self)@.valid() ==> final(self)@.valid(),
    {
        let mut bundle: BundleNFT = match self.held_bundle(ctx, holder, token_id) {
            Ok(b) => b,
            Err(f) => {
                return Err(f);
            },
        };
        let minted_at: u64 = match self.minted_at.get(&token_id) {
            Some(t) => *t,
            None => 0,
        };
        if ctx.now > bundle.expiry && minted_at <= bundle.expiry {
            return Err(Failure::Error(Refusal::Expired));
        }
        if bundle.sessions_remaining == 0 {
            return Err(Failure::Error(Refusal::NoSessionsRemaining));
        }
        bundle.sessions_remaining = bundle.sessions_remaining - 1;
        self.bundles.set(token_id, bundle);
        self.effects.push(
            Effect::Redeemed { token_id, holder, sessions_remaining: bundle.sessions_remaining },
        );
        self.effects.push(Effect::SessionDue { mentor: bundle.mentor, holder, at: ctx.now });
        proof {
            if old(self)@.valid() {
                law_redeem_keeps_valid(old(self)@, *ctx, holder, token_id);
            }
        }
        Ok(())
    }

    /// Removes a bundle whose expiry has passed or that is used up.
    pub fn burn(&mut self, ctx: &Context, holder: Address, token_id: u64) -> (done: Result<
        (),
        Failure<Refusal>,
    >)
        ensures
            match done {
                Ok(()) => old(self)@.burn_refusal(*ctx, holder, token_id) is None && final(self)@
                    == old(self)@.burned(holder, token_id),
                Err(f) => old(self)@.burn_refusal(*ctx, holder, token_id) == Some(f) && final(
                    self)@ == old(self)@,
            },
            old(self)@.valid() ==> final(self)@.valid(),
    {
        let bundle: BundleNFT = match self.held_bundle(ctx, holder, token_id) {
            Ok(b) => b,
            Err(f) => {
                return Err(f);
            },
        };
        if ctx.now <= bundle.expiry && bundle.sessions_remaining != 0 {
            return Err(Failure::Error(Refusal::CannotBurn));
        }
        self.remove_from_owner(holder, token_id);
        self.bundles.remove(&token_id);
        self.minted_at.remove(&token_id);
        let ghost sessions = self.bundled_sessions@;
        self.bundled_sessions.remove(&token_id);
        assert(seqs(self.bundled_sessions@) =~= seqs(sessions).remove(token_id));
        self.effects.push(Effect::Burned { token_id, holder });
        proof {
            if old(self)@.valid() {
                law_burn_keeps_valid(old(self)@, *ctx, holder, token_id);
            }
        }
        Ok(())
    }

    /// Whether all sessions behind a token are still completed, by what the
    /// session registry knows of them.
    pub fn verify_nft_provenance(&self, nft_id: u64, registry: &Table<Symbol, SessionRecord>) -> (
    proven: Result<bool, Failure<Refusal>>)
        ensures
            proven == (if self@.bundled_sessions.contains_key(nft_id) {
                provenance(registry@, self@.bundled_sessions[nft_id])
            } else {
                Ok(false)
            }),
    {
        let ids: &Vec<Symbol> = match self.bundled_sessions.get(&nft_id) {
            Some(ids) => ids,
            None => {
                return Ok(false);
            },
        };
        let n: usize = ids.len();
        for i in 0..n
            invariant
                n == ids@.len(),
                self@.bundled_sessions.contains_key(nft_id),
                ids@ == self@.bundled_sessions[nft_id],
                provenance(registry@, ids@.take(i as int)) == Ok::<bool, Failure<Refusal>>(true),
        {
            let ghost more = ids@.take(i + 1);
            assert(more.drop_last() =~= ids@.take(i as int));
            proof {
                lemma_provenance_stays(registry@, ids@, i + 1);
            }
            match registry.get(&ids[i]) {
                None => {
                    return Err(Failure::Error(Refusal::SessionNotFound));
                },
                Some(record) => {
                    if record.status != SessionStatus::Completed {
                        return Ok(false);
                    }
                },
            }
        }
        assert(ids@.take(n as int) =~= ids@);
        Ok(true)
    }

    /// A bundle.
    pub fn get_bundle(&self, token_id: u64) -> (found: Result<BundleNFT, Failure<Refusal>>)
        ensures
            match found {
                Ok(b) => self@.bundles.contains_key(token_id) && b == self@.bundles[token_id],
                Err(f) => !self@.bundles.contains_key(token_id) && f == Failure::Error(
                    Refusal::BundleNotFound,
                ),
            },
    {
        match self.bundles.get(&token_id) {
            Some(b) => Ok(*b),
            None => Err(Failure::Error(Refusal::BundleNotFound)),
        }
    }

    /// The bundles of an owner.
    pub fn get_bundles_by_owner(&self, owner: Address) -> (bundles: Vec<BundleNFT>)
        ensures
            bundles@ == listed(self@.bundles, at_or(self@.owner_bundles, owner, Seq::empty())),
    {
        let mut bundles: Vec<BundleNFT> = Vec::new();
        match self.owner_bundles.get(&owner) {
            Some(ids) => {
                let n: usize = ids.len();
                for i in 0..n
                    invariant
                        n == ids@.len(),
                        bundles@ == listed(self@.bundles, ids@.take(i as int)),
                {
                    let ghost more = ids@.take(i + 1);
                    assert(more.drop_last() =~= ids@.take(i as int));
                    match self.bundles.get(&ids[i]) {
                        Some(b) => {
                            bundles.push(*b);
                        },
                        None => {},
                    }
                }
                assert(ids@.take(n as int) =~= ids@);
            },
            None => {},
        }
        bundles
    }

    /// The sessions behind a token.
    pub fn get_bundled_sessions(&self, token_id: u64) -> (ids: Vec<Symbol>)
        ensures
            ids@ == at_or(self@.bundled_sessions, token_id, Seq::empty()),
    {
        match self.bundled_sessions.get(&token_id) {
            Some(ids) => copied(ids),
            None => Vec::new(),
        }
    }
}

/// What is wrong with the first sessions is wrong with all of them.
proof fn lemma_fault_stays(
    registry: Map<Symbol, SessionRecord>,
    learner: Address,
    ids: Seq<Symbol>,
    n: int,
)
    requires
        0 <= n <= ids.len(),
        first_fault(registry, learner, ids.take(n)) is Some,
    ensures
        first_fault(registry, learner, ids) == first_fault(registry, learner, ids.take(n)),
    decreases ids.len(),
{
    if n == ids.len() {
        assert(ids.take(n) =~= ids);
    } else {
        assert(ids.drop_last().take(n) =~= ids.take(n));
        lemma_fault_stays(registry, learner, ids.drop_last(), n);
    }
}

/// What the first sessions fail to prove, all of them fail to prove.
proof fn lemma_provenance_stays(registry: Map<Symbol, SessionRecord>, ids: Seq<Symbol>, n: int)
    requires
        0 <= n <= ids.len(),
    ensures
        provenance(registry, ids.take(n)) != Ok::<bool, Failure<Refusal>>(true) ==> provenance(
            registry,
            ids,
        ) == provenance(registry, ids.take(n)),
    decreases ids.len(),
{
    if n == ids.len() {
        assert(ids.take(n) =~= ids);
    } else {
        assert(ids.drop_last().take(n) =~= ids.take(n));
        lemma_provenance_stays(registry, ids.drop_last(), n);
    }
}

impl BundleState {
    /// What holds of the storage between calls: tokens are numbered from one up
    /// to the counter, each stands for as many sessions as it was minted on, no
    /// more remain than there were, and the owners' lists hold exactly the
    /// tokens of each owner, once.
    pub open spec fn valid(self) -> bool {
        &&& self.minted_at.dom() == self.bundles.dom()
        &&& self.bundled_sessions.dom() == self.bundles.dom()
        &&& forall|id: u64| #[trigger]
            self.bundles.contains_key(id) ==> self.valid_bundle(id, self.bundles[id])
        &&& forall|who: Address| self.valid_list(who, #[trigger] self.list_of(who))
    }

    /// The tokens of an owner.
    pub open spec fn list_of(self, who: Address) -> Seq<u64> {
        at_or(self.owner_bundles, who, Seq::empty())
    }

    pub open spec fn valid_bundle(self, id: u64, b: BundleNFT) -> bool {
        &&& b.token_id == id
        &&& 1 <= id <= self.token_id_counter
        &&& 0 < b.sessions_total
        &&& b.sessions_remaining <= b.sessions_total
        &&& self.bundled_sessions[id].len() == b.sessions_total
        &&& b.transferable
    }

    pub open spec fn valid_list(self, who: Address, list: Seq<u64>) -> bool {
        &&& list.no_duplicates()
        &&& forall|id: u64| #[trigger]
            list.contains(id) <==> self.bundles.contains_key(id) && self.bundles[id].owner == who
    }
}

proof fn lemma_push(list: Seq<u64>, id: u64)
    ensures
        forall|x: u64| #[trigger] list.push(id).contains(x) <==> list.contains(x) || x == id,
        list.no_duplicates() && !list.contains(id) ==> list.push(id).no_duplicates(),
{
    let all = list.push(id);
    assert forall|x: u64| #[trigger] all.contains(x) <==> list.contains(x) || x == id by {
        if all.contains(x) {
            let i = choose|i: int| 0 <= i < all.len() && all[i] == x;
            if i < list.len() {
                assert(list[i] == x);
            }
        }
        if list.contains(x) {
            let i = choose|i: int| 0 <= i < list.len() && list[i] == x;
            assert(all[i] == x);
        }
        assert(all[list.len() as int] == id);
    }
}

/// A contract that was just deployed is valid.
pub proof fn law_fresh_is_valid()
    ensures
        BundleState::fresh().valid(),
{
    let s = BundleState::fresh();
    assert(s.minted_at.dom() =~= s.bundles.dom());
    assert(s.bundled_sessions.dom() =~= s.bundles.dom());
}

/// The minting of a bundle keeps the storage valid, and gives a number that no
/// token has.
pub proof fn law_mint_keeps_valid(
    s: BundleState,
    ctx: Context,
    learner: Address,
    registry: Map<Symbol, SessionRecord>,
    ids: Seq<Symbol>,
    session_ids_hash: Digest,
    expiry: u64,
)
    requires
        s.valid(),
        s.mint_refusal(ctx, learner, registry, ids) is None,
    ensures
        ({
            let t = s.minted(ctx, learner, registry, ids, session_ids_hash, expiry);
            &&& t.valid()
            &&& !s.bundles.contains_key(t.token_id_counter)
            &&& t.bundles.remove(t.token_id_counter) == s.bundles
        }),
{
    let t = s.minted(ctx, learner, registry, ids, session_ids_hash, expiry);
    let id = t.token_id_counter;
    assert(!s.bundles.contains_key(id)) by {
        if s.bundles.contains_key(id) {
            assert(s.valid_bundle(id, s.bundles[id]));
        }
    }
    assert(t.bundles.remove(id) =~= s.bundles);
    assert(t.minted_at.dom() =~= t.bundles.dom());
    assert(t.bundled_sessions.dom() =~= t.bundles.dom());
    assert forall|x: u64| #[trigger] t.bundles.contains_key(x) implies t.valid_bundle(
        x,
        t.bundles[x],
    ) by {
        if x != id {
            assert(s.bundles.contains_key(x));
            assert(s.valid_bundle(x, s.bundles[x]));
        }
    }
    assert forall|who: Address| t.valid_list(who, #[trigger] t.list_of(who)) by {
        assert(s.valid_list(who, s.list_of(who)));
        lemma_push(s.list_of(who), id);
        assert(!s.list_of(who).contains(id));
        assert forall|x: u64| #[trigger] t.list_of(who).contains(x) <==> t.bundles.contains_key(x)
            && t.bundles[x].owner == who by {
            assert(s.list_of(who).contains(x) <==> s.bundles.contains_key(x)
                && s.bundles[x].owner == who);
        }
    }
}

/// A transfer keeps the storage valid, is open to every owner, and changes
/// nothing of the bundle but its owner.
pub proof fn law_transfer_keeps_valid(
    s: BundleState,
    ctx: Context,
    from: Address,
    to: Address,
    id: u64,
)
    requires
        s.valid(),
        s.holder_refusal(ctx, from, id) is None,
    ensures
        s.transfer_refusal(ctx, from, id) is None,
        s.transferred(from, to, id).valid(),
        s.transferred(from, to, id).bundles[id] == (BundleNFT { owner: to, ..s.bundles[id] }),
{
    let t = s.transferred(from, to, id);
    assert(s.valid_bundle(id, s.bundles[id]));
    assert(s.valid_list(from, s.list_of(from)));
    assert(s.list_of(from).contains(id));
    let taken = s.owner_bundles.insert(from, without(s.owner_bundles[from], id));
    lemma_without(s.owner_bundles[from], id);
    assert(t.minted_at.dom() =~= t.bundles.dom());
    assert(t.bundled_sessions.dom() =~= t.bundles.dom());
    assert forall|x: u64| #[trigger] t.bundles.contains_key(x) implies t.valid_bundle(
        x,
        t.bundles[x],
    ) by {
        assert(s.bundles.contains_key(x));
        assert(s.valid_bundle(x, s.bundles[x]));
    }
    assert forall|who: Address| t.valid_list(who, #[trigger] t.list_of(who)) by {
        assert(s.valid_list(who, s.list_of(who)));
        let middle = at_or(taken, who, Seq::empty());
        lemma_push(middle, id);
        assert(!middle.contains(id)) by {
            if who != from {
                assert(s.list_of(who).contains(id) ==> s.bundles[id].owner == who);
            }
        }
        assert(t.list_of(who) == (if who == to {
            middle.push(id)
        } else {
            middle
        }));
        assert forall|x: u64| #[trigger] t.list_of(who).contains(x) <==> t.bundles.contains_key(x)
            && t.bundles[x].owner == who by {
            assert(s.list_of(who).contains(x) <==> s.bundles.contains_key(x)
                && s.bundles[x].owner == who);
            assert(middle.contains(x) <==> s.list_of(who).contains(x) && x != id);
        }
    }
}

/// Redeeming keeps the storage valid and takes exactly one session off.
pub proof fn law_redeem_keeps_valid(s: BundleState, ctx: Context, holder: Address, id: u64)
    requires
        s.valid(),
        s.redeem_refusal(ctx, holder, id) is None,
    ensures
        s.redeemed(ctx, holder, id).valid(),
        s.redeemed(ctx, holder, id).bundles[id].sessions_remaining
            == s.bundles[id].sessions_remaining - 1,
        s.redeemed(ctx, holder, id).bundles[id].sessions_total == s.bundles[id].sessions_total,
{
    let t = s.redeemed(ctx, holder, id);
    assert(t.minted_at.dom() =~= t.bundles.dom());
    assert(t.bundled_sessions.dom() =~= t.bundles.dom());
    assert forall|x: u64| #[trigger] t.bundles.contains_key(x) implies t.valid_bundle(
        x,
        t.bundles[x],
    ) by {
        assert(s.bundles.contains_key(x));
        assert(s.valid_bundle(x, s.bundles[x]));
    }
    assert forall|who: Address| t.valid_list(who, #[trigger] t.list_of(who)) by {
        assert(s.valid_list(who, s.list_of(who)));
        assert(t.list_of(who) == s.list_of(who));
        assert forall|x: u64| #[trigger] t.list_of(who).contains(x) <==> t.bundles.contains_key(x)
            && t.bundles[x].owner == who by {
            assert(s.list_of(who).contains(x) <==> s.bundles.contains_key(x)
                && s.bundles[x].owner == who);
        }
    }
}

/// Burning keeps the storage valid and leaves nothing of the token: whatever is
/// asked of it afterwards is refused, and no session is kept behind it.
pub proof fn law_burn_keeps_valid(s: BundleState, ctx: Context, holder: Address, id: u64)
    requires
        s.valid(),
        s.burn_refusal(ctx, holder, id) is None,
    ensures
        ({
            let t = s.burned(holder, id);
            &&& t.valid()
            &&& !t.bundled_sessions.contains_key(id)
            &&& forall|later: Context, who: Address| #[trigger]
                t.holder_refusal(later, who, id) is Some
            &&& forall|later: Context, who: Address| #[trigger]
                t.redeem_refusal(later, who, id) is Some
            &&& forall|later: Context, who: Address| #[trigger]
                t.transfer_refusal(later, who, id) is Some
        }),
{
    let t = s.burned(holder, id);
    assert(t.minted_at.dom() =~= t.bundles.dom());
    assert(t.bundled_sessions.dom() =~= t.bundles.dom());
    assert forall|x: u64| #[trigger] t.bundles.contains_key(x) implies t.valid_bundle(
        x,
        t.bundles[x],
    ) by {
        assert(s.bundles.contains_key(x));
        assert(s.valid_bundle(x, s.bundles[x]));
    }
    assert(s.valid_list(holder, s.list_of(holder)));
    assert(s.list_of(holder).contains(id));
    assert forall|who: Address| t.valid_list(who, #[trigger] t.list_of(who)) by {
        assert(s.valid_list(who, s.list_of(who)));
        lemma_without(s.list_of(who), id);
        assert forall|x: u64| #[trigger] t.list_of(who).contains(x) <==> t.bundles.contains_key(x)
            && t.bundles[x].owner == who by {
            assert(s.list_of(who).contains(x) <==> s.bundles.contains_key(x)
                && s.bundles[x].owner == who);
        }
    }
}

/// A bundle is minted only on sessions that the registry knows as completed, of
/// the learner who mints it, and with one mentor, who is that of the bundle.
pub proof fn law_minted_on_completed_sessions(
    s: BundleState,
    ctx: Context,
    learner: Address,
    registry: Map<Symbol, SessionRecord>,
    ids: Seq<Symbol>,
    session_ids_hash: Digest,
    expiry: u64,
)
    requires
        s.mint_refusal(ctx, learner, registry, ids) is None,
    ensures
        ({
            let t = s.minted(ctx, learner, registry, ids, session_ids_hash, expiry);
            forall|i: int|
                0 <= i < ids.len() ==> {
                    &&& registry.contains_key(#[trigger] ids[i])
                    &&& registry[ids[i]].status == SessionStatus::Completed
                    &&& registry[ids[i]].learner == learner
                    &&& registry[ids[i]].mentor == t.bundles[t.token_id_counter].mentor
                }
        }),
{
    assert forall|i: int| 0 <= i < ids.len() implies session_fault(
        registry,
        learner,
        registry[ids[0]].mentor,
        #[trigger] ids[i],
    ) is None by {
        lemma_faultless(registry, learner, ids, i);
    }
}

proof fn lemma_faultless(
    registry: Map<Symbol, SessionRecord>,
    learner: Address,
    ids: Seq<Symbol>,
    i: int,
)
    requires
        first_fault(registry, learner, ids) is None,
        0 <= i < ids.len(),
    ensures
        session_fault(registry, learner, registry[ids[0]].mentor, ids[i]) is None,
    decreases ids.len(),
{
    if i < ids.len() - 1 {
        lemma_faultless(registry, learner, ids.drop_last(), i);
    }
}

/// A bundle is minted exactly where the learner consented and the sessions are
/// some, all known to the registry, completed, the learner's and with one mentor,
/// as long as their number and that of the token stay in range.
pub proof fn law_mint_is_owed(
    s: BundleState,
    ctx: Context,
    learner: Address,
    registry: Map<Symbol, SessionRecord>,
    ids: Seq<Symbol>,
)
    ensures
        s.mint_refusal(ctx, learner, registry, ids) is None <==> {
            &&& ctx.authorized@.contains(learner)
            &&& 0 < ids.len() <= u32::MAX
            &&& s.token_id_counter < u64::MAX
            &&& forall|i: int|
                0 <= i < ids.len() ==> {
                    &&& registry.contains_key(#[trigger] ids[i])
                    &&& registry[ids[i]].status == SessionStatus::Completed
                    &&& registry[ids[i]].learner == learner
                    &&& registry[ids[i]].mentor == registry[ids[0]].mentor
                }
        },
{
    if first_fault(registry, learner, ids) is None {
        assert forall|i: int| 0 <= i < ids.len() implies session_fault(
            registry,
            learner,
            registry[ids[0]].mentor,
            #[trigger] ids[i],
        ) is None by {
            lemma_faultless(registry, learner, ids, i);
        }
    }
    if forall|i: int|
        0 <= i < ids.len() ==> session_fault(
            registry,
            learner,
            registry[ids[0]].mentor,
            #[trigger] ids[i],
        ) is None {
        lemma_no_fault(registry, learner, ids);
    }
}

proof fn lemma_no_fault(
    registry: Map<Symbol, SessionRecord>,
    learner: Address,
    ids: Seq<Symbol>,
)
    requires
        forall|i: int|
            0 <= i < ids.len() ==> session_fault(
                registry,
                learner,
                registry[ids[0]].mentor,
                #[trigger] ids[i],
            ) is None,
    ensures
        first_fault(registry, learner, ids) is None,
    decreases ids.len(),
{
    if ids.len() > 0 {
        let front = ids.drop_last();
        assert forall|i: int| 0 <= i < front.len() implies session_fault(
            registry,
            learner,
            registry[front[0]].mentor,
            #[trigger] front[i],
        ) is None by {
            assert(front[i] == ids[i] && front[0] == ids[0]);
        }
        lemma_no_fault(registry, learner, front);
        assert(session_fault(
            registry,
            learner,
            registry[ids[0]].mentor,
            ids[ids.len() - 1],
        ) is None);
    }
}

proof fn lemma_provenance(registry: Map<Symbol, SessionRecord>, ids: Seq<Symbol>)
    requires
        forall|i: int| 0 <= i < ids.len() ==> registry.contains_key(#[trigger] ids[i]),
    ensures
        provenance(registry, ids) == Ok::<bool, Failure<Refusal>>(
            forall|i: int|
                0 <= i < ids.len() ==> registry[#[trigger] ids[i]].status
                    == SessionStatus::Completed,
        ),
    decreases ids.len(),
{
    if ids.len() > 0 {
        let front = ids.drop_last();
        assert forall|i: int| 0 <= i < front.len() implies registry.contains_key(
            #[trigger] front[i],
        ) by {
            assert(front[i] == ids[i]);
        }
        lemma_provenance(registry, front);
        if forall|i: int|
            0 <= i < ids.len() ==> registry[#[trigger] ids[i]].status
                == SessionStatus::Completed {
            assert forall|i: int| 0 <= i < front.len() implies registry[#[trigger] front[i]].status
                == SessionStatus::Completed by {
                assert(front[i] == ids[i]);
            }
            assert(registry[ids[ids.len() - 1]].status == SessionStatus::Completed);
        } else {
            let i = choose|i: int|
                0 <= i < ids.len() && registry[#[trigger] ids[i]].status
                    != SessionStatus::Completed;
            if i < front.len() {
                assert(front[i] == ids[i]);
            }
        }
    }
}

/// A token's provenance is proven exactly as long as every session behind it is
/// completed in a registry that still knows them all. So it is right after the
/// minting, and no longer once one of them is cancelled.
pub proof fn law_provenance(
    s: BundleState,
    ctx: Context,
    learner: Address,
    registry: Map<Symbol, SessionRecord>,
    later: Map<Symbol, SessionRecord>,
    ids: Seq<Symbol>,
    session_ids_hash: Digest,
    expiry: u64,
)
    requires
        s.mint_refusal(ctx, learner, registry, ids) is None,
        registry.dom().subset_of(later.dom()),
    ensures
        ({
            let t = s.minted(ctx, learner, registry, ids, session_ids_hash, expiry);
            let kept = t.bundled_sessions[t.token_id_counter];
            &&& t.bundled_sessions.contains_key(t.token_id_counter)
            &&& provenance(registry, kept) == Ok::<bool, Failure<Refusal>>(true)
            &&& provenance(later, kept) == Ok::<bool, Failure<Refusal>>(
                forall|i: int|
                    0 <= i < ids.len() ==> later[#[trigger] ids[i]].status
                        == SessionStatus::Completed,
            )
        }),
{
    law_minted_on_completed_sessions(s, ctx, learner, registry, ids, session_ids_hash, expiry);
    assert forall|i: int| 0 <= i < ids.len() implies later.contains_key(#[trigger] ids[i]) by {
        assert(registry.dom().contains(ids[i]));
    }
    lemma_provenance(registry, ids);
    lemma_provenance(later, ids);
}

/// The bundles listed for an owner are the owner's, and all of them.
pub proof fn law_owner_lists_are_complete(s: BundleState, who: Address, b: BundleNFT)
    requires
        s.valid(),
    ensures
        listed(s.bundles, s.list_of(who)).contains(b) <==> s.bundles.contains_key(b.token_id)
            && s.bundles[b.token_id] == b && b.owner == who,
        listed(s.bundles, s.list_of(who)).len() == s.list_of(who).len(),
{
    let list = s.list_of(who);
    assert(s.valid_list(who, list));
    assert forall|i: int| 0 <= i < list.len() implies s.bundles.contains_key(#[trigger] list[i]) by {
        assert(list.contains(list[i]));
    }
    lemma_listed(s.bundles, list);
    let found = listed(s.bundles, list);
    if found.contains(b) {
        let i = choose|i: int| 0 <= i < found.len() && found[i] == b;
        assert(list.contains(list[i]));
        assert(s.valid_bundle(list[i], b));
    }
    if s.bundles.contains_key(b.token_id) && s.bundles[b.token_id] == b && b.owner == who {
        assert(list.contains(b.token_id));
        let i = choose|i: int| 0 <= i < list.len() && list[i] == b.token_id;
        assert(found[i] == b);
    }
}

proof fn lemma_listed(bundles: Map<u64, BundleNFT>, ids: Seq<u64>)
    requires
        forall|i: int| 0 <= i < ids.len() ==> bundles.contains_key(#[trigger] ids[i]),
    ensures
        listed(bundles, ids).len() == ids.len(),
        forall|i: int| 0 <= i < ids.len() ==> #[trigger] listed(bundles, ids)[i] == bundles[ids[i]],
    decreases ids.len(),
{
    if ids.len() > 0 {
        let front = ids.drop_last();
        assert forall|i: int| 0 <= i < front.len() implies bundles.contains_key(
            #[trigger] front[i],
        ) by {
            assert(front[i] == ids[i]);
        }
        lemma_listed(bundles, front);
        assert(bundles.contains_key(ids[ids.len() - 1]));
    }
}

/// Why a minting is refused: for want of consent, of sessions, or for the first
/// session that the registry does not know, that is not completed, that is another
/// learner's, or that is with another mentor than the first.
pub proof fn law_mint_refusals(
    s: BundleState,
    ctx: Context,
    learner: Address,
    registry: Map<Symbol, SessionRecord>,
    ids: Seq<Symbol>,
    i: int,
)
    requires
        0 <= i < ids.len(),
        ctx.authorized@.contains(learner),
        forall|j: int|
            0 <= j < i ==> {
                &&& registry.contains_key(#[trigger] ids[j])
                &&& registry[ids[j]].status == SessionStatus::Completed
                &&& registry[ids[j]].learner == learner
                &&& registry[ids[j]].mentor == registry[ids[0]].mentor
            },
    ensures
        ({
            let f = s.mint_refusal(ctx, learner, registry, ids);
            let r = registry[ids[i]];
            let known = registry.contains_key(ids[i]);
            let completed = known && r.status == SessionStatus::Completed;
            let own = completed && r.learner == learner;
            &&& !known ==> f == Some(Failure::<Refusal>::Error(Refusal::SessionNotFound))
            &&& known && !completed ==> f == Some(
                Failure::<Refusal>::Error(Refusal::SessionNotCompleted),
            )
            &&& completed && !own ==> f == Some(
                Failure::<Refusal>::Error(Refusal::LearnerMismatch),
            )
            &&& own && r.mentor != registry[ids[0]].mentor ==> f == Some(
                Failure::<Refusal>::Error(Refusal::DifferentMentors),
            )
        }),
{
    let front = ids.take(i);
    assert forall|j: int| 0 <= j < front.len() implies session_fault(
        registry,
        learner,
        registry[front[0]].mentor,
        #[trigger] front[j],
    ) is None by {
        assert(front[j] == ids[j] && front[0] == ids[0]);
    }
    lemma_no_fault(registry, learner, front);
    let more = ids.take(i + 1);
    assert(more.drop_last() =~= front);
    assert(more[0] == ids[0] && more.last() == ids[i]);
    if first_fault(registry, learner, more) is Some {
        lemma_fault_stays(registry, learner, ids, i + 1);
    }
}

/// What a minting does: the learner owns a new token, transferable, for as many
/// sessions as were given, all of them still to be redeemed, with the mentor of
/// those sessions and the expiry asked for. It stands last in the learner's list.
/// No other token or list changes.
pub proof fn law_minting(
    s: BundleState,
    ctx: Context,
    learner: Address,
    registry: Map<Symbol, SessionRecord>,
    ids: Seq<Symbol>,
    session_ids_hash: Digest,
    expiry: u64,
)
    requires
        s.mint_refusal(ctx, learner, registry, ids) is None,
    ensures
        ({
            let t = s.minted(ctx, learner, registry, ids, session_ids_hash, expiry);
            let id = t.token_id_counter;
            let b = t.bundles[id];
            let list = if s.owner_bundles.contains_key(learner) {
                s.owner_bundles[learner]
            } else {
                Seq::empty()
            };
            &&& id == s.token_id_counter + 1
            &&& t.bundles == s.bundles.insert(id, b)
            &&& b.token_id == id && b.owner == learner && b.mentor == registry[ids[0]].mentor
            &&& b.sessions_total == ids.len() && b.sessions_remaining == ids.len()
            &&& b.expiry == expiry && b.transferable
            &&& t.minted_at == s.minted_at.insert(id, ctx.now)
            &&& t.bundled_sessions == s.bundled_sessions.insert(id, ids)
            &&& t.owner_bundles == s.owner_bundles.insert(learner, list + seq![id])
            &&& t.effects == s.effects + seq![
                Effect::Minted {
                    token_id: id,
                    event: NFTMintedEvent {
                        nft_id: id,
                        learner,
                        session_count: b.sessions_total,
                        session_ids_hash,
                    },
                },
            ]
        }),
{
    let t = s.minted(ctx, learner, registry, ids, session_ids_hash, expiry);
    let id = t.token_id_counter;
    law_mint_is_owed(s, ctx, learner, registry, ids);
    assert(t.owner_bundles[learner] =~= at_or(s.owner_bundles, learner, Seq::empty()) + seq![id]);
    assert(t.effects =~= s.effects + seq![
        Effect::Minted {
            token_id: id,
            event: NFTMintedEvent {
                nft_id: id,
                learner,
                session_count: t.bundles[id].sessions_total,
                session_ids_hash,
            },
        },
    ]);
}

/// Who may act on a token, and when. Its owner, who consents, hands it over if it is
/// transferable; redeems it while sessions remain, up to its expiry, or at any time
/// where it had expired when it was minted; and burns it once nothing remains or its
/// expiry has passed.
pub proof fn law_token_calls_are_open(s: BundleState, ctx: Context, holder: Address, id: u64)
    requires
        s.valid(),
    ensures
        ({
            let b = s.bundles[id];
            let signed = ctx.authorized@.contains(holder);
            let found = signed && s.bundles.contains_key(id);
            let owns = found && b.owner == holder;
            let over = ctx.now > b.expiry && s.minted_at[id] <= b.expiry;
            let move_out = s.transfer_refusal(ctx, holder, id);
            let redeem = s.redeem_refusal(ctx, holder, id);
            let burn = s.burn_refusal(ctx, holder, id);
            &&& move_out is None <==> owns && b.transferable
            &&& redeem is None <==> owns && !over && b.sessions_remaining > 0
            &&& burn is None <==> owns && (ctx.now > b.expiry || b.sessions_remaining == 0)
            &&& redeem == Some(Failure::<Refusal>::Error(Refusal::Expired)) <==> owns && over
            &&& redeem == Some(Failure::<Refusal>::Error(Refusal::NoSessionsRemaining)) <==> owns
                && !over && b.sessions_remaining == 0
            &&& burn == Some(Failure::<Refusal>::Error(Refusal::CannotBurn)) <==> owns && ctx.now
                <= b.expiry && b.sessions_remaining > 0
            &&& !signed ==> move_out == Some(Failure::<Refusal>::Unauthorized) && redeem
                == move_out && burn == move_out
            &&& signed && !found ==> move_out == Some(
                Failure::<Refusal>::Error(Refusal::BundleNotFound),
            ) && redeem == move_out && burn == move_out
            &&& found && !owns ==> move_out == Some(Failure::<Refusal>::Error(Refusal::NotOwner))
                && redeem == move_out && burn == move_out
        }),
{
    if s.bundles.contains_key(id) {
        assert(s.minted_at.dom().contains(id));
        assert(s.valid_list(holder, s.list_of(holder)));
        if s.bundles[id].owner == holder {
            assert(s.list_of(holder).contains(id));
        }
    }
}

/// What a transfer does: only the owner of the token changes. It leaves its place in
/// the list of the old owner, at `k`, and stands last in that of the new one; the
/// lists of all others are as before.
pub proof fn law_transfer(
    s: BundleState,
    ctx: Context,
    from: Address,
    to: Address,
    id: u64,
    k: int,
)
    requires
        s.valid(),
        s.transfer_refusal(ctx, from, id) is None,
        0 <= k < s.list_of(from).len(),
        s.list_of(from)[k] == id,
    ensures
        ({
            let t = s.transferred(from, to, id);
            &&& t.bundles == s.bundles.insert(id, BundleNFT { owner: to, ..s.bundles[id] })
            &&& from != to ==> t.list_of(from) == s.list_of(from).remove(k)
            &&& from != to ==> t.list_of(to) == s.list_of(to) + seq![id]
            &&& from == to ==> t.list_of(to) == s.list_of(to).remove(k) + seq![id]
            &&& forall|a: Address|
                a != from && a != to ==> #[trigger] t.list_of(a) == s.list_of(a)
            &&& t.effects == s.effects + seq![Effect::Transferred { token_id: id, from, to }]
            &&& t.token_id_counter == s.token_id_counter && t.minted_at == s.minted_at
            &&& t.bundled_sessions == s.bundled_sessions
        }),
{
    let t = s.transferred(from, to, id);
    assert(s.valid_list(from, s.list_of(from)));
    lemma_without_one(s.list_of(from), k);
    assert(s.owner_bundles.contains_key(from));
    if from != to {
        assert(t.list_of(to) =~= s.list_of(to) + seq![id]);
    } else {
        assert(t.list_of(to) =~= s.list_of(to).remove(k) + seq![id]);
    }
    assert(t.effects =~= s.effects + seq![Effect::Transferred { token_id: id, from, to }]);
}

/// What a redemption does: one session less remains of the token, and its mentor owes
/// the holder one from now on. Nothing else changes.
pub proof fn law_redemption(s: BundleState, ctx: Context, holder: Address, id: u64)
    requires
        s.redeem_refusal(ctx, holder, id) is None,
    ensures
        ({
            let t = s.redeemed(ctx, holder, id);
            let (b, c) = (s.bundles[id], t.bundles[id]);
            &&& c.sessions_remaining == b.sessions_remaining - 1
            &&& c == (BundleNFT { sessions_remaining: c.sessions_remaining, ..b })
            &&& t.bundles == s.bundles.insert(id, c)
            &&& t.effects == s.effects + seq![
                Effect::Redeemed {
                    token_id: id,
                    holder,
                    sessions_remaining: c.sessions_remaining,
                },
                Effect::SessionDue { mentor: b.mentor, holder, at: ctx.now },
            ]
            &&& t == (BundleState { bundles: t.bundles, effects: t.effects, ..s })
        }),
{
    let t = s.redeemed(ctx, holder, id);
    let b = s.bundles[id];
    assert(t.effects =~= s.effects + seq![
        Effect::Redeemed {
            token_id: id,
            holder,
            sessions_remaining: t.bundles[id].sessions_remaining,
        },
        Effect::SessionDue { mentor: b.mentor, holder, at: ctx.now },
    ]);
}

/// What burning does: the token, its sessions and its place in the owner's list, at
/// `k`, are gone, and nothing else is.
pub proof fn law_burning(s: BundleState, ctx: Context, holder: Address, id: u64, k: int)
    requires
        s.valid(),
        s.burn_refusal(ctx, holder, id) is None,
        0 <= k < s.list_of(holder).len(),
        s.list_of(holder)[k] == id,
    ensures
        ({
            let t = s.burned(holder, id);
            &&& t.bundles == s.bundles.remove(id)
            &&& t.minted_at == s.minted_at.remove(id)
            &&& t.bundled_sessions == s.bundled_sessions.remove(id)
            &&& t.list_of(holder) == s.list_of(holder).remove(k)
            &&& forall|a: Address| a != holder ==> #[trigger] t.list_of(a) == s.list_of(a)
            &&& t.effects == s.effects + seq![Effect::Burned { token_id: id, holder }]
            &&& t.token_id_counter == s.token_id_counter
        }),
{
    let t = s.burned(holder, id);
    assert(s.valid_list(holder, s.list_of(holder)));
    lemma_without_one(s.list_of(holder), k);
    assert(t.effects =~= s.effects + seq![Effect::Burned { token_id: id, holder }]);
}

/// When the provenance of sessions is proven: exactly where the registry knows all of
/// them as completed. It is disproven where the first that is not both is known, and
/// cannot be told where the registry does not know that one.
pub proof fn law_provenance_of_sessions(
    registry: Map<Symbol, SessionRecord>,
    ids: Seq<Symbol>,
    i: int,
)
    ensures
        (forall|j: int|
            0 <= j < ids.len() ==> registry.contains_key(#[trigger] ids[j])
                && registry[ids[j]].status == SessionStatus::Completed) ==> provenance(
            registry,
            ids,
        ) == Ok::<bool, Failure<Refusal>>(true),
        0 <= i < ids.len() && (forall|j: int|
            0 <= j < i ==> registry.contains_key(#[trigger] ids[j]) && registry[ids[j]].status
                == SessionStatus::Completed) && registry.contains_key(ids[i])
            && registry[ids[i]].status != SessionStatus::Completed ==> provenance(registry, ids)
            == Ok::<bool, Failure<Refusal>>(false),
        0 <= i < ids.len() && (forall|j: int|
            0 <= j < i ==> registry.contains_key(#[trigger] ids[j]) && registry[ids[j]].status
                == SessionStatus::Completed) && !registry.contains_key(ids[i]) ==> provenance(
            registry,
            ids,
        ) == Err::<bool, Failure<Refusal>>(Failure::Error(Refusal::SessionNotFound)),
{
    if forall|j: int|
        0 <= j < ids.len() ==> registry.contains_key(#[trigger] ids[j]) && registry[ids[j]].status
            == SessionStatus::Completed {
        lemma_provenance(registry, ids);
    }
    if 0 <= i < ids.len() && (forall|j: int|
        0 <= j < i ==> registry.contains_key(#[trigger] ids[j]) && registry[ids[j]].status
            == SessionStatus::Completed) {
        let front = ids.take(i);
        assert forall|j: int| 0 <= j < front.len() implies registry.contains_key(
            #[trigger] front[j],
        ) && registry[front[j]].status == SessionStatus::Completed by {
            assert(front[j] == ids[j]);
        }
        lemma_provenance(registry, front);
        let more = ids.take(i + 1);
        assert(more.drop_last() =~= front);
        assert(more.last() == ids[i]);
        lemma_provenance_stays(registry, ids, i + 1);
    }
}

/// The bundles listed for an owner come in the order of the owner's list.
pub proof fn law_owner_lists_in_order(s: BundleState, who: Address, i: int)
    requires
        s.valid(),
        0 <= i < s.list_of(who).len(),
    ensures
        listed(s.bundles, s.list_of(who)).len() == s.list_of(who).len(),
        listed(s.bundles, s.list_of(who))[i] == s.bundles[s.list_of(who)[i]],
{
    let list = s.list_of(who);
    assert(s.valid_list(who, list));
    assert forall|j: int| 0 <= j < list.len() implies s.bundles.contains_key(
        #[trigger] list[j],
    ) by {
        assert(list.contains(list[j]));
    }
    lemma_listed(s.bundles, list);
}

} // verus!
