//! The registry of upgrades: the versions of the platform's contracts, guarded by
//! rising versions and a timelock.
//!
//! An upgrade takes two steps: `schedule_upgrade`, and `execute_pending_upgrade`
//! once the delay has passed. The direct ways, `register_upgrade` and
//! `upgrade_contract`, are kept for older callers. They too take rising versions
//! only, and wait for the delay after the upgrade before; a first
//! `upgrade_contract` waits for it after the setting up. Only the first
//! `register_upgrade` of a contract, which takes it into the registry, waits for
//! nothing.

use crate::lists::{
    copied, lemma_seqs_empty, lemma_seqs_insert, lemma_without, lemma_without_absent,
    lemma_without_one, seqs, without,
};
use crate::table::{at_or, Table};
use crate::types::{Address, Context, Digest, Failure, Symbol};
use vstd::prelude::*;

verus! {

/// Why the contract refuses a call.
#[derive(Clone, Copy, Debug, PartialEq, Eq, Structural)]
pub enum Error {
    AlreadyInitialized,
    NotInitialized,
    NotAdmin,
    ContractNotFound,
    AlreadySubscribed,
    NotSubscribed,
    /// The new version is not above the one that the contract has.
    VersionNotMonotonic,
    /// The delay has not passed yet.
    TimelockNotElapsed,
    /// Nothing is scheduled for the contract.
    NoPendingUpgrade,
}

impl Error {
    /// The number that stands for the error outside.
    pub open spec fn number(self) -> u32 {
        match self {
            Error::AlreadyInitialized => 1,
            Error::NotInitialized => 2,
            Error::NotAdmin => 3,
            Error::ContractNotFound => 4,
            Error::AlreadySubscribed => 5,
            Error::NotSubscribed => 6,
            Error::VersionNotMonotonic => 7,
            Error::TimelockNotElapsed => 8,
            Error::NoPendingUpgrade => 9,
        }
    }

    /// The number that stands for the error outside.
    pub fn code(&self) -> (n: u32)
        ensures
            n == self.number(),
    {
        match self {
            Error::AlreadyInitialized => 1,
            Error::NotInitialized => 2,
            Error::NotAdmin => 3,
            Error::ContractNotFound => 4,
            Error::AlreadySubscribed => 5,
            Error::NotSubscribed => 6,
            Error::VersionNotMonotonic => 7,
            Error::TimelockNotElapsed => 8,
            Error::NoPendingUpgrade => 9,
        }
    }
}

/// An upgrade that was made.
#[derive(Clone, Copy, Debug, PartialEq, Eq, Structural)]
pub struct UpgradeRecord {
    pub old_version: u32,
    pub new_version: u32,
    pub changelog_hash: Digest,
    pub timestamp: u64,
    pub admin: Address,
}

/// An upgrade that was scheduled and not yet executed.
#[derive(Clone, Copy, Debug, PartialEq, Eq, Structural)]
pub struct PendingUpgrade {
    pub new_version: u32,
    pub changelog_hash: Digest,
    /// The earliest ledger time at which it may be executed.
    pub execute_after: u64,
    pub scheduled_by: Address,
}

/// What a call asks of the ledger, in order.
#[derive(Clone, Copy, Debug, PartialEq, Eq, Structural)]
pub enum Effect {
    Scheduled {
        contract_name: Symbol,
        new_version: u32,
        changelog_hash: Digest,
        execute_after: u64,
    },
    Executed { contract_name: Symbol, old_version: u32, new_version: u32, changelog_hash: Digest },
    Registered {
        contract_name: Symbol,
        old_version: u32,
        new_version: u32,
        changelog_hash: Digest,
    },
    Direct { contract_name: Symbol, old_version: u32, new_version: u32, changelog_hash: Digest },
    SubscriberAdded { contract_name: Symbol, subscriber: Address },
    SubscriberRemoved { contract_name: Symbol, subscriber: Address },
}

/// The contract's storage as a mathematical value.
#[verifier::ext_equal]
pub struct UpgradeState {
    pub admin: Option<Address>,
    pub upgrade_delay: u64,
    pub initialized_at: u64,
    pub histories: Map<Symbol, Seq<UpgradeRecord>>,
    pub latest_versions: Map<Symbol, u32>,
    pub subscribers: Map<Symbol, Seq<Address>>,
    pub pending: Map<Symbol, PendingUpgrade>,
    pub effects: Seq<Effect>,
}

/// The upgrade registry contract.
pub struct UpgradeRegistryContract {
    pub admin: Option<Address>,
    /// Seconds that must pass before an upgrade takes effect; zero for none.
    pub upgrade_delay: u64,
    /// When the contract was set up.
    pub initialized_at: u64,
    pub histories: Table<Symbol, Vec<UpgradeRecord>>,
    pub latest_versions: Table<Symbol, u32>,
    pub subscribers: Table<Symbol, Vec<Address>>,
    pub pending: Table<Symbol, PendingUpgrade>,
    /// What the calls so far ask of the ledger.
    pub effects: Vec<Effect>,
}

impl View for UpgradeRegistryContract {
    type V = UpgradeState;

    open spec fn view(&self) -> UpgradeState {
        UpgradeState {
            admin: self.admin,
            upgrade_delay: self.upgrade_delay,
            initialized_at: self.initialized_at,
            histories: seqs(self.histories@),
            latest_versions: self.latest_versions@,
            subscribers: seqs(self.subscribers@),
            pending: self.pending@,
            effects: self.effects@,
        }
    }
}

/// `delay` after `t`, at most the end of time.
pub open spec fn after(t: u64, delay: u64) -> u64 {
    if t + delay > u64::MAX {
        u64::MAX
    } else {
        (t + delay) as u64
    }
}

impl UpgradeState {
    /// The storage of a contract that was just deployed.
    pub open spec fn fresh() -> UpgradeState {
        UpgradeState {
            admin: None,
            upgrade_delay: 0,
            initialized_at: 0,
            histories: Map::empty(),
            latest_versions: Map::empty(),
            subscribers: Map::empty(),
            pending: Map::empty(),
            effects: Seq::empty(),
        }
    }

    pub open spec fn initialize_refusal(self) -> Option<Failure<Error>> {
        if self.admin is Some {
            Some(Failure::Error(Error::AlreadyInitialized))
        } else {
            None
        }
    }

    pub open spec fn initialized(
        self,
        ctx: Context,
        admin: Address,
        upgrade_delay: u64,
    ) -> UpgradeState {
        UpgradeState { admin: Some(admin), upgrade_delay, initialized_at: ctx.now, ..self }
    }

    /// Only the admin may act.
    pub open spec fn admin_refusal(self, ctx: Context) -> Option<Failure<Error>> {
        if self.admin is None {
            Some(Failure::Error(Error::NotInitialized))
        } else if !ctx.authorizes(self.admin->0) {
            Some(Failure::Unauthorized)
        } else {
            None
        }
    }

    /// The version of a contract; zero before its first upgrade.
    pub open spec fn version(self, name: Symbol) -> u32 {
        at_or(self.latest_versions, name, 0)
    }

    /// The upgrades of a contract.
    pub open spec fn history(self, name: Symbol) -> Seq<UpgradeRecord> {
        at_or(self.histories, name, Seq::empty())
    }

    /// The subscribers of a contract.
    pub open spec fn subscribed(self, name: Symbol) -> Seq<Address> {
        at_or(self.subscribers, name, Seq::empty())
    }

    /// The admin, and only to a higher version.
    pub open spec fn schedule_refusal(self, ctx: Context, name: Symbol, new_version: u32) -> Option<
        Failure<Error>,
    > {
        let early = self.admin_refusal(ctx);
        if early is Some {
            early
        } else if new_version <= self.version(name) {
            Some(Failure::Error(Error::VersionNotMonotonic))
        } else {
            None
        }
    }

    /// The upgrade is pending, in the place of an earlier one.
    pub open spec fn scheduled(
        self,
        ctx: Context,
        name: Symbol,
        new_version: u32,
        changelog_hash: Digest,
    ) -> UpgradeState {
        let execute_after = after(ctx.now, self.upgrade_delay);
        UpgradeState {
            pending: self.pending.insert(
                name,
                PendingUpgrade {
                    new_version,
                    changelog_hash,
                    execute_after,
                    scheduled_by: self.admin->0,
                },
            ),
            effects: self.effects.push(
                Effect::Scheduled {
                    contract_name: name,
                    new_version,
                    changelog_hash,
                    execute_after,
                },
            ),
            ..self
        }
    }

    /// The record stands last in the history, and its version is the latest.
    pub open spec fn committed(self, name: Symbol, record: UpgradeRecord) -> UpgradeState {
        UpgradeState {
            histories: self.histories.insert(name, self.history(name).push(record)),
            latest_versions: self.latest_versions.insert(name, record.new_version),
            ..self
        }
    }

    pub open spec fn execute_refusal(self, ctx: Context, name: Symbol) -> Option<Failure<Error>> {
        let early = self.admin_refusal(ctx);
        if early is Some {
            early
        } else if !self.pending.contains_key(name) {
            Some(Failure::Error(Error::NoPendingUpgrade))
        } else if ctx.now < self.pending[name].execute_after {
            Some(Failure::Error(Error::TimelockNotElapsed))
        } else if self.pending[name].new_version <= self.version(name) {
            Some(Failure::Error(Error::VersionNotMonotonic))
        } else {
            None
        }
    }

    /// The pending upgrade is made.
    pub open spec fn executed(self, ctx: Context, name: Symbol) -> UpgradeState {
        let p = self.pending[name];
        let s = self.committed(
            name,
            UpgradeRecord {
                old_version: self.version(name),
                new_version: p.new_version,
                changelog_hash: p.changelog_hash,
                timestamp: ctx.now,
                admin: self.admin->0,
            },
        );
        UpgradeState {
            pending: s.pending.remove(name),
            effects: s.effects.push(
                Effect::Executed {
                    contract_name: name,
                    old_version: self.version(name),
                    new_version: p.new_version,
                    changelog_hash: p.changelog_hash,
                },
            ),
            ..s
        }
    }

    /// The delay has not passed since `since`; never so without a delay.
    pub open spec fn is_locked(self, ctx: Context, since: u64) -> bool {
        self.upgrade_delay > 0 && ctx.now < after(since, self.upgrade_delay)
    }

    /// A registration is locked by the upgrade before it; the first by nothing.
    pub open spec fn register_refusal(self, ctx: Context, name: Symbol, new_version: u32) -> Option<
        Failure<Error>,
    > {
        let early = self.schedule_refusal(ctx, name, new_version);
        if early is Some {
            early
        } else if self.history(name).len() > 0 && self.is_locked(
            ctx,
            self.history(name).last().timestamp,
        ) {
            Some(Failure::Error(Error::TimelockNotElapsed))
        } else {
            None
        }
    }

    pub open spec fn registered(
        self,
        ctx: Context,
        name: Symbol,
        old_version: u32,
        new_version: u32,
        changelog_hash: Digest,
    ) -> UpgradeState {
        let s = self.committed(
            name,
            UpgradeRecord {
                old_version,
                new_version,
                changelog_hash,
                timestamp: ctx.now,
                admin: self.admin->0,
            },
        );
        UpgradeState {
            effects: s.effects.push(
                Effect::Registered {
                    contract_name: name,
                    old_version,
                    new_version,
                    changelog_hash,
                },
            ),
            ..s
        }
    }

    /// From when on the delay of a direct upgrade counts: the upgrade before it,
    /// or the setting up of the contract.
    pub open spec fn locked_since(self, name: Symbol) -> u64 {
        if self.history(name).len() > 0 {
            self.history(name).last().timestamp
        } else {
            self.initialized_at
        }
    }

    pub open spec fn direct_refusal(self, ctx: Context, name: Symbol, new_version: u32) -> Option<
        Failure<Error>,
    > {
        let early = self.schedule_refusal(ctx, name, new_version);
        if early is Some {
            early
        } else if self.is_locked(ctx, self.locked_since(name)) {
            Some(Failure::Error(Error::TimelockNotElapsed))
        } else {
            None
        }
    }

    pub open spec fn upgraded(
        self,
        ctx: Context,
        name: Symbol,
        new_version: u32,
        changelog_hash: Digest,
    ) -> UpgradeState {
        let old_version = self.version(name);
        let s = self.committed(
            name,
            UpgradeRecord {
                old_version,
                new_version,
                changelog_hash,
                timestamp: ctx.now,
                admin: self.admin->0,
            },
        );
        UpgradeState {
            effects: s.effects.push(
                Effect::Direct { contract_name: name, old_version, new_version, changelog_hash },
            ),
            ..s
        }
    }

    pub open spec fn subscribe_refusal(self, ctx: Context, who: Address, name: Symbol) -> Option<
        Failure<Error>,
    > {
        if !ctx.authorizes(who) {
            Some(Failure::Unauthorized)
        } else if self.subscribed(name).contains(who) {
            Some(Failure::Error(Error::AlreadySubscribed))
        } else {
            None
        }
    }

    pub open spec fn with_subscriber(self, who: Address, name: Symbol) -> UpgradeState {
        UpgradeState {
            subscribers: self.subscribers.insert(name, self.subscribed(name).push(who)),
            effects: self.effects.push(
                Effect::SubscriberAdded { contract_name: name, subscriber: who },
            ),
            ..self
        }
    }

    pub open spec fn unsubscribe_refusal(self, ctx: Context, who: Address, name: Symbol) -> Option<
        Failure<Error>,
    > {
        if !ctx.authorizes(who) {
            Some(Failure::Unauthorized)
        } else if !self.subscribed(name).contains(who) {
            Some(Failure::Error(Error::NotSubscribed))
        } else {
            None
        }
    }

    pub open spec fn without_subscriber(self, who: Address, name: Symbol) -> UpgradeState {
        UpgradeState {
            subscribers: self.subscribers.insert(name, without(self.subscribed(name), who)),
            effects: self.effects.push(
                Effect::SubscriberRemoved { contract_name: name, subscriber: who },
            ),
            ..self
        }
    }
}

impl UpgradeRegistryContract {
    /// A contract with empty storage.
    pub fn new() -> (contract: UpgradeRegistryContract)
        ensures
            contract@ == UpgradeState::fresh(),
            contract@.valid(),
    {
        proof {
            law_fresh_is_valid();
        }
        proof {
            lemma_seqs_empty::<Symbol, UpgradeRecord>();
            lemma_seqs_empty::<Symbol, Address>();
        }
        UpgradeRegistryContract {
            admin: None,
            upgrade_delay: 0,
            initialized_at: 0,
            histories: Table::new(),
            latest_versions: Table::new(),
            subscribers: Table::new(),
            pending: Table::new(),
            effects: Vec::new(),
        }
    }

    /// Names the admin and the delay of upgrades in seconds, once. A delay of
    /// zero switches the timelock off.
    pub fn initialize(&mut self, ctx: &Context, admin: Address, upgrade_delay: u64) -> (done: Result<
        (),
        Failure<Error>,
    >)
        ensures
            match done {
                Ok(()) => old(self)@.initialize_refusal() is None && final(self)@ == old(
                    self)@.initialized(*ctx, admin, upgrade_delay),
                Err(f) => old(self)@.initialize_refusal() == Some(f) && final(self)@ == old(self)@,
            },
            old(self)@.valid() ==> final(self)@.valid(),
    {
        if self.admin.is_some() {
            return Err(Failure::Error(Error::AlreadyInitialized));
        }
        self.admin = Some(admin);
        self.upgrade_delay = upgrade_delay;
        self.initialized_at = ctx.now;
        proof {
            if old(self)@.valid() {
                law_initialize_keeps_valid(old(self)@, *ctx, admin, upgrade_delay);
            }
        }
        Ok(())
    }

    /// The admin, where it consented.
    fn require_admin(&self, ctx: &Context) -> (found: Result<Address, Failure<Error>>)
        ensures
            match found {
                Ok(a) => self@.admin_refusal(*ctx) is None && self@.admin == Some(a),
                Err(f) => self@.admin_refusal(*ctx) == Some(f),
            },
    {
        match self.admin {
            None => Err(Failure::Error(Error::NotInitialized)),
            Some(admin) => if ctx.has_auth(admin) {
                Ok(admin)
            } else {
                Err(Failure::Unauthorized)
            },
        }
    }

    /// The admin and the version of a contract, where it may go to a new one.
    fn require_newer(&self, ctx: &Context, contract_name: Symbol, new_version: u32) -> (found:
        Result<(Address, u32), Failure<Error>>)
        ensures
            match found {
                Ok((a, v)) => self@.schedule_refusal(*ctx, contract_name, new_version) is None
                    && self@.admin == Some(a) && v == self@.version(contract_name),
                Err(f) => self@.schedule_refusal(*ctx, contract_name, new_version) == Some(f),
            },
    {
        let admin: Address = match self.require_admin(ctx) {
            Ok(a) => a,
            Err(f) => {
                return Err(f);
            },
        };
        let current: u32 = self.get_latest_version(contract_name);
        if new_version <= current {
            return Err(Failure::Error(Error::VersionNotMonotonic));
        }
        Ok((admin, current))
    }

    /// Schedules an upgrade to a higher version; for the admin. It can be
    /// executed once the delay has passed.
    pub fn schedule_upgrade(
        &mut self,
        ctx: &Context,
        contract_name: Symbol,
        new_version: u32,
        changelog_hash: Digest,
    ) -> (done: Result<(), Failure<Error>>)
        ensures
            match done {
                Ok(()) => old(self)@.schedule_refusal(*ctx, contract_name, new_version) is None
                    && final(self)@ == old(self)@.scheduled(
                    *ctx,
                    contract_name,
                    new_version,
                    changelog_hash,
                ),
                Err(f) => old(self)@.schedule_refusal(*ctx, contract_name, new_version) == Some(f)
                    && final(self)@ == old(self)@,
            },
            old(self)@.valid() ==> final(self)@.valid(),
    {
        let (admin, _): (Address, u32) = match self.require_newer(ctx, contract_name, new_version) {
            Ok(found) => found,
            Err(f) => {
                return Err(f);
            },
        };
        let execute_after: u64 = ctx.now.saturating_add(self.upgrade_delay);
        self.pending.set(
            contract_name,
            PendingUpgrade { new_version, changelog_hash, execute_after, scheduled_by: admin },
        );
        self.effects.push(
            Effect::Scheduled { contract_name, new_version, changelog_hash, execute_after },
        );
        proof {
            if old(self)@.valid() {
                law_upgrades_keep_valid(
                    old(self)@,
                    *ctx,
                    contract_name,
                    0,
                    new_version,
                    changelog_hash,
                );
            }
        }
        Ok(())
    }

    /// Puts a record at the end of a contract's history.
    fn commit(&mut self, contract_name: Symbol, record: UpgradeRecord)
        ensures
            final(self)@ == old(self)@.committed(contract_name, record),
    {
        let ghost before = self.histories@;
        let mut history: Vec<UpgradeRecord> = match self.histories.remove(&contract_name) {
            Some(h) => h,
            None => Vec::new(),
        };
        assert(history@ =~= old(self)@.history(contract_name));
        history.push(record);
        proof {
            lemma_seqs_insert(before, contract_name, history);
        }
        self.histories.set(contract_name, history);
        self.latest_versions.set(contract_name, record.new_version);
    }

    /// Makes the upgrade that is pending, once its delay has passed; for the
    /// admin. One that another upgrade has overtaken in the meantime is refused.
    pub fn execute_pending_upgrade(&mut self, ctx: &Context, contract_name: Symbol) -> (done:
        Result<(), Failure<Error>>)
        ensures
            match done {
                Ok(()) => old(self)@.execute_refusal(*ctx, contract_name) is None && final(self)@
                    == old(self)@.executed(*ctx, contract_name),
                Err(f) => old(self)@.execute_refusal(*ctx, contract_name) == Some(f) && final(
                    self)@ == old(self)@,
            },
            old(self)@.valid() ==> final(self)@.valid(),
    {
        let admin: Address = match self.require_admin(ctx) {
            Ok(a) => a,
            Err(f) => {
                return Err(f);
            },
        };
        let pending: PendingUpgrade = match self.pending.get(&contract_name) {
            Some(p) => *p,
            None => {
                return Err(Failure::Error(Error::NoPendingUpgrade));
            },
        };
        if ctx.now < pending.execute_after {
            return Err(Failure::Error(Error::TimelockNotElapsed));
        }
        let current: u32 = self.get_latest_version(contract_name);
        if pending.new_version <= current {
            return Err(Failure::Error(Error::VersionNotMonotonic));
        }
        self.commit(
            contract_name,
            UpgradeRecord {
                old_version: current,
                new_version: pending.new_version,
                changelog_hash: pending.changelog_hash,
                timestamp: ctx.now,
                admin,
            },
        );
        self.pending.remove(&contract_name);
        self.effects.push(
            Effect::Executed {
                contract_name,
                old_version: current,
                new_version: pending.new_version,
                changelog_hash: pending.changelog_hash,
            },
        );
        proof {
            if old(self)@.valid() {
                law_upgrades_keep_valid(
                    old(self)@,
                    *ctx,
                    contract_name,
                    0,
                    0,
                    pending.changelog_hash,
                );
            }
        }
        Ok(())
    }

    /// When the last upgrade of a contract was made, if there was one.
    fn last_upgrade(&self, contract_name: Symbol) -> (at: Option<u64>)
        ensures
            match at {
                Some(t) => self@.history(contract_name).len() > 0 && t == self@.history(
                    contract_name,
                ).last().timestamp,
                None => self@.history(contract_name).len() == 0,
            },
    {
        match self.histories.get(&contract_name) {
            Some(h) => {
                let n: usize = h.len();
                if n == 0 {
                    None
                } else {
                    Some(h[n - 1].timestamp)
                }
            },
            None => None,
        }
    }

    /// Whether the delay has not passed since `since`.
    fn is_locked(&self, ctx: &Context, since: u64) -> (yes: bool)
        ensures
            yes == self@.is_locked(*ctx, since),
    {
        self.upgrade_delay > 0 && ctx.now < since.saturating_add(self.upgrade_delay)
    }

    /// Records an upgrade to a higher version, once the delay has passed since
    /// the one before it, if there was one; for the admin. Superseded by
    /// `schedule_upgrade` and `execute_pending_upgrade`.
    pub fn register_upgrade(
        &mut self,
        ctx: &Context,
        contract_name: Symbol,
        old_version: u32,
        new_version: u32,
        changelog_hash: Digest,
    ) -> (done: Result<(), Failure<Error>>)
        ensures
            match done {
                Ok(()) => old(self)@.register_refusal(*ctx, contract_name, new_version) is None
                    && final(self)@ == old(self)@.registered(
                    *ctx,
                    contract_name,
                    old_version,
                    new_version,
                    changelog_hash,
                ),
                Err(f) => old(self)@.register_refusal(*ctx, contract_name, new_version) == Some(f)
                    && final(self)@ == old(self)@,
            },
            old(self)@.valid() ==> final(self)@.valid(),
    {
        let (admin, _): (Address, u32) = match self.require_newer(ctx, contract_name, new_version) {
            Ok(found) => found,
            Err(f) => {
                return Err(f);
            },
        };
        match self.last_upgrade(contract_name) {
            Some(since) => {
                if self.is_locked(ctx, since) {
                    return Err(Failure::Error(Error::TimelockNotElapsed));
                }
            },
            None => {},
        }
        self.commit(
            contract_name,
            UpgradeRecord {
                old_version,
                new_version,
                changelog_hash,
                timestamp: ctx.now,
                admin,
            },
        );
        self.effects.push(
            Effect::Registered { contract_name, old_version, new_version, changelog_hash },
        );
        proof {
            if old(self)@.valid() {
                law_upgrades_keep_valid(
                    old(self)@,
                    *ctx,
                    contract_name,
                    old_version,
                    new_version,
                    changelog_hash,
                );
            }
        }
        Ok(())
    }

    /// Makes an upgrade to a higher version directly, once the delay has passed
    /// since the one before it, or since the contract was set up; for the admin.
    /// Superseded by `schedule_upgrade` and `execute_pending_upgrade`.
    pub fn upgrade_contract(
        &mut self,
        ctx: &Context,
        contract_name: Symbol,
        new_version: u32,
        changelog_hash: Digest,
    ) -> (done: Result<(), Failure<Error>>)
        ensures
            match done {
                Ok(()) => old(self)@.direct_refusal(*ctx, contract_name, new_version) is None
                    && final(self)@ == old(self)@.upgraded(
                    *ctx,
                    contract_name,
                    new_version,
                    changelog_hash,
                ),
                Err(f) => old(self)@.direct_refusal(*ctx, contract_name, new_version) == Some(f)
                    && final(self)@ == old(self)@,
            },
            old(self)@.valid() ==> final(self)@.valid(),
    {
        let (admin, current): (Address, u32) = match self.require_newer(
            ctx,
            contract_name,
            new_version,
        ) {
            Ok(found) => found,
            Err(f) => {
                return Err(f);
            },
        };
        let since: u64 = match self.last_upgrade(contract_name) {
            Some(t) => t,
            None => self.initialized_at,
        };
        if self.is_locked(ctx, since) {
            return Err(Failure::Error(Error::TimelockNotElapsed));
        }
        self.commit(
            contract_name,
            UpgradeRecord {
                old_version: current,
                new_version,
                changelog_hash,
                timestamp: ctx.now,
                admin,
            },
        );
        self.effects.push(
            Effect::Direct { contract_name, old_version: current, new_version, changelog_hash },
        );
        proof {
            if old(self)@.valid() {
                law_upgrades_keep_valid(
                    old(self)@,
                    *ctx,
                    contract_name,
                    0,
                    new_version,
                    changelog_hash,
                );
            }
        }
        Ok(())
    }

    /// Adds a subscriber to the upgrades of a contract.
    pub fn subscribe(&mut self, ctx: &Context, subscriber: Address, contract_name: Symbol) -> (done:
        Result<(), Failure<Error>>)
        ensures
            match done {
                Ok(()) => old(self)@.subscribe_refusal(*ctx, subscriber, contract_name) is None
                    && final(self)@ == old(self)@.with_subscriber(subscriber, contract_name),
                Err(f) => old(self)@.subscribe_refusal(*ctx, subscriber, contract_name) == Some(f)
                    && final(self)@ == old(self)@,
            },
            old(self)@.valid() ==> final(self)@.valid(),
    {
        if !ctx.has_auth(subscriber) {
            return Err(Failure::Unauthorized);
        }
        let mut list: Vec<Address> = self.get_subscribers(contract_name);
        let n: usize = list.len();
        for i in 0..n
            invariant
                n == list@.len(),
                self@ == old(self)@,
                list@ == self@.subscribed(contract_name),
                ctx.authorizes(subscriber),
                forall|j: int| 0 <= j < i ==> list@[j] != subscriber,
        {
            if list[i] == subscriber {
                return Err(Failure::Error(Error::AlreadySubscribed));
            }
        }
        list.push(subscriber);
        proof {
            lemma_seqs_insert(self.subscribers@, contract_name, list);
        }
        self.subscribers.set(contract_name, list);
        self.effects.push(Effect::SubscriberAdded { contract_name, subscriber });
        proof {
            if old(self)@.valid() {
                law_subscriptions_keep_valid(old(self)@, *ctx, subscriber, contract_name);
            }
        }
        Ok(())
    }

    /// Removes a subscriber from the upgrades of a contract.
    pub fn unsubscribe(&mut self, ctx: &Context, subscriber: Address, contract_name: Symbol) -> (
    done: Result<(), Failure<Error>>)
        ensures
            match done {
                Ok(()) => old(self)@.unsubscribe_refusal(*ctx, subscriber, contract_name) is None
                    && final(self)@ == old(self)@.without_subscriber(subscriber, contract_name),
                Err(f) => old(self)@.unsubscribe_refusal(*ctx, subscriber, contract_name) == Some(f)
                    && final(self)@ == old(self)@,
            },
            old(self)@.valid() ==> final(self)@.valid(),
    {
        if !ctx.has_auth(subscriber) {
            return Err(Failure::Unauthorized);
        }
        let list: Vec<Address> = self.get_subscribers(contract_name);
        let mut found: bool = false;
        let mut rest: Vec<Address> = Vec::new();
        let n: usize = list.len();
        proof {
            reveal(Seq::filter);
        }
        for i in 0..n
            invariant
                n == list@.len(),
                rest@ == without(list@.take(i as int), subscriber),
                found == list@.take(i as int).contains(subscriber),
        {
            proof {
                reveal(Seq::filter);
                let more = list@.take(i + 1);
                assert(more.drop_last() =~= list@.take(i as int));
                assert(more[i as int] == list@[i as int]);
                if list@.take(i as int).contains(subscriber) {
                    let j = choose|j: int|
                        0 <= j < i && list@.take(i as int)[j] == subscriber;
                    assert(more[j] == subscriber);
                }
                if more.contains(subscriber) && list@[i as int] != subscriber {
                    let j = choose|j: int| 0 <= j < more.len() && more[j] == subscriber;
                    assert(list@.take(i as int)[j] == subscriber);
                }
            }
            if list[i] != subscriber {
                rest.push(list[i]);
            } else {
                found = true;
            }
        }
        assert(list@.take(n as int) =~= list@);
        if !found {
            return Err(Failure::Error(Error::NotSubscribed));
        }
        proof {
            lemma_seqs_insert(self.subscribers@, contract_name, rest);
        }
        self.subscribers.set(contract_name, rest);
        self.effects.push(Effect::SubscriberRemoved { contract_name, subscriber });
        proof {
            if old(self)@.valid() {
                law_subscriptions_keep_valid(old(self)@, *ctx, subscriber, contract_name);
            }
        }
        Ok(())
    }

    /// The upgrades of a contract, the last one last.
    pub fn get_upgrade_history(&self, contract_name: Symbol) -> (history: Vec<UpgradeRecord>)
        ensures
            history@ == self@.history(contract_name),
    {
        match self.histories.get(&contract_name) {
            Some(h) => copied(h),
            None => Vec::new(),
        }
    }

    /// The version of a contract; zero before its first upgrade.
    pub fn get_latest_version(&self, contract_name: Symbol) -> (version: u32)
        ensures
            version == self@.version(contract_name),
    {
        match self.latest_versions.get(&contract_name) {
            Some(v) => *v,
            None => 0,
        }
    }

    /// The subscribers of a contract.
    pub fn get_subscribers(&self, contract_name: Symbol) -> (list: Vec<Address>)
        ensures
            list@ == self@.subscribed(contract_name),
    {
        match self.subscribers.get(&contract_name) {
            Some(list) => copied(list),
            None => Vec::new(),
        }
    }

    /// The upgrade of a contract that is scheduled and not yet made.
    pub fn get_pending_upgrade(&self, contract_name: Symbol) -> (pending: Option<PendingUpgrade>)
        ensures
            match pending {
                Some(p) => self@.pending.contains_key(contract_name) && p
                    == self@.pending[contract_name],
                None => !self@.pending.contains_key(contract_name),
            },
    {
        match self.pending.get(&contract_name) {
            Some(p) => Some(*p),
            None => None,
        }
    }
}

impl UpgradeState {
    /// What holds of the storage between calls: a contract's version is that of
    /// its last upgrade, the versions of its upgrades rise, and nobody is
    /// subscribed to it twice.
    pub open spec fn valid(self) -> bool {
        forall|name: Symbol|
            #![trigger self.version(name)]
            #![trigger self.subscribed(name)]
            self.valid_contract(name)
    }

    pub open spec fn valid_contract(self, name: Symbol) -> bool {
        &&& self.version(name) == (if self.history(name).len() == 0 {
            0
        } else {
            self.history(name).last().new_version
        })
        &&& self.rising(name)
        &&& self.subscribed(name).no_duplicates()
    }

    /// The versions of a contract's upgrades rise strictly from zero on.
    pub open spec fn rising(self, name: Symbol) -> bool {
        let h = self.history(name);
        &&& forall|i: int| 0 <= i < h.len() ==> (#[trigger] h[i]).new_version > 0
        &&& forall|i: int, j: int|
            0 <= i < j < h.len() ==> (#[trigger] h[i]).new_version < (#[trigger] h[j]).new_version
    }
}

/// A contract that was just deployed is valid.
pub proof fn law_fresh_is_valid()
    ensures
        UpgradeState::fresh().valid(),
{
}

/// Setting the contract up keeps the storage valid.
pub proof fn law_initialize_keeps_valid(
    s: UpgradeState,
    ctx: Context,
    admin: Address,
    upgrade_delay: u64,
)
    requires
        s.valid(),
    ensures
        s.initialized(ctx, admin, upgrade_delay).valid(),
{
    lemma_same_upgrades(s, s.initialized(ctx, admin, upgrade_delay));
}

proof fn lemma_commit(s: UpgradeState, name: Symbol, record: UpgradeRecord)
    requires
        s.valid(),
        record.new_version > s.version(name),
    ensures
        s.committed(name, record).valid(),
{
    let t = s.committed(name, record);
    assert forall|n: Symbol| #![trigger t.version(n)] t.valid_contract(n) by {
        assert(s.version(n) == s.version(n));
        assert(s.valid_contract(n));
        let h = s.history(n);
        let g = t.history(n);
        if n == name {
            assert(g == h.push(record));
            assert forall|i: int| 0 <= i < g.len() implies (#[trigger] g[i]).new_version > 0 by {
                if i < h.len() {
                    assert(h[i].new_version > 0);
                }
            }
            assert forall|i: int, j: int| 0 <= i < j < g.len() implies (#[trigger] g[i]).new_version
                < (#[trigger] g[j]).new_version by {
                if j < h.len() {
                    assert(h[i].new_version < h[j].new_version);
                } else if i < h.len() - 1 {
                    assert(h[i].new_version < h[h.len() - 1].new_version);
                }
            }
        } else {
            assert(g == h);
            assert(s.rising(n) == t.rising(n));
        }
    }
}

proof fn lemma_same_upgrades(s: UpgradeState, t: UpgradeState)
    requires
        s.valid(),
        t.histories == s.histories,
        t.latest_versions == s.latest_versions,
        t.subscribers == s.subscribers,
    ensures
        t.valid(),
{
    assert forall|n: Symbol| #![trigger t.version(n)] t.valid_contract(n) by {
        assert(s.version(n) == s.version(n));
        assert(s.valid_contract(n));
        assert(t.history(n) == s.history(n));
    }
}

/// Every kind of upgrade keeps the storage valid.
pub proof fn law_upgrades_keep_valid(
    s: UpgradeState,
    ctx: Context,
    name: Symbol,
    old_version: u32,
    new_version: u32,
    changelog_hash: Digest,
)
    requires
        s.valid(),
    ensures
        s.scheduled(ctx, name, new_version, changelog_hash).valid(),
        s.execute_refusal(ctx, name) is None ==> s.executed(ctx, name).valid(),
        s.register_refusal(ctx, name, new_version) is None ==> s.registered(
            ctx,
            name,
            old_version,
            new_version,
            changelog_hash,
        ).valid(),
        s.direct_refusal(ctx, name, new_version) is None ==> s.upgraded(
            ctx,
            name,
            new_version,
            changelog_hash,
        ).valid(),
{
    lemma_same_upgrades(s, s.scheduled(ctx, name, new_version, changelog_hash));
    if s.execute_refusal(ctx, name) is None {
        let e = s.executed(ctx, name);
        lemma_commit(s, name, e.history(name).last());
        lemma_same_upgrades(s.committed(name, e.history(name).last()), e);
    }
    if s.schedule_refusal(ctx, name, new_version) is None {
        let r = s.registered(ctx, name, old_version, new_version, changelog_hash);
        lemma_commit(s, name, r.history(name).last());
        lemma_same_upgrades(s.committed(name, r.history(name).last()), r);
        let u = s.upgraded(ctx, name, new_version, changelog_hash);
        lemma_commit(s, name, u.history(name).last());
        lemma_same_upgrades(s.committed(name, u.history(name).last()), u);
    }
}

/// Versions only rise: an upgrade that goes through has a higher version than
/// the one before, whichever way it takes, and so the histories of all contracts
/// stay rising.
pub proof fn law_versions_rise(
    s: UpgradeState,
    ctx: Context,
    name: Symbol,
    old_version: u32,
    new_version: u32,
    changelog_hash: Digest,
    any: Symbol,
)
    requires
        s.valid(),
    ensures
        s.rising(any),
        s.scheduled(ctx, name, new_version, changelog_hash).rising(any),
        s.schedule_refusal(ctx, name, new_version) is None ==> new_version > s.version(name),
        s.register_refusal(ctx, name, new_version) is None ==> {
            let t = s.registered(ctx, name, old_version, new_version, changelog_hash);
            t.rising(any) && t.version(name) > s.version(name)
        },
        s.direct_refusal(ctx, name, new_version) is None ==> {
            let t = s.upgraded(ctx, name, new_version, changelog_hash);
            t.rising(any) && t.version(name) > s.version(name)
        },
        s.execute_refusal(ctx, name) is None ==> {
            let t = s.executed(ctx, name);
            t.rising(any) && t.version(name) > s.version(name)
        },
{
    law_upgrades_keep_valid(s, ctx, name, old_version, new_version, changelog_hash);
    assert(s.version(any) == s.version(any));
    let sc = s.scheduled(ctx, name, new_version, changelog_hash);
    let e = s.executed(ctx, name);
    let r = s.registered(ctx, name, old_version, new_version, changelog_hash);
    let u = s.upgraded(ctx, name, new_version, changelog_hash);
    assert(sc.version(any) == s.version(any));
    assert(e.version(any) == e.version(any));
    assert(r.version(any) == r.version(any));
    assert(u.version(any) == u.version(any));
}

/// A downgrade is refused on every way, and so is the version that a contract
/// has already: it is not scheduled, registered or made directly, and where it
/// was scheduled before another upgrade overtook it, it is not executed.
pub proof fn law_downgrades_are_refused(
    s: UpgradeState,
    ctx: Context,
    name: Symbol,
    new_version: u32,
)
    requires
        s.admin_refusal(ctx) is None,
        new_version <= s.version(name),
    ensures
        ({
            let refused = Some(Failure::<Error>::Error(Error::VersionNotMonotonic));
            &&& s.schedule_refusal(ctx, name, new_version) == refused
            &&& s.register_refusal(ctx, name, new_version) == refused
            &&& s.direct_refusal(ctx, name, new_version) == refused
            &&& s.pending.contains_key(name) && s.pending[name].new_version == new_version ==> {
                &&& s.execute_refusal(ctx, name) is Some
                &&& ctx.now >= s.pending[name].execute_after ==> s.execute_refusal(ctx, name)
                    == refused
            }
        }),
{
}

/// The timelock. What is scheduled is not executed before the delay has passed;
/// after an upgrade no direct one and no registration follows before it has
/// passed; and after the setting up no first direct upgrade does. The first
/// registration of a contract is not held to the delay.
pub proof fn law_timelock(
    s: UpgradeState,
    ctx: Context,
    later: Context,
    name: Symbol,
    record: UpgradeRecord,
    new_version: u32,
    changelog_hash: Digest,
)
    requires
        s.admin_refusal(later) is None,
        ctx.now <= later.now < after(ctx.now, s.upgrade_delay),
        record.timestamp == ctx.now,
    ensures
        s.scheduled(ctx, name, new_version, changelog_hash).execute_refusal(later, name) == Some(
            Failure::<Error>::Error(Error::TimelockNotElapsed),
        ),
        s.committed(name, record).register_refusal(later, name, new_version) is Some,
        s.committed(name, record).direct_refusal(later, name, new_version) is Some,
        new_version > record.new_version ==> s.committed(name, record).register_refusal(
            later,
            name,
            new_version,
        ) == Some(Failure::<Error>::Error(Error::TimelockNotElapsed)),
        new_version > record.new_version ==> s.committed(name, record).direct_refusal(
            later,
            name,
            new_version,
        ) == Some(Failure::<Error>::Error(Error::TimelockNotElapsed)),
        s.history(name).len() == 0 && s.initialized_at == ctx.now ==> s.direct_refusal(
            later,
            name,
            new_version,
        ) is Some,
        s.history(name).len() == 0 && s.initialized_at == ctx.now && new_version > s.version(name)
            ==> s.direct_refusal(later, name, new_version) == Some(
            Failure::<Error>::Error(Error::TimelockNotElapsed),
        ),
        s.history(name).len() == 0 && new_version > s.version(name) ==> s.register_refusal(
            later,
            name,
            new_version,
        ) is None,
{
    let t = s.committed(name, record);
    assert(t.history(name).last() == record);
}

/// What was scheduled can be executed once its delay has passed, and is then the
/// version of the contract, with nothing pending.
pub proof fn law_two_steps(
    s: UpgradeState,
    ctx: Context,
    later: Context,
    name: Symbol,
    new_version: u32,
    changelog_hash: Digest,
)
    requires
        s.schedule_refusal(ctx, name, new_version) is None,
        s.admin_refusal(later) is None,
        later.now >= ctx.now + s.upgrade_delay,
    ensures
        ({
            let t = s.scheduled(ctx, name, new_version, changelog_hash);
            let u = t.executed(later, name);
            &&& t.execute_refusal(later, name) is None
            &&& u.version(name) == new_version
            &&& !u.pending.contains_key(name)
            &&& u.history(name) == s.history(name).push(
                UpgradeRecord {
                    old_version: s.version(name),
                    new_version,
                    changelog_hash,
                    timestamp: later.now,
                    admin: s.admin->0,
                },
            )
        }),
{
}

/// Subscribing and unsubscribing keep the storage valid.
pub proof fn law_subscriptions_keep_valid(
    s: UpgradeState,
    ctx: Context,
    who: Address,
    name: Symbol,
)
    requires
        s.valid(),
    ensures
        s.subscribe_refusal(ctx, who, name) is None ==> s.with_subscriber(who, name).valid(),
        s.unsubscribe_refusal(ctx, who, name) is None ==> s.without_subscriber(who, name).valid(),
{
    let t = s.with_subscriber(who, name);
    let u = s.without_subscriber(who, name);
    lemma_without(s.subscribed(name), who);
    assert forall|n: Symbol| #![trigger u.version(n)] u.valid_contract(n) by {
        assert(s.version(n) == s.version(n));
        assert(s.valid_contract(n));
    }
    if s.subscribe_refusal(ctx, who, name) is None {
        assert forall|n: Symbol| #![trigger t.version(n)] t.valid_contract(n) by {
            assert(s.version(n) == s.version(n));
            assert(s.valid_contract(n));
        }
    }
}

/// Unsubscribing undoes subscribing: the list of subscribers is what it was.
pub proof fn law_unsubscribe_undoes_subscribe(
    s: UpgradeState,
    ctx: Context,
    later: Context,
    who: Address,
    name: Symbol,
)
    requires
        s.subscribe_refusal(ctx, who, name) is None,
        later.authorizes(who),
    ensures
        ({
            let t = s.with_subscriber(who, name);
            &&& t.unsubscribe_refusal(later, who, name) is None
            &&& t.without_subscriber(who, name).subscribed(name) == s.subscribed(name)
            &&& t.subscribe_refusal(later, who, name) == Some(
                Failure::<Error>::Error(Error::AlreadySubscribed),
            )
        }),
{
    let list = s.subscribed(name);
    let t = s.with_subscriber(who, name);
    assert(t.subscribed(name) == list.push(who));
    assert(list.push(who)[list.len() as int] == who);
    reveal(Seq::filter);
    assert(list.push(who).drop_last() =~= list);
    lemma_without_absent(list, who);
    assert(without(list.push(who), who) == list);
}

/// When an upgrade is open, for the admin and to a higher version only. One is
/// scheduled at any time. One that is scheduled is executed from `execute_after` on. A
/// registration waits for the delay after the last upgrade, the first for nothing. A
/// direct upgrade waits for the delay after the last upgrade, or after the setting up.
pub proof fn law_upgrades_are_open(s: UpgradeState, ctx: Context, name: Symbol, new_version: u32)
    ensures
        ({
            let signed = s.admin is Some && ctx.authorized@.contains(s.admin->0);
            let current = if s.latest_versions.contains_key(name) {
                s.latest_versions[name]
            } else {
                0
            };
            let history = if s.histories.contains_key(name) {
                s.histories[name]
            } else {
                Seq::empty()
            };
            let newer = signed && new_version > current;
            let last = if history.len() > 0 {
                history[history.len() - 1].timestamp
            } else {
                s.initialized_at
            };
            let waited = s.upgrade_delay == 0 || ctx.now >= last + s.upgrade_delay || ctx.now
                == u64::MAX;
            let schedule = s.schedule_refusal(ctx, name, new_version);
            let register = s.register_refusal(ctx, name, new_version);
            let direct = s.direct_refusal(ctx, name, new_version);
            let execute = s.execute_refusal(ctx, name);
            let pending = signed && s.pending.contains_key(name);
            let due = pending && ctx.now >= s.pending[name].execute_after;
            &&& schedule is None <==> newer
            &&& register is None <==> newer && (history.len() == 0 || waited)
            &&& direct is None <==> newer && waited
            &&& execute is None <==> due && s.pending[name].new_version > current
            &&& s.admin is None ==> schedule == Some(
                Failure::<Error>::Error(Error::NotInitialized),
            )
            &&& s.admin is Some && !signed ==> schedule == Some(Failure::<Error>::Unauthorized)
            &&& signed && !newer ==> schedule == Some(
                Failure::<Error>::Error(Error::VersionNotMonotonic),
            )
            &&& !newer ==> register == schedule && direct == schedule
            &&& newer && register is Some ==> register == Some(
                Failure::<Error>::Error(Error::TimelockNotElapsed),
            )
            &&& newer && direct is Some ==> direct == Some(
                Failure::<Error>::Error(Error::TimelockNotElapsed),
            )
            &&& execute == Some(Failure::<Error>::Error(Error::NoPendingUpgrade)) <==> signed
                && !pending
            &&& execute == Some(Failure::<Error>::Error(Error::TimelockNotElapsed)) <==> pending
                && !due
            &&& execute == Some(Failure::<Error>::Error(Error::VersionNotMonotonic)) <==> due
                && s.pending[name].new_version <= current
            &&& s.initialize_refusal() is None <==> s.admin is None
        }),
{
}

/// What scheduling does: the upgrade is pending, in the place of another, from now plus
/// the delay on, or the end of time if that comes first. Nothing else changes.
pub proof fn law_scheduling(
    s: UpgradeState,
    ctx: Context,
    name: Symbol,
    new_version: u32,
    changelog_hash: Digest,
)
    requires
        s.admin is Some,
    ensures
        ({
            let t = s.scheduled(ctx, name, new_version, changelog_hash);
            let p = t.pending[name];
            &&& t.pending == s.pending.insert(name, p)
            &&& p.new_version == new_version && p.changelog_hash == changelog_hash
            &&& Some(p.scheduled_by) == s.admin
            &&& ctx.now + s.upgrade_delay <= u64::MAX ==> p.execute_after == ctx.now
                + s.upgrade_delay
            &&& ctx.now + s.upgrade_delay > u64::MAX ==> p.execute_after == u64::MAX
            &&& t.effects == s.effects + seq![
                Effect::Scheduled {
                    contract_name: name,
                    new_version,
                    changelog_hash,
                    execute_after: p.execute_after,
                },
            ]
            &&& t == (UpgradeState { pending: t.pending, effects: t.effects, ..s })
        }),
{
    let t = s.scheduled(ctx, name, new_version, changelog_hash);
    assert(t.effects =~= s.effects + seq![
        Effect::Scheduled {
            contract_name: name,
            new_version,
            changelog_hash,
            execute_after: t.pending[name].execute_after,
        },
    ]);
}

/// What an upgrade does, whichever way it takes: its record, of this moment and by the
/// admin, stands last in the contract's history, and the contract has the new version.
/// An executed one is no longer pending. No other contract changes.
pub proof fn law_upgrading(
    s: UpgradeState,
    ctx: Context,
    name: Symbol,
    old_version: u32,
    new_version: u32,
    changelog_hash: Digest,
)
    requires
        s.admin is Some,
    ensures
        ({
            let current = if s.latest_versions.contains_key(name) {
                s.latest_versions[name]
            } else {
                0
            };
            let history = if s.histories.contains_key(name) {
                s.histories[name]
            } else {
                Seq::empty()
            };
            let record = |old: u32, new: u32, hash: Digest|
                UpgradeRecord {
                    old_version: old,
                    new_version: new,
                    changelog_hash: hash,
                    timestamp: ctx.now,
                    admin: s.admin->0,
                };
            let p = s.pending[name];
            &&& s.registered(ctx, name, old_version, new_version, changelog_hash) == (
            UpgradeState {
                histories: s.histories.insert(
                    name,
                    history + seq![record(old_version, new_version, changelog_hash)],
                ),
                latest_versions: s.latest_versions.insert(name, new_version),
                effects: s.effects + seq![
                    Effect::Registered {
                        contract_name: name,
                        old_version,
                        new_version,
                        changelog_hash,
                    },
                ],
                ..s
            })
            &&& s.upgraded(ctx, name, new_version, changelog_hash) == (UpgradeState {
                histories: s.histories.insert(
                    name,
                    history + seq![record(current, new_version, changelog_hash)],
                ),
                latest_versions: s.latest_versions.insert(name, new_version),
                effects: s.effects + seq![
                    Effect::Direct {
                        contract_name: name,
                        old_version: current,
                        new_version,
                        changelog_hash,
                    },
                ],
                ..s
            })
            &&& s.executed(ctx, name) == (UpgradeState {
                histories: s.histories.insert(
                    name,
                    history + seq![record(current, p.new_version, p.changelog_hash)],
                ),
                latest_versions: s.latest_versions.insert(name, p.new_version),
                pending: s.pending.remove(name),
                effects: s.effects + seq![
                    Effect::Executed {
                        contract_name: name,
                        old_version: current,
                        new_version: p.new_version,
                        changelog_hash: p.changelog_hash,
                    },
                ],
                ..s
            })
        }),
{
    let current = s.version(name);
    let history = s.history(name);
    let p = s.pending[name];
    let record = |old: u32, new: u32, hash: Digest|
        UpgradeRecord {
            old_version: old,
            new_version: new,
            changelog_hash: hash,
            timestamp: ctx.now,
            admin: s.admin->0,
        };
    let r = s.registered(ctx, name, old_version, new_version, changelog_hash);
    assert(r.histories[name] =~= history + seq![record(old_version, new_version, changelog_hash)]);
    assert(r.effects =~= s.effects + seq![
        Effect::Registered { contract_name: name, old_version, new_version, changelog_hash },
    ]);
    let u = s.upgraded(ctx, name, new_version, changelog_hash);
    assert(u.histories[name] =~= history + seq![record(current, new_version, changelog_hash)]);
    assert(u.effects =~= s.effects + seq![
        Effect::Direct { contract_name: name, old_version: current, new_version, changelog_hash },
    ]);
    let e = s.executed(ctx, name);
    assert(e.histories[name] =~= history + seq![
        record(current, p.new_version, p.changelog_hash),
    ]);
    assert(e.effects =~= s.effects + seq![
        Effect::Executed {
            contract_name: name,
            old_version: current,
            new_version: p.new_version,
            changelog_hash: p.changelog_hash,
        },
    ]);
}

/// How subscribers come and go, and when: somebody who consents and is not subscribed
/// comes last in the list; somebody who consents and is, at `k`, leaves its place, and
/// the others keep theirs. Nothing else changes.
pub proof fn law_subscriptions(s: UpgradeState, ctx: Context, who: Address, name: Symbol, k: int)
    requires
        s.valid(),
    ensures
        ({
            let list = if s.subscribers.contains_key(name) {
                s.subscribers[name]
            } else {
                Seq::empty()
            };
            let signed = ctx.authorized@.contains(who);
            let f = s.subscribe_refusal(ctx, who, name);
            let g = s.unsubscribe_refusal(ctx, who, name);
            &&& f is None <==> signed && !list.contains(who)
            &&& g is None <==> signed && list.contains(who)
            &&& !signed ==> f == Some(Failure::<Error>::Unauthorized) && g == f
            &&& signed && f is Some ==> f == Some(Failure::<Error>::Error(Error::AlreadySubscribed))
            &&& signed && g is Some ==> g == Some(Failure::<Error>::Error(Error::NotSubscribed))
            &&& s.with_subscriber(who, name) == (UpgradeState {
                subscribers: s.subscribers.insert(name, list + seq![who]),
                effects: s.effects + seq![
                    Effect::SubscriberAdded { contract_name: name, subscriber: who },
                ],
                ..s
            })
            &&& 0 <= k < list.len() && list[k] == who ==> s.without_subscriber(who, name) == (
            UpgradeState {
                subscribers: s.subscribers.insert(name, list.remove(k)),
                effects: s.effects + seq![
                    Effect::SubscriberRemoved { contract_name: name, subscriber: who },
                ],
                ..s
            })
        }),
{
    let list = s.subscribed(name);
    let t = s.with_subscriber(who, name);
    let u = s.without_subscriber(who, name);
    assert(s.version(name) == s.version(name));
    assert(t.subscribers[name] =~= list + seq![who]);
    assert(t.effects =~= s.effects + seq![
        Effect::SubscriberAdded { contract_name: name, subscriber: who },
    ]);
    assert(u.effects =~= s.effects + seq![
        Effect::SubscriberRemoved { contract_name: name, subscriber: who },
    ]);
    if 0 <= k < list.len() && list[k] == who {
        lemma_without_one(list, k);
    }
}

/// The contract is set up once, from this moment on, with the admin and the delay that
/// were named.
pub proof fn law_setting_up(s: UpgradeState, ctx: Context, admin: Address, upgrade_delay: u64)
    ensures
        s.initialize_refusal() is None <==> s.admin is None,
        s.initialized(ctx, admin, upgrade_delay) == (UpgradeState {
            admin: Some(admin),
            upgrade_delay,
            initialized_at: ctx.now,
            ..s
        }),
{
}

} // verus!
