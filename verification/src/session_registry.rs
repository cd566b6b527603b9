//! The registry of sessions: who meets whom and when, and how a mentor's time is
//! occupied.

use crate::lists::{copied, lemma_seqs_empty, seqs};
use crate::table::{at_or, Table};
use crate::types::{Address, Context, Failure, Symbol};
use vstd::prelude::*;

verus! {

/// Occupancy is kept in buckets of 30 minutes.
pub const SLOT_SIZE_SECS: u64 = 1_800;

/// The free time that a mentor has at least between two sessions: 15 minutes.
pub const SCHEDULING_BUFFER_SECS: u64 = 900;

/// How many sessions are listed where no page is asked for.
pub const FIRST_PAGE: u32 = 50;

/// Why the contract stops a call.
#[derive(Clone, Copy, Debug, PartialEq, Eq, Structural)]
pub enum Refusal {
    AlreadyInitialized,
    NotInitialized,
    DuplicateSession,
    SessionConflict,
    OutOfRange,
    SessionNotFound,
    OracleNotConfigured,
    Unauthorized,
}

impl Refusal {
    /// The reason in words.
    pub open spec fn text(self) -> Seq<char> {
        match self {
            Refusal::AlreadyInitialized => "Already initialized"@,
            Refusal::NotInitialized => "Not initialized"@,
            Refusal::DuplicateSession => "Duplicate session"@,
            Refusal::SessionConflict => "SessionConflict"@,
            Refusal::OutOfRange => "arithmetic out of range"@,
            Refusal::SessionNotFound => "Session not found"@,
            Refusal::OracleNotConfigured => "Session oracle not configured"@,
            Refusal::Unauthorized => "Unauthorized"@,
        }
    }

    /// The reason in words.
    pub fn message(&self) -> (m: &'static str)
        ensures
            m@ == self.text(),
    {
        match self {
            Refusal::AlreadyInitialized => "Already initialized",
            Refusal::NotInitialized => "Not initialized",
            Refusal::DuplicateSession => "Duplicate session",
            Refusal::SessionConflict => "SessionConflict",
            Refusal::OutOfRange => "arithmetic out of range",
            Refusal::SessionNotFound => "Session not found",
            Refusal::OracleNotConfigured => "Session oracle not configured",
            Refusal::Unauthorized => "Unauthorized",
        }
    }
}

/// Where a session stands.
#[derive(Clone, Copy, Debug, PartialEq, Eq, Structural)]
pub enum SessionStatus {
    Pending,
    Confirmed,
    Completed,
    Cancelled,
}

/// A session between a mentor and a learner.
#[derive(Clone, Copy, Debug, PartialEq, Eq, Structural)]
pub struct SessionRecord {
    pub session_id: Symbol,
    pub mentor: Address,
    pub learner: Address,
    pub scheduled_at: u64,
    pub duration_mins: u32,
    pub amount: i128,
    pub token: Address,
    pub status: SessionStatus,
    pub registered_at: u64,
}

/// What a call asks of the ledger, in order.
#[derive(Clone, Copy, Debug, PartialEq, Eq, Structural)]
pub enum Effect {
    SessionRegistered { session_id: Symbol, mentor: Address, learner: Address, scheduled_at: u64 },
    StatusChanged { session_id: Symbol, from: SessionStatus, to: SessionStatus },
    OracleStatusChanged { session_id: Symbol, from: SessionStatus, to: SessionStatus },
}

/// The contract's storage as a mathematical value.
#[verifier::ext_equal]
pub struct RegistryState {
    pub backend: Option<Address>,
    pub session_oracle: Option<Address>,
    pub sessions: Map<Symbol, SessionRecord>,
    pub mentor_counts: Map<Address, u32>,
    pub mentor_at: Map<(Address, u32), Symbol>,
    pub learner_counts: Map<Address, u32>,
    pub learner_at: Map<(Address, u32), Symbol>,
    pub metadata: Map<Symbol, Seq<Seq<u8>>>,
    pub slots: Map<(Address, u64), Symbol>,
    pub mentor_sessions: Map<Address, Seq<Symbol>>,
    pub learner_sessions: Map<Address, Seq<Symbol>>,
    pub effects: Seq<Effect>,
}

/// The session registry contract.
pub struct SessionRegistry {
    /// The platform's backend, which registers sessions and updates them.
    pub backend: Option<Address>,
    pub session_oracle: Option<Address>,
    pub sessions: Table<Symbol, SessionRecord>,
    /// How many sessions a mentor has, and which is the i-th.
    pub mentor_counts: Table<Address, u32>,
    pub mentor_at: Table<(Address, u32), Symbol>,
    /// How many sessions a learner has, and which is the i-th.
    pub learner_counts: Table<Address, u32>,
    pub learner_at: Table<(Address, u32), Symbol>,
    /// Tags of a session, each as its bytes.
    pub metadata: Table<Symbol, Vec<Vec<u8>>>,
    /// The session that occupies a bucket of a mentor's time.
    pub slots: Table<(Address, u64), Symbol>,
    /// Lists of an older layout, which nothing writes any more.
    pub mentor_sessions: Table<Address, Vec<Symbol>>,
    pub learner_sessions: Table<Address, Vec<Symbol>>,
    /// What the calls so far ask of the ledger.
    pub effects: Vec<Effect>,
}

/// Tags as sequences of bytes.
pub open spec fn texts(tags: Seq<Vec<u8>>) -> Seq<Seq<u8>> {
    tags.map_values(|tag: Vec<u8>| tag@)
}

impl View for SessionRegistry {
    type V = RegistryState;

    open spec fn view(&self) -> RegistryState {
        RegistryState {
            backend: self.backend,
            session_oracle: self.session_oracle,
            sessions: self.sessions@,
            mentor_counts: self.mentor_counts@,
            mentor_at: self.mentor_at@,
            learner_counts: self.learner_counts@,
            learner_at: self.learner_at@,
            metadata: self.metadata@.map_values(|tags: Vec<Vec<u8>>| texts(tags@)),
            slots: self.slots@,
            mentor_sessions: seqs(self.mentor_sessions@),
            learner_sessions: seqs(self.learner_sessions@),
            effects: self.effects@,
        }
    }
}

/// When a session gives its mentor free again: its end and the buffer after it,
/// at most the end of time.
pub open spec fn end_of(scheduled_at: u64, duration_mins: u32) -> u64 {
    let end = scheduled_at + duration_mins * 60 + SCHEDULING_BUFFER_SECS;
    if end > u64::MAX {
        u64::MAX
    } else {
        end as u64
    }
}

/// The half-open window from `start` to `end` touches the bucket.
pub open spec fn covers(start: u64, end: u64, bucket: u64) -> bool {
    start < end && bucket * SLOT_SIZE_SECS < end && start < (bucket + 1) * SLOT_SIZE_SECS
}

/// The buckets of a mentor's time that the window touches.
pub open spec fn window(mentor: Address, start: u64, end: u64) -> Set<(Address, u64)> {
    Set::new(|k: (Address, u64)| k.0 == mentor && covers(start, end, k.1))
}

/// The buckets that a session occupies.
pub open spec fn window_of(r: SessionRecord) -> Set<(Address, u64)> {
    window(r.mentor, r.scheduled_at, end_of(r.scheduled_at, r.duration_mins))
}

/// `x` over the slot size, rounded up.
pub open spec fn slots_up(x: int) -> int {
    (x + SLOT_SIZE_SECS - 1) / (SLOT_SIZE_SECS as int)
}

/// Which of the slots that start in the half-open span from `from` to `to` are
/// free.
pub open spec fn availability(
    slots: Map<(Address, u64), Symbol>,
    mentor: Address,
    from: u64,
    to: u64,
) -> Seq<(u64, bool)> {
    let first = slots_up(from as int);
    let count = slots_up(to as int) - first;
    Seq::new(
        (if count < 0 {
            0
        } else {
            count
        }) as nat,
        |i: int|
            (
                ((first + i) * SLOT_SIZE_SECS) as u64,
                !slots.contains_key((mentor, (first + i) as u64)),
            ),
    )
}

/// What an index holds from place `start` up to before `end`.
pub open spec fn listed(
    at: Map<(Address, u32), Symbol>,
    who: Address,
    start: int,
    end: int,
) -> Seq<Symbol>
    decreases end - start,
{
    if end <= start {
        Seq::empty()
    } else {
        let front = listed(at, who, start, end - 1);
        if at.contains_key((who, (end - 1) as u32)) {
            front.push(at[(who, (end - 1) as u32)])
        } else {
            front
        }
    }
}

/// A page of an index of `count` places: at most `limit` from `offset` on.
pub open spec fn page(
    at: Map<(Address, u32), Symbol>,
    who: Address,
    count: u32,
    offset: u32,
    limit: u32,
) -> Seq<Symbol> {
    listed(
        at,
        who,
        offset as int,
        if offset + limit < count {
            offset + limit
        } else {
            count as int
        },
    )
}

/// The sequence `a`, and behind it what `b` holds besides, each once.
pub open spec fn merged(a: Seq<Symbol>, b: Seq<Symbol>) -> Seq<Symbol>
    decreases b.len(),
{
    if b.len() == 0 {
        a
    } else {
        let front = merged(a, b.drop_last());
        if front.contains(b.last()) {
            front
        } else {
            front.push(b.last())
        }
    }
}

impl RegistryState {
    /// The storage of a contract that was just deployed.
    pub open spec fn fresh() -> RegistryState {
        RegistryState {
            backend: None,
            session_oracle: None,
            sessions: Map::empty(),
            mentor_counts: Map::empty(),
            mentor_at: Map::empty(),
            learner_counts: Map::empty(),
            learner_at: Map::empty(),
            metadata: Map::empty(),
            slots: Map::empty(),
            mentor_sessions: Map::empty(),
            learner_sessions: Map::empty(),
            effects: Seq::empty(),
        }
    }

    pub open spec fn initialize_refusal(self) -> Option<Failure<Refusal>> {
        if self.backend is Some {
            Some(Failure::Error(Refusal::AlreadyInitialized))
        } else {
            None
        }
    }

    pub open spec fn initialized(self, backend: Address) -> RegistryState {
        RegistryState { backend: Some(backend), ..self }
    }

    /// Only the backend may act.
    pub open spec fn backend_refusal(self, ctx: Context) -> Option<Failure<Refusal>> {
        if self.backend is None {
            Some(Failure::Error(Refusal::NotInitialized))
        } else if !ctx.authorizes(self.backend->0) {
            Some(Failure::Unauthorized)
        } else {
            None
        }
    }

    /// No bucket of the window is occupied.
    pub open spec fn is_free(self, mentor: Address, start: u64, end: u64) -> bool {
        self.slots.dom().disjoint(window(mentor, start, end))
    }

    pub open spec fn register_refusal(
        self,
        ctx: Context,
        session_id: Symbol,
        mentor: Address,
        learner: Address,
        scheduled_at: u64,
        duration_mins: u32,
    ) -> Option<Failure<Refusal>> {
        let early = self.backend_refusal(ctx);
        if early is Some {
            early
        } else if self.sessions.contains_key(session_id) {
            Some(Failure::Error(Refusal::DuplicateSession))
        } else if !self.is_free(mentor, scheduled_at, end_of(scheduled_at, duration_mins)) {
            Some(Failure::Error(Refusal::SessionConflict))
        } else if at_or(self.mentor_counts, mentor, 0) == u32::MAX || at_or(
            self.learner_counts,
            learner,
            0,
        ) == u32::MAX {
            Some(Failure::Error(Refusal::OutOfRange))
        } else {
            None
        }
    }

    /// The session is pending, occupies its buckets and stands last in the
    /// indexes of its mentor and its learner.
    pub open spec fn registered(
        self,
        ctx: Context,
        session_id: Symbol,
        mentor: Address,
        learner: Address,
        scheduled_at: u64,
        duration_mins: u32,
        amount: i128,
        token: Address,
    ) -> RegistryState {
        let record = SessionRecord {
            session_id,
            mentor,
            learner,
            scheduled_at,
            duration_mins,
            amount,
            token,
            status: SessionStatus::Pending,
            registered_at: ctx.now,
        };
        let m = at_or(self.mentor_counts, mentor, 0);
        let l = at_or(self.learner_counts, learner, 0);
        RegistryState {
            sessions: self.sessions.insert(session_id, record),
            slots: self.slots.union_prefer_right(
                Map::new(
                    |k: (Address, u64)| window_of(record).contains(k),
                    |k: (Address, u64)| session_id,
                ),
            ),
            mentor_counts: self.mentor_counts.insert(mentor, (m + 1) as u32),
            mentor_at: self.mentor_at.insert((mentor, m), session_id),
            learner_counts: self.learner_counts.insert(learner, (l + 1) as u32),
            learner_at: self.learner_at.insert((learner, l), session_id),
            effects: self.effects.push(
                Effect::SessionRegistered { session_id, mentor, learner, scheduled_at },
            ),
            ..self
        }
    }

    /// The session has the status; one that is now cancelled gives its buckets
    /// back.
    pub open spec fn with_status(self, session_id: Symbol, status: SessionStatus) -> RegistryState {
        let r = self.sessions[session_id];
        RegistryState {
            sessions: self.sessions.insert(session_id, SessionRecord { status, ..r }),
            slots: if status == SessionStatus::Cancelled && r.status != SessionStatus::Cancelled {
                self.slots.remove_keys(window_of(r))
            } else {
                self.slots
            },
            ..self
        }
    }

    pub open spec fn update_refusal(self, ctx: Context, session_id: Symbol) -> Option<
        Failure<Refusal>,
    > {
        let early = self.backend_refusal(ctx);
        if early is Some {
            early
        } else if !self.sessions.contains_key(session_id) {
            Some(Failure::Error(Refusal::SessionNotFound))
        } else {
            None
        }
    }

    pub open spec fn updated(self, session_id: Symbol, status: SessionStatus) -> RegistryState {
        RegistryState {
            effects: self.effects.push(
                Effect::StatusChanged {
                    session_id,
                    from: self.sessions[session_id].status,
                    to: status,
                },
            ),
            ..self.with_status(session_id, status)
        }
    }

    pub open spec fn oracle_refusal(
        self,
        ctx: Context,
        oracle: Address,
        session_id: Symbol,
    ) -> Option<Failure<Refusal>> {
        if self.session_oracle is None {
            Some(Failure::Error(Refusal::OracleNotConfigured))
        } else if !ctx.authorizes(oracle) {
            Some(Failure::Unauthorized)
        } else if self.session_oracle != Some(oracle) {
            Some(Failure::Error(Refusal::Unauthorized))
        } else if !self.sessions.contains_key(session_id) {
            Some(Failure::Error(Refusal::SessionNotFound))
        } else {
            None
        }
    }

    pub open spec fn oracle_updated(
        self,
        session_id: Symbol,
        status: SessionStatus,
    ) -> RegistryState {
        RegistryState {
            effects: self.effects.push(
                Effect::OracleStatusChanged {
                    session_id,
                    from: self.sessions[session_id].status,
                    to: status,
                },
            ),
            ..self.with_status(session_id, status)
        }
    }
}

/// The ids that an index holds from place `start` up to before `end`.
fn list_index(at: &Table<(Address, u32), Symbol>, who: Address, start: u32, end: u32) -> (ids: Vec<
    Symbol,
>)
    ensures
        ids@ == listed(at@, who, start as int, end as int),
{
    let mut ids: Vec<Symbol> = Vec::new();
    let mut i: u32 = start;
    while i < end
        invariant
            start <= i,
            i == start || i <= end,
            ids@ == listed(at@, who, start as int, i as int),
        decreases end - i,
    {
        match at.get(&(who, i)) {
            Some(id) => {
                ids.push(*id);
            },
            None => {},
        }
        i = i + 1;
    }
    ids
}

/// At most `limit` ids of an index of `count` places, from `offset` on.
fn page_of(
    at: &Table<(Address, u32), Symbol>,
    who: Address,
    count: u32,
    offset: u32,
    limit: u32,
) -> (ids: Vec<Symbol>)
    ensures
        ids@ == page(at@, who, count, offset, limit),
{
    let most: u32 = offset.saturating_add(limit);
    let end: u32 = if most < count {
        most
    } else {
        count
    };
    list_index(at, who, offset, end)
}

impl SessionRegistry {
    /// A contract with empty storage.
    pub fn new() -> (contract: SessionRegistry)
        ensures
            contract@ == RegistryState::fresh(),
            contract@.valid(),
    {
        proof {
            law_fresh_is_valid();
        }
        proof {
            lemma_seqs_empty::<Address, Symbol>();
        }
        let contract = SessionRegistry {
            backend: None,
            session_oracle: None,
            sessions: Table::new(),
            mentor_counts: Table::new(),
            mentor_at: Table::new(),
            learner_counts: Table::new(),
            learner_at: Table::new(),
            metadata: Table::new(),
            slots: Table::new(),
            mentor_sessions: Table::new(),
            learner_sessions: Table::new(),
            effects: Vec::new(),
        };
        assert(contract@.metadata =~= Map::empty());
        contract
    }

    /// Names the platform's backend, once.
    pub fn initialize(&mut self, backend: Address) -> (done: Result<(), Failure<Refusal>>)
        ensures
            match done {
                Ok(()) => old(self)@.initialize_refusal() is None && final(self)@ == old(
                    self)@.initialized(backend),
                Err(f) => old(self)@.initialize_refusal() == Some(f) && final(self)@ == old(self)@,
            },
            old(self)@.valid() ==> final(self)@.valid(),
    {
        if self.backend.is_some() {
            return Err(Failure::Error(Refusal::AlreadyInitialized));
        }
        self.backend = Some(backend);
        proof {
            if old(self)@.valid() {
                law_settings_keep_valid(old(self)@, backend, Symbol { hi: 0, lo: 0 }, Seq::empty());
            }
        }
        Ok(())
    }

    /// Fails unless the backend consented.
    fn require_backend(&self, ctx: &Context) -> (done: Result<(), Failure<Refusal>>)
        ensures
            match done {
                Ok(()) => self@.backend_refusal(*ctx) is None,
                Err(f) => self@.backend_refusal(*ctx) == Some(f),
            },
    {
        match self.backend {
            None => Err(Failure::Error(Refusal::NotInitialized)),
            Some(backend) => if ctx.has_auth(backend) {
                Ok(())
            } else {
                Err(Failure::Unauthorized)
            },
        }
    }

    /// Registers a session and gives its id back; for the backend.
    pub fn register_session(
        &mut self,
        ctx: &Context,
        session_id: Symbol,
        mentor: Address,
        learner: Address,
        scheduled_at: u64,
        duration_mins: u32,
        amount: i128,
        token: Address,
    ) -> (done: Result<Symbol, Failure<Refusal>>)
        ensures
            ({
                let refusal = old(self)@.register_refusal(
                    *ctx,
                    session_id,
                    mentor,
                    learner,
                    scheduled_at,
                    duration_mins,
                );
                match done {
                    Ok(id) => refusal is None && id == session_id && final(self)@ == old(
                        self)@.registered(
                        *ctx,
                        session_id,
                        mentor,
                        learner,
                        scheduled_at,
                        duration_mins,
                        amount,
                        token,
                    ),
                    Err(f) => refusal == Some(f) && final(self)@ == old(self)@,
                }
            }),
            old(self)@.valid() ==> final(self)@.valid(),
    {
        match self.require_backend(ctx) {
            Ok(()) => {},
            Err(f) => {
                return Err(f);
            },
        }
        if self.sessions.has(&session_id) {
            return Err(Failure::Error(Refusal::DuplicateSession));
        }
        let end: u64 = Self::occupied_end(scheduled_at, duration_mins);
        if !self.schedule_available(mentor, scheduled_at, end) {
            return Err(Failure::Error(Refusal::SessionConflict));
        }
        let mentor_idx: u32 = self.get_mentor_session_count(mentor);
        let learner_idx: u32 = self.get_learner_session_count(learner);
        if mentor_idx == u32::MAX || learner_idx == u32::MAX {
            return Err(Failure::Error(Refusal::OutOfRange));
        }
        self.occupy_schedule_slots(mentor, session_id, scheduled_at, end);
        let record = SessionRecord {
            session_id,
            mentor,
            learner,
            scheduled_at,
            duration_mins,
            amount,
            token,
            status: SessionStatus::Pending,
            registered_at: ctx.now,
        };
        self.sessions.set(session_id, record);
        self.mentor_at.set((mentor, mentor_idx), session_id);
        self.mentor_counts.set(mentor, mentor_idx + 1);
        self.learner_at.set((learner, learner_idx), session_id);
        self.learner_counts.set(learner, learner_idx + 1);
        self.effects.push(
            Effect::SessionRegistered { session_id, mentor, learner, scheduled_at },
        );
        proof {
            if old(self)@.valid() {
                law_register_keeps_valid(
                    old(self)@,
                    *ctx,
                    session_id,
                    mentor,
                    learner,
                    scheduled_at,
                    duration_mins,
                    amount,
                    token,
                );
            }
        }
        Ok(session_id)
    }

    /// Sets the status of a session that exists, and gives the one before.
    fn set_status(&mut self, session_id: Symbol, status: SessionStatus) -> (was: Option<
        SessionStatus,
    >)
        ensures
            match was {
                Some(before) => old(self)@.sessions.contains_key(session_id) && before == old(
                    self)@.sessions[session_id].status && final(self)@ == old(self)@.with_status(
                    session_id,
                    status,
                ),
                None => !old(self)@.sessions.contains_key(session_id) && final(self)@ == old(self)@,
            },
    {
        let mut record: SessionRecord = match self.sessions.get(&session_id) {
            Some(r) => *r,
            None => {
                return None;
            },
        };
        let old_status: SessionStatus = record.status;
        if status == SessionStatus::Cancelled && old_status != SessionStatus::Cancelled {
            self.release_schedule_slots(record.mentor, record.scheduled_at, record.duration_mins);
        }
        record.status = status;
        self.sessions.set(session_id, record);
        Some(old_status)
    }

    /// Sets the status of a session; for the backend.
    pub fn update_status(&mut self, ctx: &Context, session_id: Symbol, status: SessionStatus) -> (
    done: Result<(), Failure<Refusal>>)
        ensures
            match done {
                Ok(()) => old(self)@.update_refusal(*ctx, session_id) is None && final(self)@
                    == old(self)@.updated(session_id, status),
                Err(f) => old(self)@.update_refusal(*ctx, session_id) == Some(f) && final(self)@
                    == old(self)@,
            },
            old(self)@.valid() && (status == SessionStatus::Cancelled || is_live(
                old(self)@.sessions[session_id],
            )) ==> final(self)@.valid(),
    {
        match self.require_backend(ctx) {
            Ok(()) => {},
            Err(f) => {
                return Err(f);
            },
        }
        match self.set_status(session_id, status) {
            Some(old_status) => {
                self.effects.push(
                    Effect::StatusChanged { session_id, from: old_status, to: status },
                );
                proof {
                    let s = old(self)@;
                    if s.valid() && (status == SessionStatus::Cancelled || is_live(
                        s.sessions[session_id],
                    )) {
                        law_status_keeps_valid(s, session_id, status);
                    }
                }
                Ok(())
            },
            None => Err(Failure::Error(Refusal::SessionNotFound)),
        }
    }

    /// Cancels a session, so that its time can be booked again; for the backend.
    pub fn cancel_session(&mut self, ctx: &Context, session_id: Symbol) -> (done: Result<
        (),
        Failure<Refusal>,
    >)
        ensures
            match done {
                Ok(()) => old(self)@.update_refusal(*ctx, session_id) is None && final(self)@
                    == old(self)@.updated(session_id, SessionStatus::Cancelled),
                Err(f) => old(self)@.update_refusal(*ctx, session_id) == Some(f) && final(self)@
                    == old(self)@,
            },
            old(self)@.valid() ==> final(self)@.valid(),
    {
        self.update_status(ctx, session_id, SessionStatus::Cancelled)
    }

    /// Whether a mentor is free, for each slot of 30 minutes that starts in the
    /// half-open span from `from` to `to`: its start, and whether it is free.
    pub fn get_mentor_availability(&self, mentor: Address, from: u64, to: u64) -> (slots: Vec<
        (u64, bool),
    >)
        ensures
            slots@ == availability(self@.slots, mentor, from, to),
    {
        let mut result: Vec<(u64, bool)> = Vec::new();
        let first: u64 = from / SLOT_SIZE_SECS + (if from % SLOT_SIZE_SECS == 0 {
            0
        } else {
            1
        });
        let end: u64 = to / SLOT_SIZE_SECS + (if to % SLOT_SIZE_SECS == 0 {
            0
        } else {
            1
        });
        let ghost want = availability(self@.slots, mentor, from, to);
        assert(first == slots_up(from as int) && end == slots_up(to as int));
        let mut bucket: u64 = first;
        while bucket < end
            invariant
                first <= bucket,
                bucket == first || bucket <= end,
                end == slots_up(to as int),
                first == slots_up(from as int),
                want == availability(self@.slots, mentor, from, to),
                result@.len() == bucket - first,
                forall|i: int| 0 <= i < bucket - first ==> result@[i] == want[i],
            decreases end - bucket,
        {
            assert(bucket * SLOT_SIZE_SECS < to);
            let slot_start: u64 = bucket * SLOT_SIZE_SECS;
            let is_available: bool = !self.slots.has(&(mentor, bucket));
            result.push((slot_start, is_available));
            assert(want[bucket - first] == (slot_start, is_available));
            bucket = bucket + 1;
        }
        assert(result@ =~= want);
        result
    }

    /// Names the oracle that may update sessions; for the backend.
    pub fn set_session_oracle(&mut self, ctx: &Context, oracle: Address) -> (done: Result<
        (),
        Failure<Refusal>,
    >)
        ensures
            match done {
                Ok(()) => old(self)@.backend_refusal(*ctx) is None && final(self)@ == (
                RegistryState { session_oracle: Some(oracle), ..old(self)@ }),
                Err(f) => old(self)@.backend_refusal(*ctx) == Some(f) && final(self)@ == old(self)@,
            },
            old(self)@.valid() ==> final(self)@.valid(),
    {
        match self.require_backend(ctx) {
            Ok(()) => {
                self.session_oracle = Some(oracle);
                proof {
                    if old(self)@.valid() {
                        law_settings_keep_valid(
                            old(self)@,
                            oracle,
                            Symbol { hi: 0, lo: 0 },
                            Seq::empty(),
                        );
                    }
                }
                Ok(())
            },
            Err(f) => Err(f),
        }
    }

    /// Sets the status of a session; for the oracle.
    pub fn update_status_from_oracle(
        &mut self,
        ctx: &Context,
        oracle: Address,
        session_id: Symbol,
        status: SessionStatus,
    ) -> (done: Result<(), Failure<Refusal>>)
        ensures
            match done {
                Ok(()) => old(self)@.oracle_refusal(*ctx, oracle, session_id) is None && final(
                    self)@ == old(self)@.oracle_updated(session_id, status),
                Err(f) => old(self)@.oracle_refusal(*ctx, oracle, session_id) == Some(f) && final(
                    self)@ == old(self)@,
            },
            old(self)@.valid() && (status == SessionStatus::Cancelled || is_live(
                old(self)@.sessions[session_id],
            )) ==> final(self)@.valid(),
    {
        let configured: Address = match self.session_oracle {
            Some(a) => a,
            None => {
                return Err(Failure::Error(Refusal::OracleNotConfigured));
            },
        };
        if !ctx.has_auth(oracle) {
            return Err(Failure::Unauthorized);
        }
        if oracle != configured {
            return Err(Failure::Error(Refusal::Unauthorized));
        }
        match self.set_status(session_id, status) {
            Some(old_status) => {
                self.effects.push(
                    Effect::OracleStatusChanged { session_id, from: old_status, to: status },
                );
                proof {
                    let s = old(self)@;
                    if s.valid() && (status == SessionStatus::Cancelled || is_live(
                        s.sessions[session_id],
                    )) {
                        law_status_keeps_valid(s, session_id, status);
                    }
                }
                Ok(())
            },
            None => Err(Failure::Error(Refusal::SessionNotFound)),
        }
    }

    /// The record of a session.
    pub fn get_session(&self, session_id: Symbol) -> (found: Result<
        SessionRecord,
        Failure<Refusal>,
    >)
        ensures
            match found {
                Ok(r) => self@.sessions.contains_key(session_id) && r
                    == self@.sessions[session_id],
                Err(f) => !self@.sessions.contains_key(session_id) && f == Failure::Error(
                    Refusal::SessionNotFound,
                ),
            },
    {
        match self.sessions.get(&session_id) {
            Some(r) => Ok(*r),
            None => Err(Failure::Error(Refusal::SessionNotFound)),
        }
    }

    /// The ids of a mentor's sessions: at most `limit` from `offset` on.
    pub fn get_sessions_by_mentor_page(&self, mentor: Address, offset: u32, limit: u32) -> (ids:
        Vec<Symbol>)
        ensures
            ids@ == page(
                self@.mentor_at,
                mentor,
                at_or(self@.mentor_counts, mentor, 0),
                offset,
                limit,
            ),
    {
        page_of(&self.mentor_at, mentor, self.get_mentor_session_count(mentor), offset, limit)
    }

    /// The ids of a learner's sessions: at most `limit` from `offset` on.
    pub fn get_sessions_by_learner_page(&self, learner: Address, offset: u32, limit: u32) -> (ids:
        Vec<Symbol>)
        ensures
            ids@ == page(
                self@.learner_at,
                learner,
                at_or(self@.learner_counts, learner, 0),
                offset,
                limit,
            ),
    {
        page_of(&self.learner_at, learner, self.get_learner_session_count(learner), offset, limit)
    }

    /// The first 50 sessions of a mentor.
    pub fn get_sessions_by_mentor(&self, mentor: Address) -> (ids: Vec<Symbol>)
        ensures
            ids@ == page(
                self@.mentor_at,
                mentor,
                at_or(self@.mentor_counts, mentor, 0),
                0,
                FIRST_PAGE,
            ),
    {
        self.get_sessions_by_mentor_page(mentor, 0, FIRST_PAGE)
    }

    /// The first 50 sessions of a learner.
    pub fn get_sessions_by_learner(&self, learner: Address) -> (ids: Vec<Symbol>)
        ensures
            ids@ == page(
                self@.learner_at,
                learner,
                at_or(self@.learner_counts, learner, 0),
                0,
                FIRST_PAGE,
            ),
    {
        self.get_sessions_by_learner_page(learner, 0, FIRST_PAGE)
    }

    /// How many sessions a mentor has.
    pub fn get_mentor_session_count(&self, mentor: Address) -> (count: u32)
        ensures
            count == at_or(self@.mentor_counts, mentor, 0),
    {
        match self.mentor_counts.get(&mentor) {
            Some(n) => *n,
            None => 0,
        }
    }

    /// How many sessions a learner has.
    pub fn get_learner_session_count(&self, learner: Address) -> (count: u32)
        ensures
            count == at_or(self@.learner_counts, learner, 0),
    {
        match self.learner_counts.get(&learner) {
            Some(n) => *n,
            None => 0,
        }
    }

    /// When a session gives its mentor free again: its end, and the buffer after
    /// it.
    pub fn occupied_end(scheduled_at: u64, duration_mins: u32) -> (end: u64)
        ensures
            end == end_of(scheduled_at, duration_mins),
    {
        scheduled_at.saturating_add((duration_mins as u64) * 60).saturating_add(
            SCHEDULING_BUFFER_SECS,
        )
    }

    /// The buckets that a window touches: the first of them, and the one behind the
    /// last.
    pub fn slot_range(start: u64, end: u64) -> (range: (u64, u64))
        ensures
            forall|bucket: u64| #[trigger]
                covers(start, end, bucket) <==> range.0 <= bucket < range.1,
            range.0 <= range.1,
    {
        if end <= start {
            return (0, 0);
        }
        (start / SLOT_SIZE_SECS, (end - 1) / SLOT_SIZE_SECS + 1)
    }

    /// Whether no bucket of the window is occupied.
    fn schedule_available(&self, mentor: Address, start: u64, end: u64) -> (free: bool)
        ensures
            free == self@.is_free(mentor, start, end),
    {
        let (first, past): (u64, u64) = Self::slot_range(start, end);
        let mut bucket: u64 = first;
        while bucket < past
            invariant
                first <= bucket <= past,
                forall|b: u64| #[trigger] covers(start, end, b) <==> first <= b < past,
                forall|b: u64|
                    #![trigger self.slots@.contains_key((mentor, b))]
                    first <= b < bucket ==> !self.slots@.contains_key((mentor, b)),
            decreases past - bucket,
        {
            if self.slots.has(&(mentor, bucket)) {
                proof {
                    assert(covers(start, end, bucket));
                    assert(window(mentor, start, end).contains((mentor, bucket)));
                    assert(self@.slots.dom().contains((mentor, bucket)));
                }
                return false;
            }
            bucket = bucket + 1;
        }
        proof {
            assert forall|k: (Address, u64)| self@.slots.dom().contains(k) implies !window(
                mentor,
                start,
                end,
            ).contains(k) by {
                assert(k == (k.0, k.1));
                if k.0 == mentor {
                    assert(self.slots@.contains_key((mentor, k.1)));
                    assert(covers(start, end, k.1) <==> first <= k.1 < past);
                }
            }
        }
        true
    }

    /// Marks every bucket of the window with the session.
    fn occupy_schedule_slots(&mut self, mentor: Address, session_id: Symbol, start: u64, end: u64)
        ensures
            final(self)@ == (RegistryState {
                slots: old(self)@.slots.union_prefer_right(
                    Map::new(
                        |k: (Address, u64)| window(mentor, start, end).contains(k),
                        |k: (Address, u64)| session_id,
                    ),
                ),
                ..old(self)@
            }),
    {
        let ghost before = self.slots@;
        let ghost want = before.union_prefer_right(
            Map::new(
                |k: (Address, u64)| window(mentor, start, end).contains(k),
                |k: (Address, u64)| session_id,
            ),
        );
        let (first, past): (u64, u64) = Self::slot_range(start, end);
        let mut bucket: u64 = first;
        while bucket < past
            invariant
                first <= bucket <= past,
                self@ == (RegistryState { slots: self.slots@, ..old(self)@ }),
                forall|k: (Address, u64)| #[trigger]
                    self.slots@.contains_key(k) <==> before.contains_key(k) || (k.0 == mentor
                        && first <= k.1 < bucket),
                forall|k: (Address, u64)| #[trigger]
                    self.slots@.contains_key(k) ==> self.slots@[k] == (if k.0 == mentor && first
                        <= k.1 < bucket {
                        session_id
                    } else {
                        before[k]
                    }),
            decreases past - bucket,
        {
            self.slots.set((mentor, bucket), session_id);
            bucket = bucket + 1;
        }
        proof {
            assert forall|k: (Address, u64)|
                (#[trigger] self.slots@.dom().contains(k) == want.dom().contains(k)) && (
                self.slots@.dom().contains(k) ==> self.slots@[k] == want[k]) by {
                assert(covers(start, end, k.1) <==> first <= k.1 < past);
                assert(self.slots@.contains_key(k) == self.slots@.dom().contains(k));
            }
            assert(self.slots@.dom() =~= want.dom());
            assert(self.slots@ =~= want);
        }
    }

    /// Frees every bucket of a session.
    fn release_schedule_slots(&mut self, mentor: Address, scheduled_at: u64, duration_mins: u32)
        ensures
            final(self)@ == (RegistryState {
                slots: old(self)@.slots.remove_keys(
                    window(mentor, scheduled_at, end_of(scheduled_at, duration_mins)),
                ),
                ..old(self)@
            }),
    {
        let end: u64 = Self::occupied_end(scheduled_at, duration_mins);
        let ghost before = self.slots@;
        let ghost want = before.remove_keys(window(mentor, scheduled_at, end));
        let (first, past): (u64, u64) = Self::slot_range(scheduled_at, end);
        let mut bucket: u64 = first;
        while bucket < past
            invariant
                first <= bucket <= past,
                self@ == (RegistryState { slots: self.slots@, ..old(self)@ }),
                forall|k: (Address, u64)| #[trigger]
                    self.slots@.contains_key(k) <==> before.contains_key(k) && !(k.0 == mentor
                        && first <= k.1 < bucket),
                forall|k: (Address, u64)| #[trigger]
                    self.slots@.contains_key(k) ==> self.slots@[k] == before[k],
            decreases past - bucket,
        {
            self.slots.remove(&(mentor, bucket));
            bucket = bucket + 1;
        }
        proof {
            assert forall|k: (Address, u64)|
                (#[trigger] self.slots@.dom().contains(k) == want.dom().contains(k)) && (
                self.slots@.dom().contains(k) ==> self.slots@[k] == want[k]) by {
                assert(covers(scheduled_at, end, k.1) <==> first <= k.1 < past);
                assert(self.slots@.contains_key(k) == self.slots@.dom().contains(k));
            }
            assert(self.slots@.dom() =~= want.dom());
            assert(self.slots@ =~= want);
        }
    }

    /// Replaces the tags of a session.
    pub fn update_session_metadata(&mut self, session_id: Symbol, tags: Vec<Vec<u8>>)
        ensures
            final(self)@ == (RegistryState {
                metadata: old(self)@.metadata.insert(session_id, texts(tags@)),
                ..old(self)@
            }),
            old(self)@.valid() ==> final(self)@.valid(),
    {
        self.metadata.set(session_id, tags);
        assert(self@.metadata =~= old(self)@.metadata.insert(session_id, texts(tags@)));
        proof {
            if old(self)@.valid() {
                law_settings_keep_valid(
                    old(self)@,
                    Address { contract: false, hi: 0, lo: 0 },
                    session_id,
                    texts(tags@),
                );
            }
        }
    }

    /// The tags of a session.
    pub fn get_session_metadata(&self, session_id: Symbol) -> (tags: Vec<Vec<u8>>)
        ensures
            texts(tags@) == at_or(self@.metadata, session_id, Seq::empty()),
    {
        let mut tags: Vec<Vec<u8>> = Vec::new();
        match self.metadata.get(&session_id) {
            Some(stored) => {
                let n: usize = stored.len();
                for i in 0..n
                    invariant
                        n == stored@.len(),
                        tags@.len() == i,
                        forall|j: int| 0 <= j < i ==> (#[trigger] tags@[j])@ == stored@[j]@,
                {
                    tags.push(copied(&stored[i]));
                }
                assert(texts(tags@) =~= texts(stored@));
            },
            None => {
                assert(texts(tags@) =~= Seq::empty());
            },
        }
        tags
    }

    /// The sessions of a participant in the lists of the older layout: first as
    /// a mentor, then those besides as a learner.
    pub fn get_sessions_by_participant(&self, participant: Address) -> (ids: Vec<Symbol>)
        ensures
            ids@ == merged(
                at_or(self@.mentor_sessions, participant, Seq::empty()),
                at_or(self@.learner_sessions, participant, Seq::empty()),
            ),
    {
        let mut result: Vec<Symbol> = match self.mentor_sessions.get(&participant) {
            Some(ids) => copied(ids),
            None => Vec::new(),
        };
        let ghost first = result@;
        match self.learner_sessions.get(&participant) {
            Some(ids) => {
                let n: usize = ids.len();
                assert(merged(first, ids@.take(0)) == first);
                for i in 0..n
                    invariant
                        n == ids@.len(),
                        result@ == merged(first, ids@.take(i as int)),
                {
                    let ghost more = ids@.take(i + 1);
                    assert(more.drop_last() =~= ids@.take(i as int));
                    if !holds(&result, ids[i]) {
                        result.push(ids[i]);
                    }
                }
                assert(ids@.take(n as int) =~= ids@);
            },
            None => {},
        }
        result
    }
}

/// Whether `id` is among `ids`.
fn holds(ids: &Vec<Symbol>, id: Symbol) -> (yes: bool)
    ensures
        yes == ids@.contains(id),
{
    let n: usize = ids.len();
    for i in 0..n
        invariant
            n == ids@.len(),
            forall|j: int| 0 <= j < i ==> ids@[j] != id,
    {
        if ids[i] == id {
            return true;
        }
    }
    false
}

/// A session that was not cancelled.
pub open spec fn is_live(r: SessionRecord) -> bool {
    r.status != SessionStatus::Cancelled
}

impl RegistryState {
    /// What holds of the storage between calls: every session stands under its
    /// id, every live one holds the buckets that it occupies and nobody holds any
    /// others, and the indexes list the sessions of each mentor and each learner without gaps or
    /// repetition.
    pub open spec fn valid(self) -> bool {
        &&& forall|id: Symbol| #[trigger]
            self.sessions.contains_key(id) ==> self.sessions[id].session_id == id
        &&& forall|id: Symbol| #[trigger]
            self.sessions.contains_key(id) && is_live(self.sessions[id]) ==> self.holds_window(id)
        &&& forall|k: (Address, u64)| #[trigger] self.slots.contains_key(k) ==> self.is_held(k)
        &&& valid_index(
            self.sessions,
            self.mentor_counts,
            self.mentor_at,
            |r: SessionRecord| r.mentor,
        )
        &&& valid_index(
            self.sessions,
            self.learner_counts,
            self.learner_at,
            |r: SessionRecord| r.learner,
        )
    }

    /// The bucket is one that its session, a live one, occupies.
    pub open spec fn is_held(self, k: (Address, u64)) -> bool {
        let id = self.slots[k];
        self.sessions.contains_key(id) && is_live(self.sessions[id]) && window_of(
            self.sessions[id],
        ).contains(k)
    }

    /// The session holds every bucket that it occupies.
    pub open spec fn holds_window(self, id: Symbol) -> bool {
        forall|k: (Address, u64)| #[trigger]
            window_of(self.sessions[id]).contains(k) ==> self.slots.contains_key(k)
                && self.slots[k] == id
    }
}

/// The index holds one place for each session of its participant, numbered from
/// zero up to the count.
pub open spec fn valid_index(
    sessions: Map<Symbol, SessionRecord>,
    counts: Map<Address, u32>,
    at: Map<(Address, u32), Symbol>,
    party: spec_fn(SessionRecord) -> Address,
) -> bool {
    &&& forall|who: Address, i: u32| #[trigger]
        at.contains_key((who, i)) <==> i < at_or(counts, who, 0)
    &&& forall|who: Address, i: u32| #[trigger]
        at.contains_key((who, i)) ==> sessions.contains_key(at[(who, i)]) && party(
            sessions[at[(who, i)]],
        ) == who
    &&& forall|who: Address, i: u32, j: u32|
        #![trigger at.contains_key((who, i)), at.contains_key((who, j))]
        at.contains_key((who, i)) && at.contains_key((who, j)) && i != j ==> at[(who, i)] != at[(
            who,
            j,
        )]
    &&& forall|id: Symbol| #[trigger]
        sessions.contains_key(id) ==> exists|i: u32| #[trigger]
            at.contains_key((party(sessions[id]), i)) && at[(party(sessions[id]), i)] == id
}

/// A contract that was just deployed is valid.
pub proof fn law_fresh_is_valid()
    ensures
        RegistryState::fresh().valid(),
{
}

proof fn lemma_index_grows(
    sessions: Map<Symbol, SessionRecord>,
    counts: Map<Address, u32>,
    at: Map<(Address, u32), Symbol>,
    party: spec_fn(SessionRecord) -> Address,
    id: Symbol,
    r: SessionRecord,
)
    requires
        valid_index(sessions, counts, at, party),
        !sessions.contains_key(id),
        at_or(counts, party(r), 0) < u32::MAX,
    ensures
        valid_index(
            sessions.insert(id, r),
            counts.insert(party(r), (at_or(counts, party(r), 0) + 1) as u32),
            at.insert((party(r), at_or(counts, party(r), 0)), id),
            party,
        ),
{
    let who0 = party(r);
    let n = at_or(counts, who0, 0);
    let sessions2 = sessions.insert(id, r);
    let counts2 = counts.insert(who0, (n + 1) as u32);
    let at2 = at.insert((who0, n), id);
    assert forall|who: Address, i: u32| #[trigger] at2.contains_key((who, i)) <==> i < at_or(
        counts2,
        who,
        0,
    ) by {
        assert(at.contains_key((who, i)) <==> i < at_or(counts, who, 0));
    }
    assert forall|who: Address, i: u32| #[trigger]
        at2.contains_key((who, i)) implies sessions2.contains_key(at2[(who, i)]) && party(
        sessions2[at2[(who, i)]],
    ) == who by {
        if (who, i) != (who0, n) {
            assert(at.contains_key((who, i)));
        }
    }
    assert forall|who: Address, i: u32, j: u32|
        #![trigger at2.contains_key((who, i)), at2.contains_key((who, j))]
        at2.contains_key((who, i)) && at2.contains_key((who, j)) && i != j implies at2[(who, i)]
        != at2[(who, j)] by {
        if (who, i) != (who0, n) {
            assert(at.contains_key((who, i)));
        }
        if (who, j) != (who0, n) {
            assert(at.contains_key((who, j)));
        }
    }
    assert forall|x: Symbol| #[trigger] sessions2.contains_key(x) implies exists|i: u32|
        #[trigger] at2.contains_key((party(sessions2[x]), i)) && at2[(party(sessions2[x]), i)]
            == x by {
        if x == id {
            assert(at2.contains_key((party(sessions2[x]), n)));
        } else {
            assert(sessions.contains_key(x));
            let i = choose|i: u32| #[trigger]
                at.contains_key((party(sessions[x]), i)) && at[(party(sessions[x]), i)] == x;
            assert(at2.contains_key((party(sessions2[x]), i)));
        }
    }
}

/// The registration of a session keeps the storage valid.
pub proof fn law_register_keeps_valid(
    s: RegistryState,
    ctx: Context,
    session_id: Symbol,
    mentor: Address,
    learner: Address,
    scheduled_at: u64,
    duration_mins: u32,
    amount: i128,
    token: Address,
)
    requires
        s.valid(),
        s.register_refusal(ctx, session_id, mentor, learner, scheduled_at, duration_mins) is None,
    ensures
        s.registered(
            ctx,
            session_id,
            mentor,
            learner,
            scheduled_at,
            duration_mins,
            amount,
            token,
        ).valid(),
{
    let t = s.registered(
        ctx,
        session_id,
        mentor,
        learner,
        scheduled_at,
        duration_mins,
        amount,
        token,
    );
    let r = t.sessions[session_id];
    lemma_index_grows(
        s.sessions,
        s.mentor_counts,
        s.mentor_at,
        |r: SessionRecord| r.mentor,
        session_id,
        r,
    );
    lemma_index_grows(
        s.sessions,
        s.learner_counts,
        s.learner_at,
        |r: SessionRecord| r.learner,
        session_id,
        r,
    );
    assert forall|id: Symbol| #[trigger] t.sessions.contains_key(id) implies t.sessions[id].session_id
        == id by {
        if id != session_id {
            assert(s.sessions.contains_key(id));
        }
    }
    assert forall|id: Symbol| #[trigger]
        t.sessions.contains_key(id) && is_live(t.sessions[id]) implies t.holds_window(id) by {
        if id != session_id {
            assert(s.sessions.contains_key(id));
            assert(s.holds_window(id));
            assert forall|k: (Address, u64)| #[trigger]
                window_of(t.sessions[id]).contains(k) implies t.slots.contains_key(k) && t.slots[k]
                == id by {
                assert(window_of(s.sessions[id]).contains(k));
                assert(s.slots.dom().contains(k));
                assert(!window_of(r).contains(k));
            }
        }
    }
    assert forall|k: (Address, u64)| #[trigger] t.slots.contains_key(k) implies t.is_held(k) by {
        if !window_of(r).contains(k) {
            assert(s.slots.contains_key(k));
            assert(s.is_held(k));
        }
    }
}

/// A change of status keeps the storage valid, but for one that brings a
/// cancelled session back: its buckets are gone by then.
pub proof fn law_status_keeps_valid(s: RegistryState, session_id: Symbol, status: SessionStatus)
    requires
        s.valid(),
        s.sessions.contains_key(session_id),
        is_live(s.sessions[session_id]) || status == SessionStatus::Cancelled,
    ensures
        s.updated(session_id, status).valid(),
        s.oracle_updated(session_id, status).valid(),
{
    let t = s.with_status(session_id, status);
    let r = s.sessions[session_id];
    lemma_index_kept(
        s.sessions,
        s.mentor_counts,
        s.mentor_at,
        |r: SessionRecord| r.mentor,
        session_id,
        t.sessions[session_id],
    );
    lemma_index_kept(
        s.sessions,
        s.learner_counts,
        s.learner_at,
        |r: SessionRecord| r.learner,
        session_id,
        t.sessions[session_id],
    );
    assert forall|id: Symbol| #[trigger] t.sessions.contains_key(id) implies t.sessions[id].session_id
        == id by {
        assert(s.sessions.contains_key(id));
    }
    assert forall|id: Symbol| #[trigger]
        t.sessions.contains_key(id) && is_live(t.sessions[id]) implies t.holds_window(id) by {
        assert(s.sessions.contains_key(id));
        assert(s.holds_window(id));
        assert forall|k: (Address, u64)| #[trigger]
            window_of(t.sessions[id]).contains(k) implies t.slots.contains_key(k) && t.slots[k]
            == id by {
            assert(window_of(s.sessions[id]).contains(k));
            if t.slots != s.slots {
                assert(s.holds_window(session_id));
                assert(!window_of(r).contains(k));
            }
        }
    }
    assert forall|k: (Address, u64)| #[trigger] t.slots.contains_key(k) implies t.is_held(k) by {
        assert(s.slots.contains_key(k));
        assert(s.is_held(k));
        if s.slots[k] == session_id && status == SessionStatus::Cancelled {
            assert(is_live(r));
            assert(window_of(r).contains(k));
        }
    }
    assert(s.updated(session_id, status) == RegistryState {
        effects: s.updated(session_id, status).effects,
        ..t
    });
    lemma_effects_free(t, s.updated(session_id, status));
    lemma_effects_free(t, s.oracle_updated(session_id, status));
}

proof fn lemma_effects_free(s: RegistryState, t: RegistryState)
    requires
        s.valid(),
        t.sessions == s.sessions,
        t.slots == s.slots,
        t.mentor_counts == s.mentor_counts,
        t.mentor_at == s.mentor_at,
        t.learner_counts == s.learner_counts,
        t.learner_at == s.learner_at,
    ensures
        t.valid(),
{
    assert forall|id: Symbol| #[trigger]
        t.sessions.contains_key(id) && is_live(t.sessions[id]) implies t.holds_window(id) by {
        assert(s.holds_window(id));
        assert forall|k: (Address, u64)| #[trigger]
            window_of(t.sessions[id]).contains(k) implies t.slots.contains_key(k) && t.slots[k]
            == id by {
            assert(window_of(s.sessions[id]).contains(k));
        }
    }
    assert forall|k: (Address, u64)| #[trigger] t.slots.contains_key(k) implies t.is_held(k) by {
        assert(s.is_held(k));
    }
}

proof fn lemma_index_kept(
    sessions: Map<Symbol, SessionRecord>,
    counts: Map<Address, u32>,
    at: Map<(Address, u32), Symbol>,
    party: spec_fn(SessionRecord) -> Address,
    id: Symbol,
    r: SessionRecord,
)
    requires
        valid_index(sessions, counts, at, party),
        sessions.contains_key(id),
        party(r) == party(sessions[id]),
    ensures
        valid_index(sessions.insert(id, r), counts, at, party),
{
    let sessions2 = sessions.insert(id, r);
    assert forall|who: Address, i: u32| #[trigger]
        at.contains_key((who, i)) implies sessions2.contains_key(at[(who, i)]) && party(
        sessions2[at[(who, i)]],
    ) == who by {}
    assert forall|x: Symbol| #[trigger] sessions2.contains_key(x) implies exists|i: u32|
        #[trigger] at.contains_key((party(sessions2[x]), i)) && at[(party(sessions2[x]), i)]
            == x by {
        assert(sessions.contains_key(x));
        let i = choose|i: u32| #[trigger]
            at.contains_key((party(sessions[x]), i)) && at[(party(sessions[x]), i)] == x;
        assert(at.contains_key((party(sessions2[x]), i)));
    }
}

/// Naming the backend, naming the oracle and tagging a session keep the storage
/// valid.
pub proof fn law_settings_keep_valid(
    s: RegistryState,
    who: Address,
    session_id: Symbol,
    tags: Seq<Seq<u8>>,
)
    requires
        s.valid(),
    ensures
        s.initialized(who).valid(),
        (RegistryState { session_oracle: Some(who), ..s }).valid(),
        (RegistryState { metadata: s.metadata.insert(session_id, tags), ..s }).valid(),
{
    lemma_effects_free(s, s.initialized(who));
    lemma_effects_free(s, RegistryState { session_oracle: Some(who), ..s });
    lemma_effects_free(
        s,
        RegistryState { metadata: s.metadata.insert(session_id, tags), ..s },
    );
}

/// Two live sessions of one mentor never overlap: one of them is over, with the
/// buffer after it, before the other starts.
pub proof fn law_no_double_booking(s: RegistryState, a: Symbol, b: Symbol)
    requires
        s.valid(),
        a != b,
        s.sessions.contains_key(a),
        s.sessions.contains_key(b),
        is_live(s.sessions[a]),
        is_live(s.sessions[b]),
        s.sessions[a].mentor == s.sessions[b].mentor,
        s.sessions[a].scheduled_at < u64::MAX,
        s.sessions[b].scheduled_at < u64::MAX,
    ensures
        ({
            let (x, y) = (s.sessions[a], s.sessions[b]);
            ||| x.scheduled_at + x.duration_mins * 60 + SCHEDULING_BUFFER_SECS <= y.scheduled_at
            ||| y.scheduled_at + y.duration_mins * 60 + SCHEDULING_BUFFER_SECS <= x.scheduled_at
        }),
{
    let (x, y) = (s.sessions[a], s.sessions[b]);
    let (xe, ye) = (
        end_of(x.scheduled_at, x.duration_mins),
        end_of(y.scheduled_at, y.duration_mins),
    );
    assert(s.holds_window(a) && s.holds_window(b));
    if y.scheduled_at < xe && x.scheduled_at < ye {
        let later = if x.scheduled_at >= y.scheduled_at {
            x.scheduled_at
        } else {
            y.scheduled_at
        };
        let bucket = later / SLOT_SIZE_SECS;
        assert(covers(x.scheduled_at, xe, bucket));
        assert(covers(y.scheduled_at, ye, bucket));
        assert(window_of(x).contains((x.mentor, bucket)));
        assert(window_of(y).contains((x.mentor, bucket)));
        assert(false);
    }
}

/// A window that overlaps a live session of the mentor, or comes closer to it
/// than the buffer, is refused.
pub proof fn law_overlap_is_refused(
    s: RegistryState,
    ctx: Context,
    held: Symbol,
    session_id: Symbol,
    learner: Address,
    scheduled_at: u64,
    duration_mins: u32,
)
    requires
        s.valid(),
        s.backend_refusal(ctx) is None,
        s.sessions.contains_key(held),
        is_live(s.sessions[held]),
        !s.sessions.contains_key(session_id),
        s.sessions[held].scheduled_at < end_of(scheduled_at, duration_mins),
        scheduled_at < end_of(s.sessions[held].scheduled_at, s.sessions[held].duration_mins),
    ensures
        s.register_refusal(
            ctx,
            session_id,
            s.sessions[held].mentor,
            learner,
            scheduled_at,
            duration_mins,
        ) == Some(Failure::<Refusal>::Error(Refusal::SessionConflict)),
{
    let x = s.sessions[held];
    let (xe, ye) = (
        end_of(x.scheduled_at, x.duration_mins),
        end_of(scheduled_at, duration_mins),
    );
    assert(s.holds_window(held));
    let later = if x.scheduled_at >= scheduled_at {
        x.scheduled_at
    } else {
        scheduled_at
    };
    let bucket = later / SLOT_SIZE_SECS;
    assert(later < u64::MAX);
    assert(x.scheduled_at < xe) by {
        if x.scheduled_at == u64::MAX {
            assert(later == u64::MAX);
        }
    }
    assert(scheduled_at < ye);
    assert(covers(x.scheduled_at, xe, bucket));
    assert(covers(scheduled_at, ye, bucket));
    let k = (x.mentor, bucket);
    assert(window_of(x).contains(k));
    assert(window(x.mentor, scheduled_at, ye).contains(k));
    assert(s.slots.dom().contains(k));
}

/// After the cancellation of a live session its time can be booked again, by
/// any session that is not yet registered.
pub proof fn law_cancel_frees_the_window(
    s: RegistryState,
    session_id: Symbol,
    ctx: Context,
    again: Symbol,
    learner: Address,
)
    requires
        s.sessions.contains_key(session_id),
        is_live(s.sessions[session_id]),
        s.backend_refusal(ctx) is None,
        !s.sessions.contains_key(again),
        at_or(s.mentor_counts, s.sessions[session_id].mentor, 0) < u32::MAX,
        at_or(s.learner_counts, learner, 0) < u32::MAX,
    ensures
        ({
            let r = s.sessions[session_id];
            s.updated(session_id, SessionStatus::Cancelled).register_refusal(
                ctx,
                again,
                r.mentor,
                learner,
                r.scheduled_at,
                r.duration_mins,
            ) is None
        }),
{
}

/// Pages that adjoin make up the page of their joint length.
pub proof fn law_pages_join(
    at: Map<(Address, u32), Symbol>,
    who: Address,
    count: u32,
    offset: u32,
    first: u32,
    second: u32,
)
    requires
        offset + first <= u32::MAX,
        first + second <= u32::MAX,
    ensures
        page(at, who, count, offset, first) + page(
            at,
            who,
            count,
            (offset + first) as u32,
            second,
        ) == page(at, who, count, offset, (first + second) as u32),
{
    let end = |x: int|
        if x < count {
            x
        } else {
            count as int
        };
    let a = offset as int;
    let b = offset + first;
    let c = offset + first + second;
    if b <= count {
        lemma_listed_join(at, who, a, b, end(c));
    } else {
        assert(page(at, who, count, b as u32, second) =~= Seq::empty());
        assert(end(b) == end(c));
    }
    assert(page(at, who, count, offset, first) + page(at, who, count, b as u32, second)
        =~= page(at, who, count, offset, (first + second) as u32));
}

proof fn lemma_listed_join(
    at: Map<(Address, u32), Symbol>,
    who: Address,
    a: int,
    b: int,
    c: int,
)
    requires
        a <= b <= c,
    ensures
        listed(at, who, a, b) + listed(at, who, b, c) == listed(at, who, a, c),
    decreases c - b,
{
    if b < c {
        lemma_listed_join(at, who, a, b, c - 1);
        assert(listed(at, who, a, b) + listed(at, who, b, c) =~= listed(at, who, a, c));
    } else {
        assert(listed(at, who, a, b) + listed(at, who, b, c) =~= listed(at, who, a, c));
    }
}

/// In a valid index a page is full: it lists exactly the places that it spans.
pub proof fn law_pages_are_full(
    sessions: Map<Symbol, SessionRecord>,
    counts: Map<Address, u32>,
    at: Map<(Address, u32), Symbol>,
    party: spec_fn(SessionRecord) -> Address,
    who: Address,
    offset: u32,
    limit: u32,
)
    requires
        valid_index(sessions, counts, at, party),
    ensures
        ({
            let count = at_or(counts, who, 0);
            let ids = page(at, who, count, offset, limit);
            let end = if offset + limit < count {
                offset + limit
            } else {
                count as int
            };
            &&& ids.len() == (if end > offset {
                end - offset
            } else {
                0
            })
            &&& forall|i: int| 0 <= i < ids.len() ==> ids[i] == at[(who, (offset + i) as u32)]
        }),
{
    let count = at_or(counts, who, 0);
    let end = if offset + limit < count {
        offset + limit
    } else {
        count as int
    };
    if end > offset {
        lemma_listed_full(sessions, counts, at, party, who, offset as int, end);
    }
}

proof fn lemma_listed_full(
    sessions: Map<Symbol, SessionRecord>,
    counts: Map<Address, u32>,
    at: Map<(Address, u32), Symbol>,
    party: spec_fn(SessionRecord) -> Address,
    who: Address,
    start: int,
    end: int,
)
    requires
        valid_index(sessions, counts, at, party),
        0 <= start <= end <= at_or(counts, who, 0),
    ensures
        listed(at, who, start, end) == Seq::new(
            (end - start) as nat,
            |i: int| at[(who, (start + i) as u32)],
        ),
    decreases end - start,
{
    let want = Seq::new((end - start) as nat, |i: int| at[(who, (start + i) as u32)]);
    if end > start {
        lemma_listed_full(sessions, counts, at, party, who, start, end - 1);
        assert(at.contains_key((who, (end - 1) as u32)));
        assert(listed(at, who, start, end) =~= want);
    } else {
        assert(listed(at, who, start, end) =~= want);
    }
}

/// An available slot is one that no session occupies: of a live session none of
/// the slots is shown as free.
pub proof fn law_availability_is_honest(
    s: RegistryState,
    id: Symbol,
    from: u64,
    to: u64,
    i: int,
)
    requires
        s.valid(),
        s.sessions.contains_key(id),
        is_live(s.sessions[id]),
        ({
            let r = s.sessions[id];
            let slots = availability(s.slots, r.mentor, from, to);
            &&& 0 <= i < slots.len()
            &&& slots[i].0 < end_of(r.scheduled_at, r.duration_mins)
            &&& r.scheduled_at < slots[i].0 + SLOT_SIZE_SECS
            &&& r.scheduled_at < u64::MAX
        }),
    ensures
        !availability(s.slots, s.sessions[id].mentor, from, to)[i].1,
{
    let r = s.sessions[id];
    let bucket = slots_up(from as int) + i;
    assert(s.holds_window(id));
    assert(bucket * SLOT_SIZE_SECS < to) by {
        assert(bucket < slots_up(to as int));
    }
    assert(covers(
        r.scheduled_at,
        end_of(r.scheduled_at, r.duration_mins),
        bucket as u64,
    ));
    assert(window_of(r).contains((r.mentor, bucket as u64)));
}

/// Whether a session that starts at `start` and lasts `mins` minutes takes some of
/// the half hour numbered `bucket`: from its start to its end, and the quarter of an
/// hour behind it.
pub open spec fn takes(start: int, mins: int, bucket: int) -> bool {
    &&& start < u64::MAX
    &&& 1_800 * bucket < start + 60 * mins + 900
    &&& 1_800 * bucket < u64::MAX
    &&& start < 1_800 * bucket + 1_800
}

/// When a mentor is free again: at the end of the session and fifteen minutes after
/// it, but no later than the end of time.
pub proof fn law_occupied_end(scheduled_at: u64, duration_mins: u32)
    ensures
        scheduled_at + 60 * duration_mins + 900 <= u64::MAX ==> end_of(scheduled_at, duration_mins)
            == scheduled_at + 60 * duration_mins + 900,
        scheduled_at + 60 * duration_mins + 900 > u64::MAX ==> end_of(scheduled_at, duration_mins)
            == u64::MAX,
{
}

proof fn lemma_takes(start: u64, mins: u32, bucket: u64)
    ensures
        covers(start, end_of(start, mins), bucket) <==> takes(
            start as int,
            mins as int,
            bucket as int,
        ),
{
}

/// Whether a live session of the mentor takes some of the half hour.
pub open spec fn is_busy(
    sessions: Map<Symbol, SessionRecord>,
    mentor: Address,
    bucket: int,
) -> bool {
    exists|id: Symbol| #[trigger]
        sessions.contains_key(id) && sessions[id].status != SessionStatus::Cancelled
            && sessions[id].mentor == mentor && takes(
            sessions[id].scheduled_at as int,
            sessions[id].duration_mins as int,
            bucket,
        )
}

/// The half hours that are taken are exactly those of live sessions.
pub proof fn law_taken_by_live_sessions(s: RegistryState, mentor: Address, bucket: u64)
    requires
        s.valid(),
    ensures
        s.slots.contains_key((mentor, bucket)) <==> is_busy(s.sessions, mentor, bucket as int),
{
    let k = (mentor, bucket);
    if s.slots.contains_key(k) {
        assert(s.is_held(k));
        let id = s.slots[k];
        let r = s.sessions[id];
        lemma_takes(r.scheduled_at, r.duration_mins, bucket);
        assert(s.sessions.contains_key(id));
    }
    if is_busy(s.sessions, mentor, bucket as int) {
        let id = choose|id: Symbol| #[trigger]
            s.sessions.contains_key(id) && s.sessions[id].status != SessionStatus::Cancelled
                && s.sessions[id].mentor == mentor && takes(
                s.sessions[id].scheduled_at as int,
                s.sessions[id].duration_mins as int,
                bucket as int,
            );
        let r = s.sessions[id];
        assert(s.holds_window(id));
        lemma_takes(r.scheduled_at, r.duration_mins, bucket);
        assert(window_of(r).contains(k));
    }
}

/// Two sessions that both take some of one half hour of a mentor's time.
pub open spec fn collide(r: SessionRecord, scheduled_at: u64, duration_mins: u32) -> bool {
    exists|bucket: u64| #[trigger]
        takes(r.scheduled_at as int, r.duration_mins as int, bucket as int) && takes(
            scheduled_at as int,
            duration_mins as int,
            bucket as int,
        )
}

/// When a session can be registered: by the backend, under an id that is not used,
/// with room in the indexes, and with no half hour that a live session of the same
/// mentor takes too. It is refused for a conflict exactly where there is such a half
/// hour.
pub proof fn law_registration_is_open(
    s: RegistryState,
    ctx: Context,
    session_id: Symbol,
    mentor: Address,
    learner: Address,
    scheduled_at: u64,
    duration_mins: u32,
)
    requires
        s.valid(),
    ensures
        ({
            let f = s.register_refusal(
                ctx,
                session_id,
                mentor,
                learner,
                scheduled_at,
                duration_mins,
            );
            let signed = s.backend is Some && ctx.authorized@.contains(s.backend->0);
            let fresh = signed && !s.sessions.contains_key(session_id);
            let conflict = exists|id: Symbol| #[trigger]
                s.sessions.contains_key(id) && s.sessions[id].status != SessionStatus::Cancelled
                    && s.sessions[id].mentor == mentor && collide(
                    s.sessions[id],
                    scheduled_at,
                    duration_mins,
                );
            let full = (s.mentor_counts.contains_key(mentor) && s.mentor_counts[mentor]
                == u32::MAX) || (s.learner_counts.contains_key(learner)
                && s.learner_counts[learner] == u32::MAX);
            &&& f is None <==> fresh && !conflict && !full
            &&& f == Some(Failure::<Refusal>::Error(Refusal::NotInitialized)) <==> s.backend is None
            &&& f == Some(Failure::<Refusal>::Unauthorized) <==> s.backend is Some && !signed
            &&& f == Some(Failure::<Refusal>::Error(Refusal::DuplicateSession)) <==> signed
                && !fresh
            &&& f == Some(Failure::<Refusal>::Error(Refusal::SessionConflict)) <==> fresh
                && conflict
        }),
{
    let end = end_of(scheduled_at, duration_mins);
    let w = window(mentor, scheduled_at, end);
    let conflict = exists|id: Symbol| #[trigger]
        s.sessions.contains_key(id) && s.sessions[id].status != SessionStatus::Cancelled
            && s.sessions[id].mentor == mentor && collide(
            s.sessions[id],
            scheduled_at,
            duration_mins,
        );
    if conflict {
        let id = choose|id: Symbol| #[trigger]
            s.sessions.contains_key(id) && s.sessions[id].status != SessionStatus::Cancelled
                && s.sessions[id].mentor == mentor && collide(
                s.sessions[id],
                scheduled_at,
                duration_mins,
            );
        let r = s.sessions[id];
        let bucket = choose|bucket: u64| #[trigger]
            takes(r.scheduled_at as int, r.duration_mins as int, bucket as int) && takes(
                scheduled_at as int,
                duration_mins as int,
                bucket as int,
            );
        law_taken_by_live_sessions(s, mentor, bucket);
        lemma_takes(scheduled_at, duration_mins, bucket);
        assert(s.slots.dom().contains((mentor, bucket)) && w.contains((mentor, bucket)));
    }
    if !s.is_free(mentor, scheduled_at, end) {
        let k = choose|k: (Address, u64)| s.slots.dom().contains(k) && w.contains(k);
        assert(s.slots.contains_key(k));
        law_taken_by_live_sessions(s, mentor, k.1);
        lemma_takes(scheduled_at, duration_mins, k.1);
        assert(k == (mentor, k.1));
        let id = choose|id: Symbol| #[trigger]
            s.sessions.contains_key(id) && s.sessions[id].status != SessionStatus::Cancelled
                && s.sessions[id].mentor == mentor && takes(
                s.sessions[id].scheduled_at as int,
                s.sessions[id].duration_mins as int,
                k.1 as int,
            );
        assert(collide(s.sessions[id], scheduled_at, duration_mins));
        assert(conflict);
    }
}

/// What a registration does: the session is pending, as it was asked for, and takes
/// its half hours; it stands last in the lists of its mentor and its learner.
/// Everything else is as before.
pub proof fn law_registration(
    s: RegistryState,
    ctx: Context,
    session_id: Symbol,
    mentor: Address,
    learner: Address,
    scheduled_at: u64,
    duration_mins: u32,
    amount: i128,
    token: Address,
)
    requires
        s.valid(),
        s.register_refusal(ctx, session_id, mentor, learner, scheduled_at, duration_mins) is None,
    ensures
        ({
            let t = s.registered(
                ctx,
                session_id,
                mentor,
                learner,
                scheduled_at,
                duration_mins,
                amount,
                token,
            );
            let m = if s.mentor_counts.contains_key(mentor) {
                s.mentor_counts[mentor]
            } else {
                0
            };
            let l = if s.learner_counts.contains_key(learner) {
                s.learner_counts[learner]
            } else {
                0
            };
            &&& t.sessions == s.sessions.insert(
                session_id,
                SessionRecord {
                    session_id,
                    mentor,
                    learner,
                    scheduled_at,
                    duration_mins,
                    amount,
                    token,
                    status: SessionStatus::Pending,
                    registered_at: ctx.now,
                },
            )
            &&& forall|k: (Address, u64)| #[trigger]
                t.slots.contains_key(k) <==> s.slots.contains_key(k) || (k.0 == mentor && takes(
                    scheduled_at as int,
                    duration_mins as int,
                    k.1 as int,
                ))
            &&& forall|k: (Address, u64)| #[trigger]
                s.slots.contains_key(k) ==> t.slots[k] == s.slots[k]
            &&& t.mentor_counts == s.mentor_counts.insert(mentor, (m + 1) as u32)
            &&& t.mentor_at == s.mentor_at.insert((mentor, m), session_id)
            &&& t.learner_counts == s.learner_counts.insert(learner, (l + 1) as u32)
            &&& t.learner_at == s.learner_at.insert((learner, l), session_id)
            &&& m < u32::MAX && l < u32::MAX
            &&& t.effects == s.effects + seq![
                Effect::SessionRegistered { session_id, mentor, learner, scheduled_at },
            ]
            &&& t.backend == s.backend && t.session_oracle == s.session_oracle
            &&& t.metadata == s.metadata && t.mentor_sessions == s.mentor_sessions
            &&& t.learner_sessions == s.learner_sessions
        }),
{
    let t = s.registered(
        ctx,
        session_id,
        mentor,
        learner,
        scheduled_at,
        duration_mins,
        amount,
        token,
    );
    let r = t.sessions[session_id];
    assert forall|k: (Address, u64)| #[trigger]
        t.slots.contains_key(k) <==> s.slots.contains_key(k) || (k.0 == mentor && takes(
            scheduled_at as int,
            duration_mins as int,
            k.1 as int,
        )) by {
        lemma_takes(scheduled_at, duration_mins, k.1);
    }
    assert forall|k: (Address, u64)| #[trigger] s.slots.contains_key(k) implies t.slots[k]
        == s.slots[k] by {
        assert(s.slots.dom().contains(k));
        assert(!window_of(r).contains(k));
    }
    assert(t.effects =~= s.effects + seq![
        Effect::SessionRegistered { session_id, mentor, learner, scheduled_at },
    ]);
}

/// What a change of status does, by the backend or by the oracle: the session has
/// the status, and nothing else of it changes. Half hours become free exactly where
/// a session that was not cancelled is, and then those that it takes. No other
/// session changes.
pub proof fn law_status_change(s: RegistryState, session_id: Symbol, status: SessionStatus)
    requires
        s.sessions.contains_key(session_id),
    ensures
        ({
            let r = s.sessions[session_id];
            let frees = status == SessionStatus::Cancelled && r.status != SessionStatus::Cancelled;
            let t = s.updated(session_id, status);
            let u = s.oracle_updated(session_id, status);
            &&& t.sessions == s.sessions.insert(session_id, SessionRecord { status, ..r })
            &&& forall|k: (Address, u64)| #[trigger]
                t.slots.contains_key(k) <==> s.slots.contains_key(k) && !(frees && k.0 == r.mentor
                    && takes(r.scheduled_at as int, r.duration_mins as int, k.1 as int))
            &&& forall|k: (Address, u64)| #[trigger]
                t.slots.contains_key(k) ==> t.slots[k] == s.slots[k]
            &&& t.effects == s.effects + seq![
                Effect::StatusChanged { session_id, from: r.status, to: status },
            ]
            &&& t == (RegistryState {
                sessions: t.sessions,
                slots: t.slots,
                effects: t.effects,
                ..s
            })
            &&& u == (RegistryState {
                effects: s.effects + seq![
                    Effect::OracleStatusChanged { session_id, from: r.status, to: status },
                ],
                ..t
            })
        }),
{
    let r = s.sessions[session_id];
    let t = s.updated(session_id, status);
    let u = s.oracle_updated(session_id, status);
    assert forall|k: (Address, u64)| #[trigger]
        t.slots.contains_key(k) <==> s.slots.contains_key(k) && !(status
            == SessionStatus::Cancelled && r.status != SessionStatus::Cancelled && k.0 == r.mentor
            && takes(r.scheduled_at as int, r.duration_mins as int, k.1 as int)) by {
        lemma_takes(r.scheduled_at, r.duration_mins, k.1);
    }
    assert(t.effects =~= s.effects + seq![
        Effect::StatusChanged { session_id, from: r.status, to: status },
    ]);
    assert(u.effects =~= s.effects + seq![
        Effect::OracleStatusChanged { session_id, from: r.status, to: status },
    ]);
}

/// Who may change the status of a session: the backend, and the oracle that the
/// backend named.
pub proof fn law_status_change_is_open(
    s: RegistryState,
    ctx: Context,
    oracle: Address,
    session_id: Symbol,
)
    ensures
        ({
            let f = s.update_refusal(ctx, session_id);
            let g = s.oracle_refusal(ctx, oracle, session_id);
            let signed = s.backend is Some && ctx.authorized@.contains(s.backend->0);
            &&& f is None <==> signed && s.sessions.contains_key(session_id)
            &&& f == Some(Failure::<Refusal>::Error(Refusal::SessionNotFound)) <==> signed
                && !s.sessions.contains_key(session_id)
            &&& g is None <==> s.session_oracle == Some(oracle) && ctx.authorized@.contains(oracle)
                && s.sessions.contains_key(session_id)
            &&& g == Some(Failure::<Refusal>::Error(Refusal::OracleNotConfigured))
                <==> s.session_oracle is None
            &&& g == Some(Failure::<Refusal>::Unauthorized) <==> s.session_oracle is Some
                && !ctx.authorized@.contains(oracle)
            &&& g == Some(Failure::<Refusal>::Error(Refusal::Unauthorized))
                <==> s.session_oracle is Some && ctx.authorized@.contains(oracle)
                && s.session_oracle != Some(oracle)
            &&& s.backend_refusal(ctx) is None <==> signed
            &&& s.initialize_refusal() is None <==> s.backend is None
        }),
{
}

/// A half hour that starts at `start` is among the slots.
pub open spec fn shows(slots: Seq<(u64, bool)>, start: u64) -> bool {
    exists|i: int| 0 <= i < slots.len() && (#[trigger] slots[i]).0 == start
}

/// What the availability shows: every half hour that starts in the span, once and in
/// order, and of each whether no live session of the mentor takes any of it.
pub proof fn law_availability(s: RegistryState, mentor: Address, from: u64, to: u64)
    requires
        s.valid(),
    ensures
        ({
            let slots = availability(s.slots, mentor, from, to);
            &&& forall|i: int|
                0 <= i < slots.len() ==> from <= (#[trigger] slots[i]).0 < to && slots[i].0 % 1_800
                    == 0
            &&& forall|i: int|
                0 < i < slots.len() ==> (#[trigger] slots[i]).0 == slots[i - 1].0 + 1_800
            &&& forall|start: u64|
                from <= start < to && start % 1_800 == 0 ==> #[trigger] shows(slots, start)
            &&& forall|i: int|
                0 <= i < slots.len() ==> (#[trigger] slots[i]).1 == !is_busy(
                    s.sessions,
                    mentor,
                    slots[i].0 as int / 1_800,
                )
        }),
{
    let slots = availability(s.slots, mentor, from, to);
    let first = slots_up(from as int);
    let past = slots_up(to as int);
    assert forall|i: int| 0 <= i < slots.len() implies (#[trigger] slots[i]).0 == 1_800 * (first
        + i) && from <= slots[i].0 < to && slots[i].1 == !s.slots.contains_key(
        (mentor, (first + i) as u64),
    ) by {
        assert(first + i < past);
        assert((first + i) * SLOT_SIZE_SECS < to);
    }
    assert forall|i: int| 0 < i < slots.len() implies (#[trigger] slots[i]).0 == slots[i - 1].0
        + 1_800 by {
        assert(slots[i - 1].0 == 1_800 * (first + i - 1));
    }
    assert forall|i: int| 0 <= i < slots.len() implies (#[trigger] slots[i]).0 % 1_800 == 0 by {
        assert(slots[i].0 == 1_800 * (first + i));
    }
    assert forall|start: u64| from <= start < to && start % 1_800 == 0 implies #[trigger] shows(
        slots,
        start,
    ) by {
        let i = start as int / 1_800 - first;
        assert(0 <= i < slots.len());
        assert(slots[i].0 == 1_800 * (first + i));
    }
    assert forall|i: int| 0 <= i < slots.len() implies (#[trigger] slots[i]).1 == !is_busy(
        s.sessions,
        mentor,
        slots[i].0 as int / 1_800,
    ) by {
        assert(slots[i].0 == 1_800 * (first + i));
        assert(slots[i].0 as int / 1_800 == first + i);
        law_taken_by_live_sessions(s, mentor, (first + i) as u64);
    }
}

/// How the lists of one who is mentor and learner are merged: the first list as it
/// is, and behind it, in order, whatever of the second has not come yet.
pub proof fn law_merge(a: Seq<Symbol>, b: Seq<Symbol>, more: Symbol)
    ensures
        merged(a, Seq::empty()) == a,
        merged(a, b.push(more)) == (if merged(a, b).contains(more) {
            merged(a, b)
        } else {
            merged(a, b) + seq![more]
        }),
        forall|id: Symbol| #[trigger]
            merged(a, b).contains(id) <==> a.contains(id) || b.contains(id),
    decreases b.len(),
{
    let m = merged(a, b);
    assert(b.push(more).drop_last() =~= b);
    assert(m.push(more) =~= m + seq![more]);
    if b.len() > 0 {
        let front = b.drop_last();
        let x = b.last();
        law_merge(a, front, x);
        let n = merged(a, front);
        assert forall|id: Symbol| #[trigger] m.contains(id) <==> a.contains(id) || b.contains(id) by {
            if m.contains(id) {
                let i = choose|i: int| 0 <= i < m.len() && m[i] == id;
                if i < n.len() {
                    assert(n[i] == id);
                    assert(n.contains(id));
                    if front.contains(id) {
                        let j = choose|j: int| 0 <= j < front.len() && front[j] == id;
                        assert(b[j] == id);
                    }
                } else {
                    assert(b[b.len() - 1] == id);
                }
            }
            if a.contains(id) || b.contains(id) {
                if a.contains(id) {
                    assert(n.contains(id));
                } else {
                    let j = choose|j: int| 0 <= j < b.len() && b[j] == id;
                    if j < front.len() {
                        assert(front[j] == id);
                        assert(n.contains(id));
                    }
                }
                if n.contains(id) {
                    let i = choose|i: int| 0 <= i < n.len() && n[i] == id;
                    assert(m[i] == id);
                } else {
                    assert(m[n.len() as int] == id);
                }
            }
        }
    }
}

/// The backend is named once, and is then who was named.
pub proof fn law_naming_the_backend(s: RegistryState, backend: Address)
    ensures
        s.initialize_refusal() is None <==> s.backend is None,
        s.initialized(backend) == (RegistryState { backend: Some(backend), ..s }),
{
}

} // verus!
