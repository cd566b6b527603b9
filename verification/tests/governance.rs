//! Proposals, votes and their execution.

use mentorminds::governance::{
    Effect, GovernanceContract, ProposalAction, ProposalStatus, Refusal, MAX_HASHED_ARGS,
};
use mentorminds::types::{Address, Context, Digest, Failure, Symbol};
use std::collections::HashMap;

fn addr(n: u128) -> Address {
    Address { contract: false, hi: 0, lo: n }
}

fn sym(text: &str) -> Symbol {
    let mut bytes = [0u8; 32];
    bytes[..text.len()].copy_from_slice(text.as_bytes());
    let mut hi = [0u8; 16];
    let mut lo = [0u8; 16];
    hi.copy_from_slice(&bytes[..16]);
    lo.copy_from_slice(&bytes[16..]);
    Symbol { hi: u128::from_be_bytes(hi), lo: u128::from_be_bytes(lo) }
}

fn filled(byte: u8) -> Digest {
    let half = u128::from_be_bytes([byte; 16]);
    Digest { hi: half, lo: half }
}

fn message(failure: Failure<Refusal>) -> &'static str {
    match failure {
        Failure::Error(r) => r.message(),
        Failure::Unauthorized => "unauthorized",
    }
}

const ADMIN: u128 = 1;
const TOKEN: u128 = 2;
const SNAPSHOT: u128 = 3;
const TEMPLATES: u128 = 4;
const VOTER: u128 = 5;
const OTHER: u128 = 6;
const TARGET: u128 = 7;

/// The contract among the contracts that it asks.
struct World {
    gov: GovernanceContract,
    now: u64,
    supply: i128,
    balances: HashMap<u128, i128>,
    templates: HashMap<(u128, u128), Digest>,
}

impl World {
    fn new(supply: i128) -> World {
        let mut gov = GovernanceContract::new();
        gov.initialize(addr(ADMIN), addr(TOKEN), addr(SNAPSHOT), Some(10), Some(1_000)).unwrap();
        World { gov, now: 0, supply, balances: HashMap::new(), templates: HashMap::new() }
    }

    fn ctx(&self) -> Context {
        let authorized = (0..50).map(addr).collect();
        Context { now: self.now, sequence: 77, contract: addr(100), authorized }
    }

    fn propose(&mut self, proposer: u128, title: &[u8], byte: u8, action: ProposalAction) -> Result<u32, Failure<Refusal>> {
        let ctx = self.ctx();
        let q = self.gov.proposal_queries(&ctx, addr(proposer), &action)?;
        assert_eq!(q.snapshot, addr(SNAPSHOT));
        let reply = match q.template {
            Some((templates, target, function)) => {
                assert_eq!(templates, addr(TEMPLATES));
                self.templates.get(&(target.lo, function.hi)).copied()
            }
            None => None,
        };
        let id = self.gov.create_proposal(
            &ctx,
            addr(proposer),
            title.to_vec(),
            filled(byte),
            action,
            reply,
            self.supply,
        )?;
        assert_eq!(id, q.id);
        Ok(id)
    }

    fn vote(&mut self, voter: u128, id: u32, support: bool) -> Result<(), Failure<Refusal>> {
        let ctx = self.ctx();
        let snapshot = self.gov.vote_query(&ctx, addr(voter), id)?;
        assert_eq!(snapshot, addr(SNAPSHOT));
        let weight = self.balances.get(&voter).copied().unwrap_or(0);
        self.gov.vote(&ctx, addr(voter), id, support, weight)
    }

    fn execute(&mut self, id: u32) -> Result<(), Failure<Refusal>> {
        let ctx = self.ctx();
        self.gov.execute_proposal(&ctx, id)
    }

    fn status(&self, id: u32) -> ProposalStatus {
        self.gov.get_proposal(id).unwrap().status
    }
}

fn call(function: &str, args: Vec<u64>) -> ProposalAction {
    ProposalAction::ExecuteCall(addr(TARGET), sym(function), args)
}

#[test]
fn test_full_proposal_lifecycle() {
    let mut w = World::new(1_000);
    w.balances.insert(VOTER, 200);
    let id = w.propose(VOTER, b"Update fee", 1, ProposalAction::UpdateFee(300)).unwrap();

    w.vote(VOTER, id, true).unwrap();
    assert!(w.gov.get_vote(id, addr(VOTER)));

    w.now += 11;
    w.execute(id).unwrap();
    assert_eq!(w.status(id), ProposalStatus::Executed);
}

#[test]
fn test_quorum_failure() {
    let mut w = World::new(10_000);
    w.balances.insert(VOTER, 100);
    let id = w.propose(VOTER, b"Raise delay", 2, ProposalAction::UpdateAutoRelease(86_400)).unwrap();

    w.vote(VOTER, id, true).unwrap();
    w.now += 11;
    w.execute(id).unwrap();
    assert_eq!(w.status(id), ProposalStatus::Failed);
}

#[test]
#[should_panic(expected = "already voted")]
fn test_double_vote_prevention() {
    let mut w = World::new(1_000);
    w.balances.insert(VOTER, 200);
    let id = w.propose(VOTER, b"Asset listing", 3, ProposalAction::AddAsset(addr(30))).unwrap();
    w.vote(VOTER, id, true).unwrap();
    match w.vote(VOTER, id, false) {
        Ok(()) => {}
        Err(f) => panic!("{}", message(f)),
    }
}

#[test]
fn test_execute_call_with_matching_template() {
    let mut w = World::new(1_000);
    let ctx = w.ctx();
    w.gov.set_templates_contract(&ctx, addr(TEMPLATES)).unwrap();
    w.balances.insert(VOTER, 200);
    let hash = GovernanceContract::compute_args_hash(&vec![300]);
    w.templates.insert((TARGET, sym("set_fee_bps").hi), hash);

    let id = w.propose(VOTER, b"Set fee via template", 4, call("set_fee_bps", vec![300])).unwrap();
    w.vote(VOTER, id, true).unwrap();
    w.now += 11;
    w.execute(id).unwrap();
    assert_eq!(w.status(id), ProposalStatus::Executed);
}

#[test]
#[should_panic(expected = "args do not match template hash")]
fn test_execute_call_with_non_matching_args() {
    let mut w = World::new(1_000);
    let ctx = w.ctx();
    w.gov.set_templates_contract(&ctx, addr(TEMPLATES)).unwrap();
    w.balances.insert(VOTER, 200);
    let hash = GovernanceContract::compute_args_hash(&vec![300]);
    w.templates.insert((TARGET, sym("set_fee_bps").hi), hash);

    match w.propose(VOTER, b"Set fee to wrong value", 5, call("set_fee_bps", vec![500])) {
        Ok(_) => {}
        Err(f) => panic!("{}", message(f)),
    }
}

#[test]
fn test_execute_call_custom_quorum_no_template() {
    let mut w = World::new(1_000);
    let ctx = w.ctx();
    w.gov.set_templates_contract(&ctx, addr(TEMPLATES)).unwrap();
    w.balances.insert(VOTER, 200);

    let id = w.propose(VOTER, b"Custom call", 6, call("some_call", vec![42])).unwrap();
    w.vote(VOTER, id, true).unwrap();
    w.now += 11;
    w.execute(id).unwrap();
    assert_eq!(w.status(id), ProposalStatus::Failed);
}

#[test]
fn test_execute_call_custom_quorum_met() {
    let mut w = World::new(1_000);
    let ctx = w.ctx();
    w.gov.set_templates_contract(&ctx, addr(TEMPLATES)).unwrap();
    w.balances.insert(VOTER, 200);
    w.balances.insert(OTHER, 200);

    let id = w.propose(VOTER, b"Custom call meet quorum", 7, call("some_call", vec![42])).unwrap();
    w.vote(VOTER, id, true).unwrap();
    w.vote(OTHER, id, true).unwrap();
    w.now += 11;
    w.execute(id).unwrap();
    assert_eq!(w.status(id), ProposalStatus::Executed);
}

#[test]
fn governance_initialization() {
    let mut g = GovernanceContract::new();
    let zero = g.initialize(addr(1), addr(2), addr(3), Some(0), None);
    assert_eq!(message(zero.unwrap_err()), "invalid voting period");
    for bad in [0, 10_001] {
        let done = g.initialize(addr(1), addr(2), addr(3), None, Some(bad));
        assert_eq!(message(done.unwrap_err()), "invalid quorum bps");
    }
    assert_eq!(g.token_address(), Err(Failure::Error(Refusal::TokenNotSet)));
    g.initialize(addr(1), addr(2), addr(3), None, None).unwrap();
    assert_eq!((g.voting_period_secs, g.quorum_bps), (604_800, 1_000));
    assert_eq!(g.token_address(), Ok(addr(2)));
    let again = g.initialize(addr(9), addr(2), addr(3), None, None);
    assert_eq!(message(again.unwrap_err()), "already initialized");
    assert_eq!(g.admin, Some(addr(1)));
}

#[test]
fn only_the_admin_names_contracts_and_cancels() {
    let mut w = World::new(1_000);
    let id = w.propose(VOTER, b"x", 1, ProposalAction::UpdateFee(1)).unwrap();
    let stranger = Context { now: 0, sequence: 0, contract: addr(100), authorized: vec![addr(VOTER)] };
    assert_eq!(w.gov.set_timelock(&stranger, addr(9)), Err(Failure::Unauthorized));
    assert_eq!(w.gov.set_templates_contract(&stranger, addr(9)), Err(Failure::Unauthorized));
    assert_eq!(w.gov.cancel_proposal(&stranger, id), Err(Failure::Unauthorized));
    let ctx = w.ctx();
    w.gov.set_timelock(&ctx, addr(9)).unwrap();
    assert_eq!(w.gov.timelock, Some(addr(9)));
    let mut g = GovernanceContract::new();
    assert_eq!(g.set_timelock(&ctx, addr(9)), Err(Failure::Error(Refusal::NotInitialized)));
}

#[test]
fn proposal_records_what_was_asked() {
    let mut w = World::new(1_234);
    w.now = 50;
    let id = w.propose(VOTER, b"Fee", 9, ProposalAction::UpdateFee(300)).unwrap();
    let p = w.gov.get_proposal(id).unwrap();
    assert_eq!((p.id, p.proposer, p.title.as_slice()), (1, addr(VOTER), &b"Fee"[..]));
    assert_eq!((p.description_hash, p.status), (filled(9), ProposalStatus::Active));
    assert_eq!((p.created_at, p.voting_ends_at, p.snapshot_ledger), (50, 60, 77));
    assert_eq!((p.total_supply_snapshot, p.votes_for, p.votes_against), (1_234, 0, 0));
    let made = Effect::ProposalCreated {
        id: 1,
        proposer: addr(VOTER),
        snapshot_ledger: 77,
        voting_ends_at: 60,
    };
    assert_eq!(w.gov.effects.last(), Some(&made));
    assert_eq!(w.propose(VOTER, b"Two", 9, ProposalAction::UpdateFee(1)), Ok(2));
}

#[test]
fn proposal_refusals() {
    let mut w = World::new(1_000);
    let nobody = Context { now: 0, sequence: 0, contract: addr(100), authorized: vec![] };
    let action = ProposalAction::UpdateFee(1);
    let q = w.gov.proposal_queries(&nobody, addr(VOTER), &action);
    assert_eq!(q, Err(Failure::Unauthorized));
    let mut g = GovernanceContract::new();
    let ctx = w.ctx();
    let made = g.create_proposal(&ctx, addr(VOTER), vec![], filled(0), action, None, 5);
    assert_eq!(message(made.unwrap_err()), "not initialized");
    w.now = u64::MAX - 5;
    let made = w.propose(VOTER, b"", 0, ProposalAction::UpdateFee(1));
    assert_eq!(message(made.unwrap_err()), "voting end overflow");
    w.gov.proposal_count = u32::MAX;
    let made = w.propose(VOTER, b"", 0, ProposalAction::UpdateFee(1));
    assert_eq!(message(made.unwrap_err()), "proposal overflow");
    w.gov.proposal_count = 0;
    w.gov.snapshot = None;
    let made = w.propose(VOTER, b"", 0, ProposalAction::UpdateFee(1));
    assert_eq!(message(made.unwrap_err()), "snapshot not set");
    let ctx = w.ctx();
    let made = w.gov.create_proposal(
        &ctx,
        addr(VOTER),
        vec![],
        filled(0),
        ProposalAction::UpdateFee(1),
        None,
        5,
    );
    assert_eq!(message(made.unwrap_err()), "snapshot not set");
    assert_eq!(w.gov.proposal_count, 0);
}

#[test]
fn digest_of_arguments_is_sha_256_of_their_bytes() {
    // SHA-256 of nothing.
    let empty = GovernanceContract::compute_args_hash(&vec![]);
    assert_eq!(empty.hi, 0xe3b0c44298fc1c149afbf4c8996fb924);
    assert_eq!(empty.lo, 0x27ae41e4649b934ca495991b7852b855);
    // "abcdefgh" as one big-endian number.
    let args = vec![0x6162636465666768u64];
    assert_eq!(GovernanceContract::encode_args(&args), b"abcdefgh".to_vec());
    let digest = GovernanceContract::compute_args_hash(&args);
    assert_eq!(digest.hi, 0x9c56cc51b374c3ba189210d5b6d4bf57);
    assert_eq!(digest.lo, 0x790d351c96c47c02190ecf1e430635ab);
}

#[test]
fn longest_arguments_are_digested_and_longer_ones_refused() {
    let longest = vec![0u64; MAX_HASHED_ARGS];
    let digest = GovernanceContract::compute_args_hash(&longest);
    // SHA-256 of a mebibyte of zeros.
    assert_eq!(digest.hi, 0x30e14955ebf1352266dc2ff8067e6810);
    assert_eq!(digest.lo, 0x4607e750abb9d3b36582b8af909fcb58);

    let mut w = World::new(1_000);
    let ctx = w.ctx();
    w.gov.set_templates_contract(&ctx, addr(TEMPLATES)).unwrap();
    w.templates.insert((TARGET, sym("f").hi), digest);
    assert_eq!(w.propose(VOTER, b"", 0, call("f", longest)), Ok(1));
    let made = w.propose(VOTER, b"", 0, call("f", vec![0; MAX_HASHED_ARGS + 1]));
    assert_eq!(message(made.unwrap_err()), "Error(Budget, ExceededLimit)");
}

#[test]
fn known_digest_is_held_against_the_template() {
    let mut w = World::new(1_000);
    let ctx = w.ctx();
    w.gov.set_templates_contract(&ctx, addr(TEMPLATES)).unwrap();
    let mut make = |action: ProposalAction, known: Digest, template: Option<Digest>| {
        w.gov.create_hashed_proposal(&ctx, addr(VOTER), vec![], filled(0), action, known, template, 5)
    };
    assert_eq!(make(call("f", vec![]), filled(1), Some(filled(1))), Ok(1));
    let made = make(call("f", vec![]), filled(1), Some(filled(2)));
    assert_eq!(message(made.unwrap_err()), "args do not match template hash");
    assert_eq!(make(ProposalAction::UpdateFee(1), filled(1), Some(filled(2))), Ok(2));
    assert_eq!(make(call("f", vec![]), filled(1), None), Ok(3));
    assert_eq!(w.gov.custom.get(&1), None);
    assert_eq!(w.gov.custom.get(&2), None);
    assert_eq!(w.gov.custom.get(&3), Some(&true));
}

#[test]
fn call_without_a_templates_contract_keeps_the_plain_quorum() {
    let mut w = World::new(1_000);
    w.balances.insert(VOTER, 100);
    let id = w.propose(VOTER, b"", 0, call("f", vec![1])).unwrap();
    w.vote(VOTER, id, true).unwrap();
    w.now = 10;
    w.execute(id).unwrap();
    assert_eq!(w.status(id), ProposalStatus::Executed);
    let n = w.gov.effects.len();
    let made = Effect::Call { proposal_id: id, target: addr(TARGET), function: sym("f") };
    assert_eq!(w.gov.effects[n - 2], made);
    assert_eq!(w.gov.effects[n - 1], Effect::ProposalExecuted { proposal_id: id });
}

#[test]
fn votes_are_tallied_with_their_weights() {
    let mut w = World::new(1_000);
    w.balances.insert(VOTER, 200);
    w.balances.insert(OTHER, 70);
    let id = w.propose(VOTER, b"", 0, ProposalAction::UpdateFee(1)).unwrap();
    w.vote(VOTER, id, true).unwrap();
    w.vote(OTHER, id, false).unwrap();
    let p = w.gov.get_proposal(id).unwrap();
    assert_eq!((p.votes_for, p.votes_against), (200, 70));
    assert_eq!(w.gov.get_vote_weight(id, addr(VOTER)), 200);
    assert_eq!(w.gov.get_vote_weight(id, addr(OTHER)), 70);
    assert_eq!(w.gov.get_vote_weight(id, addr(9)), 0);
    assert!(!w.gov.get_vote(id, addr(OTHER)));
    assert!(!w.gov.get_vote(id, addr(9)));
    let cast = Effect::VoteCast { proposal_id: id, voter: addr(OTHER), support: false, weight: 70 };
    assert_eq!(w.gov.effects.last(), Some(&cast));
}

#[test]
fn vote_refusals() {
    let mut w = World::new(1_000);
    let id = w.propose(VOTER, b"", 0, ProposalAction::UpdateFee(1)).unwrap();
    let nobody = Context { now: 0, sequence: 0, contract: addr(100), authorized: vec![] };
    assert_eq!(w.gov.vote(&nobody, addr(VOTER), id, true, 5), Err(Failure::Unauthorized));
    assert_eq!(message(w.vote(VOTER, 9, true).unwrap_err()), "proposal not found");
    assert_eq!(message(w.vote(VOTER, id, true).unwrap_err()), "no voting power");
    w.balances.insert(VOTER, i128::MAX);
    w.balances.insert(OTHER, 1);
    w.vote(VOTER, id, true).unwrap();
    assert_eq!(message(w.vote(OTHER, id, true).unwrap_err()), "votes for overflow");
    let second = w.propose(VOTER, b"", 0, ProposalAction::UpdateFee(1)).unwrap();
    w.vote(VOTER, second, false).unwrap();
    assert_eq!(message(w.vote(OTHER, second, false).unwrap_err()), "votes against overflow");
    assert_eq!(w.gov.get_proposal(second).unwrap().votes_against, i128::MAX);
    w.now = 10;
    assert_eq!(message(w.vote(OTHER, id, true).unwrap_err()), "voting period ended");
    w.now = 9;
    w.gov.snapshot = None;
    assert_eq!(message(w.vote(OTHER, id, true).unwrap_err()), "snapshot not set");
    let ctx = w.ctx();
    w.gov.cancel_proposal(&ctx, id).unwrap();
    assert_eq!(message(w.vote(OTHER, id, true).unwrap_err()), "proposal not active");
}

fn passed(action: ProposalAction) -> World {
    let mut w = World::new(1_000);
    w.balances.insert(VOTER, 600);
    let id = w.propose(VOTER, b"", 0, action).unwrap();
    w.vote(VOTER, id, true).unwrap();
    w.now = 10;
    w.execute(id).unwrap();
    assert_eq!(w.status(id), ProposalStatus::Executed);
    w
}

#[test]
fn actions_take_effect() {
    assert_eq!(passed(ProposalAction::UpdateFee(300)).gov.current_fee_bps, Some(300));
    let w = passed(ProposalAction::UpdateAutoRelease(86_400));
    assert_eq!(w.gov.current_auto_release_secs, Some(86_400));
    let w = passed(ProposalAction::AddAsset(addr(30)));
    assert_eq!(w.gov.approved_assets.get(&addr(30)), Some(&true));
    assert_eq!(passed(ProposalAction::UpdateAdmin(addr(31))).gov.admin, Some(addr(31)));
}

#[test]
fn execution_refusals() {
    let mut w = World::new(1_000);
    assert_eq!(message(w.execute(1).unwrap_err()), "proposal not found");
    let id = w.propose(VOTER, b"", 0, ProposalAction::UpdateFee(1)).unwrap();
    w.now = 9;
    assert_eq!(message(w.execute(id).unwrap_err()), "voting period not ended");
    w.now = 10;
    w.execute(id).unwrap();
    assert_eq!(w.status(id), ProposalStatus::Failed);
    assert_eq!(message(w.execute(id).unwrap_err()), "proposal not executable");
    let mut w = passed(ProposalAction::UpdateFee(1));
    assert_eq!(message(w.execute(1).unwrap_err()), "proposal already executed");
    let ctx = w.ctx();
    let done = w.gov.cancel_proposal(&ctx, 1);
    assert_eq!(message(done.unwrap_err()), "cannot cancel executed proposal");
    let done = w.gov.cancel_proposal(&ctx, 2);
    assert_eq!(message(done.unwrap_err()), "proposal not found");
}

#[test]
fn cancelled_proposal_is_not_executed() {
    let mut w = World::new(1_000);
    let id = w.propose(VOTER, b"", 0, ProposalAction::UpdateFee(1)).unwrap();
    let ctx = w.ctx();
    w.gov.cancel_proposal(&ctx, id).unwrap();
    assert_eq!(w.status(id), ProposalStatus::Cancelled);
    w.now = 10;
    assert_eq!(message(w.execute(id).unwrap_err()), "proposal not executable");
}

#[test]
fn majority_and_supply_decide() {
    // A tie does not pass, nor does anything without a supply.
    let mut w = World::new(1_000);
    w.balances.insert(VOTER, 300);
    w.balances.insert(OTHER, 300);
    let id = w.propose(VOTER, b"", 0, ProposalAction::UpdateFee(1)).unwrap();
    w.vote(VOTER, id, true).unwrap();
    w.vote(OTHER, id, false).unwrap();
    w.supply = 0;
    let second = w.propose(VOTER, b"", 0, ProposalAction::UpdateFee(1)).unwrap();
    w.vote(VOTER, second, true).unwrap();
    w.now = 10;
    w.execute(id).unwrap();
    w.execute(second).unwrap();
    assert_eq!(w.status(id), ProposalStatus::Failed);
    assert_eq!(w.status(second), ProposalStatus::Failed);
    assert_eq!(w.gov.current_fee_bps, None);
}

#[test]
fn quorum_is_met_by_exactly_its_share() {
    for (weight, status) in [(99, ProposalStatus::Failed), (100, ProposalStatus::Executed)] {
        let mut w = World::new(1_000);
        w.balances.insert(VOTER, weight);
        let id = w.propose(VOTER, b"", 0, ProposalAction::UpdateFee(1)).unwrap();
        w.vote(VOTER, id, true).unwrap();
        w.now = 10;
        w.execute(id).unwrap();
        assert_eq!(w.status(id), status);
    }
}

#[test]
fn execution_out_of_range_is_refused() {
    let mut w = World::new(1);
    w.balances.insert(VOTER, i128::MAX);
    w.balances.insert(OTHER, i128::MAX);
    let id = w.propose(VOTER, b"", 0, ProposalAction::UpdateFee(1)).unwrap();
    w.vote(VOTER, id, true).unwrap();
    w.now = 10;
    assert_eq!(message(w.execute(id).unwrap_err()), "quorum overflow");
    w.now = 9;
    w.vote(OTHER, id, false).unwrap();
    w.now = 10;
    assert_eq!(message(w.execute(id).unwrap_err()), "vote overflow");
    let mut w = World::new(i128::MAX);
    w.balances.insert(VOTER, 1);
    let id = w.propose(VOTER, b"", 0, ProposalAction::UpdateFee(1)).unwrap();
    w.vote(VOTER, id, true).unwrap();
    w.now = 10;
    assert_eq!(message(w.execute(id).unwrap_err()), "quorum threshold overflow");
}

#[test]
fn status_transitions() {
    let all = [ProposalStatus::Active, ProposalStatus::Passed, ProposalStatus::Failed, ProposalStatus::Executed, ProposalStatus::Cancelled];
    let valid = [(ProposalStatus::Active, ProposalStatus::Passed), (ProposalStatus::Active, ProposalStatus::Failed), (ProposalStatus::Active, ProposalStatus::Cancelled), (ProposalStatus::Passed, ProposalStatus::Executed)];
    for from in all {
        for to in all {
            let yes = ProposalStatus::is_valid_transition(&from, &to);
            assert_eq!(yes, valid.contains(&(from, to)));
        }
    }
}
