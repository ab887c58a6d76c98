use std::str::FromStr;

use bundlr_validators::action::{HandlerResult, QueryResponseMsg};
use bundlr_validators::epoch::Epoch;
use bundlr_validators::error::ContractError;
use bundlr_validators::membership::{join, join_check, leave, leave_check};
use bundlr_validators::queries;
use bundlr_validators::rotation::{pick_random_nominees, update_epoch, TransactionBasedRngSeed};
use bundlr_validators::shared::{Address, Amount, TransactionId};
use bundlr_validators::slashing::{
    evaluate_votes, on_update_epoch, propose, vote, Proposal, SlashProposalRecord, Vote, Voting,
};
use bundlr_validators::state::{State, Validator};

const VALIDATORS_AND_STAKES: [(&str, u128); 13] = [
    ("a1", 10000),
    ("a2", 20000),
    ("a3", 10000),
    ("a4", 15000),
    ("a5", 10000),
    ("a6", 10000),
    ("a7", 10010),
    ("a8", 10000),
    ("a9", 10010),
    ("a10", 10000),
    ("a11", 10000),
    ("a12", 30000),
    ("a13", 15000),
];

/// A seed transaction id: the base64url text of the bytes 0, 1, ..., 31.
const SEED_TX: &str = "AAECAwQFBgcICQoLDA0ODxAREhMUFRYXGBkaGxwdHh8";

fn addr(s: &str) -> Address {
    Address::from_str(s).unwrap()
}

fn txid(s: &str) -> TransactionId {
    TransactionId::from_str(s).unwrap()
}

fn stake_of(a: &str) -> Amount {
    let (_, stake) = VALIDATORS_AND_STAKES.iter().find(|(x, _)| *x == a).unwrap();
    Amount::from(*stake)
}

fn proposal(id: &str, block: u128, validator: &str) -> Proposal {
    Proposal {
        id: id.to_string(),
        size: 100,
        fee: 100,
        currency: "BTC".to_string(),
        block,
        validator: validator.to_string(),
        signature: "foo".to_string(),
    }
}

fn open_votes(votes: &[(&str, Vote)]) -> Voting {
    Voting::Open(votes.iter().map(|(a, v)| (addr(a), *v)).collect())
}

fn state() -> State {
    // the registry is kept in ascending address order
    let mut sorted: Vec<(&str, u128)> = VALIDATORS_AND_STAKES.to_vec();
    sorted.sort_by(|x, y| x.0.cmp(y.0));
    let validators = sorted
        .iter()
        .map(|(address, stake)| Validator {
            address: addr(address),
            url: url::Url::parse(&format!("https://{}.example.com", address)).unwrap(),
            stake: Amount::from(*stake),
        })
        .collect::<Vec<Validator>>();

    let nominated_validators = VALIDATORS_AND_STAKES[2..12]
        .iter()
        .map(|(address, _)| addr(address))
        .collect::<Vec<Address>>();

    let closed_votes = ["a1", "a2", "a3", "a4", "a5", "a6", "a12"]
        .iter()
        .map(|a| (addr(a), (Vote::For, stake_of(a))))
        .collect();

    let slash_proposals = vec![
        (
            txid("tx1"),
            SlashProposalRecord {
                proposal: proposal("tx1", 1900, "a1"),
                proposer: addr("a1"),
                height: 2350,
                tx: txid("proposal_tx_id_1"),
                voting: Voting::Closed { votes: closed_votes, final_vote: Vote::For },
            },
        ),
        (
            txid("tx2"),
            SlashProposalRecord {
                proposal: proposal("tx2", 1900, "a3"),
                proposer: addr("a3"),
                height: 2350,
                tx: txid("proposal_tx_id_2"),
                voting: open_votes(&[
                    ("a3", Vote::For),
                    ("a1", Vote::For),
                    ("a2", Vote::Against),
                    ("a4", Vote::For),
                    ("a5", Vote::For),
                    ("a6", Vote::For),
                    ("a10", Vote::For),
                    ("a11", Vote::For),
                    ("a7", Vote::For),
                ]),
            },
        ),
        (
            txid("tx3"),
            SlashProposalRecord {
                proposal: proposal("tx3", 2300, "a4"),
                proposer: addr("a3"),
                height: 2350,
                tx: txid("proposal_tx_id_2"),
                voting: open_votes(&[
                    ("a4", Vote::For),
                    ("a1", Vote::For),
                    ("a2", Vote::Against),
                    ("a3", Vote::For),
                    ("a6", Vote::For),
                    ("a5", Vote::Against),
                    ("a9", Vote::For),
                    ("a7", Vote::Against),
                    ("a8", Vote::Against),
                    ("a10", Vote::Against),
                    ("a12", Vote::For),
                    ("a11", Vote::Against),
                ]),
            },
        ),
    ];

    State {
        bundler: addr("bundler"),
        bundlers_contract: addr("bundler_contract"),
        epoch: Epoch { seq: 5, tx: txid("epoch_update_tx_id"), height: 2522 },
        epoch_duration: 500,
        minimum_stake: Amount::from(100),
        token: addr("token_address"),
        max_num_nominated_validators: 10,
        validators,
        nominated_validators,
        slash_proposal_lifetime: 300,
        slash_proposals,
    }
}

fn record<'a>(state: &'a State, tx: &str) -> &'a SlashProposalRecord {
    &state.slash_proposals.iter().find(|(k, _)| *k == txid(tx)).unwrap().1
}

fn tx2_votes(state: &State) -> &Vec<(Address, Vote)> {
    match record(state, "tx2").voting {
        Voting::Open(ref votes) => votes,
        _ => unreachable!(),
    }
}

fn new_state(result: Result<HandlerResult<State, QueryResponseMsg>, ContractError>) -> State {
    match result {
        Ok(HandlerResult::NewState(state)) => state,
        other => panic!("expected a new state, got {:?}", other),
    }
}

#[test]
fn evaluate_votes_returns_total_stake_value() {
    let state = state();
    let (total_stake, _, _) = evaluate_votes(&state.validators, tx2_votes(&state));
    assert_eq!(total_stake, 170020);
}

#[test]
fn evaluate_votes_returns_voted_stake_value() {
    let state = state();
    let (_, voted_stake, _) = evaluate_votes(&state.validators, tx2_votes(&state));
    assert_eq!(voted_stake, 105010);
}

#[test]
fn evaluate_votes_returns_stake_weighted_result() {
    let state = state();
    let (_, _, result) = evaluate_votes(&state.validators, tx2_votes(&state));
    assert_eq!(result, 65010);
}

#[test]
fn on_update_epoch_closes_expired_proposals() {
    let mut state = state();
    on_update_epoch(&mut state, 2700);
    match record(&state, "tx2").voting {
        Voting::Open(_) => unreachable!(),
        Voting::Closed { votes: _, final_vote: _ } => (),
    };
}

#[test]
fn voting_is_prevented_if_proposal_is_expired() {
    let result = vote(state(), addr("a12"), 2700, txid("tx2"), Vote::For);
    assert_eq!(result, Err(ContractError::ProposalExpired));
}

#[test]
fn voting_is_prevented_if_vote_is_already_concluded() {
    let result = vote(state(), addr("a12"), 2400, txid("tx1"), Vote::For);
    assert_eq!(result, Err(ContractError::VotingClosed));
}

#[test]
fn when_vote_adds_stake_enough_to_conculude_the_vote_then_voting_is_closed_and_result_evaluated() {
    if let Ok(HandlerResult::NewState(state)) =
        vote(state(), addr("a12"), 2400, txid("tx2"), Vote::For)
    {
        match record(&state, "tx2").voting {
            Voting::Open(_) => unreachable!("Voting should have been closed"),
            _ => (),
        }
    } else {
        unreachable!("Vote should have succeeded")
    }
}

#[test]
fn when_last_vote_causes_a_tie_voting_is_closed_with_negative_result() {
    if let Ok(HandlerResult::NewState(state)) =
        vote(state(), addr("a13"), 2400, txid("tx3"), Vote::Against)
    {
        match record(&state, "tx3").voting {
            Voting::Open(_) => unreachable!("Voting should have been closed"),
            Voting::Closed { votes: _, final_vote: Vote::For } => {
                unreachable!("Voting should have resulted against the vote")
            }
            Voting::Closed { ref votes, final_vote: Vote::Against } => {
                let (votes_for, votes_against) =
                    votes.iter().fold((0, 0), |acc, (_, (vote, stake))| match vote {
                        Vote::For => (acc.0 + stake.0, acc.1),
                        Vote::Against => (acc.0, acc.1 + stake.0),
                    });
                assert_eq!(votes_for, votes_against);
                assert_eq!(votes_for + votes_against, 170020);
            }
        }
    } else {
        unreachable!("Vote should have succeeded")
    }
}

#[test]
fn only_a_joined_validator_can_propose() {
    let caller = addr("a14");
    let result = propose(state(), caller.clone(), txid("tx100"), 2200, proposal("tx5", 1900, "a14"));
    assert_eq!(result, Err(ContractError::InvalidValidator(caller)));
}

#[test]
fn only_a_joined_validator_can_vote() {
    let caller = addr("a14");
    let result = vote(state(), caller.clone(), 2200, txid("tx2"), Vote::For);
    assert_eq!(result, Err(ContractError::InvalidValidator(caller)));
}

fn nominees_of(state: &State) -> Vec<String> {
    state.nominated_validators.iter().map(|a| a.0.clone()).collect()
}

#[test]
fn proposal_within_the_current_epoch_window_is_refused() {
    // a3 proposed at 2350; at block 2400 the epoch (started 2522) has already
    // been moved on, so the window starts at 2022
    let result = propose(state(), addr("a3"), txid("tx200"), 2400, proposal("tx9", 2000, "b"));
    assert_eq!(result, Err(ContractError::TooManyProposals));
}

#[test]
fn proposal_after_the_window_moved_on_is_accepted() {
    let state = new_state(propose(state(), addr("a3"), txid("tx200"), 2600, proposal("tx9", 2000, "b")));
    let rec = record(&state, "tx9");
    assert_eq!(rec.proposer, addr("a3"));
    assert_eq!(rec.height, 2600);
    assert_eq!(rec.tx, txid("tx200"));
    assert_eq!(rec.voting, open_votes(&[("a3", Vote::For)]));
    assert_eq!(state.slash_proposals.len(), 4);
}

#[test]
fn first_proposal_of_a_validator_is_accepted() {
    let state = new_state(propose(state(), addr("a5"), txid("tx200"), 2400, proposal("tx9", 2000, "b")));
    assert_eq!(record(&state, "tx9").voting, open_votes(&[("a5", Vote::For)]));
    assert!(state.is_well_formed());
}

#[test]
fn proposal_on_a_judged_transaction_is_refused() {
    let result = propose(state(), addr("a5"), txid("tx200"), 2400, proposal("tx2", 2000, "b"));
    assert_eq!(result, Err(ContractError::AlreadyProposed(txid("tx2"))));
}

#[test]
fn vote_by_outsider_leaves_voting_as_it_was() {
    let before = state();
    let result = vote(state(), addr("a14"), 2400, txid("tx3"), Vote::Against);
    assert_eq!(result, Err(ContractError::InvalidValidator(addr("a14"))));
    assert_eq!(record(&before, "tx3").voting, record(&state(), "tx3").voting);
}

#[test]
fn vote_after_lifetime_is_refused() {
    // made at 2350 with a lifetime of 300: open up to block 2650
    let result = vote(state(), addr("a8"), 2651, txid("tx2"), Vote::For);
    assert_eq!(result, Err(ContractError::ProposalExpired));
    let state = new_state(vote(state(), addr("a8"), 2650, txid("tx2"), Vote::Against));
    assert!(record(&state, "tx2").voting.is_open());
}

#[test]
fn second_vote_is_refused() {
    let result = vote(state(), addr("a1"), 2400, txid("tx2"), Vote::Against);
    assert_eq!(result, Err(ContractError::AlreadyVoted));
}

#[test]
fn vote_on_unknown_proposal_is_refused() {
    let result = vote(state(), addr("a12"), 2400, txid("tx404"), Vote::For);
    assert_eq!(result, Err(ContractError::InvalidTransactionId));
}

#[test]
fn vote_that_leaves_the_outcome_open_keeps_voting_open() {
    // remaining stake 55010 equals the result 55010: it could still tie
    let state = new_state(vote(state(), addr("a8"), 2400, txid("tx2"), Vote::Against));
    match &record(&state, "tx2").voting {
        Voting::Open(votes) => {
            assert_eq!(votes.len(), 10);
            assert_eq!(votes[9], (addr("a8"), Vote::Against));
        }
        _ => panic!("voting should still be open"),
    }
}

#[test]
fn deciding_vote_closes_with_frozen_stakes() {
    let state = new_state(vote(state(), addr("a12"), 2400, txid("tx2"), Vote::For));
    match &record(&state, "tx2").voting {
        Voting::Closed { votes, final_vote } => {
            assert_eq!(*final_vote, Vote::For);
            assert_eq!(votes.len(), 10);
            assert_eq!(votes[9], (addr("a12"), (Vote::For, Amount::from(30000))));
            assert_eq!(votes[2], (addr("a2"), (Vote::Against, Amount::from(20000))));
            let frozen: u128 = votes.iter().map(|(_, (_, s))| s.0).sum();
            assert_eq!(frozen, 135010);
            assert!(frozen <= 170020);
        }
        _ => panic!("voting should be closed"),
    }
}

#[test]
fn tally_of_zero_goes_against() {
    assert_eq!(Vote::from(0i128), Vote::Against);
    assert_eq!(Vote::from(-5i128), Vote::Against);
    assert_eq!(Vote::from(1i128), Vote::For);
}

#[test]
fn sweep_closes_with_quorum_rule() {
    let mut state = state();
    on_update_epoch(&mut state, 3100);
    // tx2: 105010 of 170020 voted, under three quarters: against
    match &record(&state, "tx2").voting {
        Voting::Closed { final_vote, votes } => {
            assert_eq!(*final_vote, Vote::Against);
            assert_eq!(votes.len(), 9);
        }
        _ => panic!("tx2 should be closed"),
    }
    // tx3: 155020 voted, over three quarters, result +15000: for
    match &record(&state, "tx3").voting {
        Voting::Closed { final_vote, .. } => assert_eq!(*final_vote, Vote::For),
        _ => panic!("tx3 should be closed"),
    }
}

#[test]
fn sweep_keeps_proposals_within_lifetime() {
    let mut state = state();
    on_update_epoch(&mut state, 2650);
    assert!(record(&state, "tx2").voting.is_open());
    assert!(record(&state, "tx3").voting.is_open());
}

#[test]
fn sweep_twice_changes_nothing_more() {
    let mut once = state();
    on_update_epoch(&mut once, 2700);
    let mut twice = state();
    on_update_epoch(&mut twice, 2700);
    on_update_epoch(&mut twice, 2700);
    assert_eq!(once, twice);
    assert_eq!(record(&twice, "tx1").voting, record(&state(), "tx1").voting);
}

#[test]
fn rotation_samples_nominees_from_seed() {
    let state = new_state(update_epoch(state(), txid(SEED_TX), 3100));
    assert_eq!(state.epoch, Epoch { seq: 6, tx: txid(SEED_TX), height: 3022 });
    assert_eq!(
        nominees_of(&state),
        vec!["a10", "a11", "a6", "a8", "a2", "a3", "a13", "a7", "a4", "a1"]
    );
    assert!(!record(&state, "tx2").voting.is_open());
    assert!(!record(&state, "tx3").voting.is_open());
}

#[test]
fn rotation_is_deterministic() {
    let a = new_state(update_epoch(state(), txid(SEED_TX), 3100));
    let b = new_state(update_epoch(state(), txid(SEED_TX), 3200));
    assert_eq!(a.nominated_validators, b.nominated_validators);
    let mut distinct = nominees_of(&a);
    distinct.sort();
    distinct.dedup();
    assert_eq!(distinct.len(), 10);
}

#[test]
fn rotation_before_the_epoch_ends_is_blocked() {
    let result = update_epoch(state(), txid(SEED_TX), 3021);
    assert_eq!(result, Err(ContractError::UpdateEpochBlocked));
}

#[test]
fn rotation_needs_a_seed_of_32_bytes() {
    let short = update_epoch(state(), txid("AAECAwQF"), 3100);
    assert!(matches!(short, Err(ContractError::RuntimeError(_))));
    let invalid = update_epoch(state(), txid("not base64!"), 3100);
    assert!(matches!(invalid, Err(ContractError::RuntimeError(_))));
}

#[test]
fn first_rotation_starts_at_current_block_and_nominates_all_when_few() {
    let mut s = state();
    s.epoch = Epoch { seq: 0, tx: txid("genesis"), height: 0 };
    s.max_num_nominated_validators = 13;
    let s = new_state(update_epoch(s, txid(SEED_TX), 100));
    assert_eq!(s.epoch, Epoch { seq: 1, tx: txid(SEED_TX), height: 100 });
    assert_eq!(
        nominees_of(&s),
        vec!["a1", "a10", "a11", "a12", "a13", "a2", "a3", "a4", "a5", "a6", "a7", "a8", "a9"]
    );
}

#[test]
fn fisher_yates_steps() {
    let candidates = vec![addr("w"), addr("x"), addr("y"), addr("z")];
    let picked = pick_random_nominees(&vec![5, 0, 7], &candidates, 3);
    assert_eq!(picked, vec![addr("x"), addr("w"), addr("z")]);
}

#[test]
fn seed_is_first_32_decoded_bytes() {
    let seed = TransactionBasedRngSeed::try_from(SEED_TX).ok().unwrap();
    let expected: Vec<u8> = (0u8..32).collect();
    assert_eq!(seed.0.to_vec(), expected);
    // 36 bytes: 0..35
    let longer = TransactionBasedRngSeed::try_from("AAECAwQFBgcICQoLDA0ODxAREhMUFRYXGBkaGxwdHh8gISIj")
        .ok()
        .unwrap();
    assert_eq!(longer.0.to_vec(), expected);
    assert!(TransactionBasedRngSeed::try_from("AAECAwQF").is_err());
    assert!(TransactionBasedRngSeed::try_from("***").is_err());
}

#[test]
fn well_formedness_check() {
    assert!(state().is_well_formed());
    let mut unsorted = state();
    unsorted.validators.swap(0, 5);
    assert!(!unsorted.is_well_formed());
    let mut duplicate = state();
    duplicate.slash_proposals[1].0 = txid("tx1");
    assert!(!duplicate.is_well_formed());
    let mut stranger = state();
    if let Voting::Open(votes) = &mut stranger.slash_proposals[1].1.voting {
        votes.push((addr("a14"), Vote::For));
    }
    assert!(!stranger.is_well_formed());
}

#[test]
fn queries_answer_from_state() {
    match queries::validators(state()) {
        Ok(HandlerResult::QueryResponse(QueryResponseMsg::Validators(v))) => {
            assert_eq!(v.len(), 13);
            assert_eq!(v[1], addr("a10"));
        }
        other => panic!("unexpected {:?}", other),
    }
    assert_eq!(
        queries::stake(state()),
        Ok(HandlerResult::QueryResponse(QueryResponseMsg::Stake(Amount::from(100))))
    );
    assert_eq!(
        queries::epoch_duration(state()),
        Ok(HandlerResult::QueryResponse(QueryResponseMsg::EpochDuration(500)))
    );
    assert_eq!(
        queries::token(state()),
        Ok(HandlerResult::QueryResponse(QueryResponseMsg::Token(addr("token_address"))))
    );
}

fn url_of(s: &str) -> url::Url {
    url::Url::parse(s).unwrap()
}

#[test]
fn join_places_newcomer_in_address_order() {
    let s = state();
    assert_eq!(join_check(&s, &addr("a14"), Amount::from(500)), Ok(()));
    let s = new_state(join(s, addr("a14"), Amount::from(500), url_of("https://a14.example.com"), true));
    let order: Vec<String> = s.validators.iter().map(|v| v.address.0.clone()).collect();
    assert_eq!(&order[4..7], &["a13", "a14", "a2"]);
    assert_eq!(s.validators[5].stake, Amount::from(500));
    assert!(s.is_well_formed());
}

#[test]
fn join_refusals() {
    let s = state();
    assert_eq!(join_check(&s, &addr("a14"), Amount::from(99)), Err(ContractError::InvalidStake));
    assert_eq!(join_check(&s, &addr("a2"), Amount::from(500)), Err(ContractError::AlreadyJoined));
    let failed = join(state(), addr("a14"), Amount::from(500), url_of("https://a14.example.com"), false);
    assert_eq!(failed, Err(ContractError::TransferFailed));
    let twice = join(state(), addr("a2"), Amount::from(500), url_of("https://a2.example.com"), true);
    assert_eq!(twice, Err(ContractError::AlreadyJoined));
}

#[test]
fn leave_removes_a_validator_that_is_not_nominated() {
    let s = state();
    assert_eq!(leave_check(&s, &addr("a13")), Ok(Amount::from(15000)));
    let s = new_state(leave(s, addr("a13"), true));
    assert_eq!(s.validators.len(), 12);
    assert!(s.validators.iter().all(|v| v.address != addr("a13")));
}

#[test]
fn leave_refusals() {
    let s = state();
    assert_eq!(
        leave_check(&s, &addr("a3")),
        Err(ContractError::NominatedValidatorCannotLeave(addr("a3")))
    );
    assert_eq!(leave_check(&s, &addr("a14")), Err(ContractError::InvalidValidator(addr("a14"))));
    assert_eq!(leave(state(), addr("a13"), false), Err(ContractError::TransferFailed));
}
