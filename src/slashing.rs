//! Slashing proposals and the stake-weighted vote that decides them.

use vstd::prelude::*;

use crate::action::{ActionResult, HandlerResult};
use crate::error::ContractError;
use crate::shared::{Address, Amount, TransactionId};
use crate::state::{
    addresses_distinct, find_proposal, find_validator, has_proposal, is_validator,
    lemma_proposal_index, lemma_sorted_distinct, lemma_stake_of_member, lemma_stake_of_non_member,
    lemma_total_stake_prefix, lemma_total_stake_prefix_bound, open_voting_valid,
    open_votings_valid, proposal_index, proposal_keys_distinct, same_except_proposals, stake_of,
    total_stake, validators_sorted, State, Validator,
};

verus! {

/// A claimed infraction: the data of a bundler's signed receipt.
#[derive(Clone, Debug, PartialEq)]
pub struct Proposal {
    pub id: String,
    pub size: usize,
    pub fee: u128,
    pub currency: String,
    pub block: u128,
    pub validator: String,
    pub signature: String,
}

/// A validator's vote on a proposal.
#[derive(Clone, Copy, Debug, PartialEq, Eq, Structural)]
pub enum Vote {
    For,
    Against,
}

/// The outcome of a stake-weighted tally: `For` only on a positive result,
/// so a tie goes `Against`.
pub open spec fn vote_of_result(result: int) -> Vote {
    if result > 0 {
        Vote::For
    } else {
        Vote::Against
    }
}

impl From<i128> for Vote {
    fn from(vote: i128) -> (r: Vote) {
        if vote > 0 {
            Vote::For
        } else {
            Vote::Against
        }
    }
}

impl vstd::std_specs::convert::FromSpecImpl<i128> for Vote {
    open spec fn obeys_from_spec() -> bool {
        true
    }

    open spec fn from_spec(vote: i128) -> Vote {
        vote_of_result(vote as int)
    }
}

/// The votes on a proposal: open, one entry per voter, or closed, with each
/// voter's stake frozen at closing time and the final vote.
#[derive(Debug, PartialEq)]
pub enum Voting {
    Open(Vec<(Address, Vote)>),
    Closed { votes: Vec<(Address, (Vote, Amount))>, final_vote: Vote },
}

impl Voting {
    pub fn is_open(&self) -> (r: bool)
        ensures
            r == (self is Open),
    {
        match self {
            Voting::Open(_) => true,
            Voting::Closed { .. } => false,
        }
    }
}

impl Default for Voting {
    fn default() -> (r: Voting)
        ensures
            r matches Voting::Open(v) && v@.len() == 0,
    {
        Voting::Open(Vec::new())
    }
}

/// A slashing proposal as the registry keeps it.
#[derive(Debug, PartialEq)]
pub struct SlashProposalRecord {
    pub proposal: Proposal,
    /// The validator who raised it.
    pub proposer: Address,
    /// The block height at which it was raised.
    pub height: u128,
    /// The transaction that raised it.
    pub tx: TransactionId,
    pub voting: Voting,
}

/// One entry per voter.
pub open spec fn voters_distinct(votes: Seq<(Address, Vote)>) -> bool {
    forall|i: int, j: int|
        0 <= i < j < votes.len() ==> #[trigger] votes[i].0@ != #[trigger] votes[j].0@
}

/// `a` has an entry among `votes`.
pub open spec fn has_voted(votes: Seq<(Address, Vote)>, a: Seq<char>) -> bool {
    exists|j: int| 0 <= j < votes.len() && #[trigger] votes[j].0@ == a
}

/// The registered stake of everyone who voted.
pub open spec fn voted_stake(votes: Seq<(Address, Vote)>, vals: Seq<Validator>) -> int
    decreases votes.len(),
{
    if votes.len() == 0 {
        0
    } else {
        voted_stake(votes.drop_last(), vals) + stake_of(vals, votes.last().0@)
    }
}

/// A vote weighted by the voter's stake: positive for, negative against.
pub open spec fn weighted(vote: Vote, stake: u128) -> int {
    match vote {
        Vote::For => stake as int,
        Vote::Against => -(stake as int),
    }
}

/// The signed, stake-weighted sum of the votes.
pub open spec fn tally(votes: Seq<(Address, Vote)>, vals: Seq<Validator>) -> int
    decreases votes.len(),
{
    if votes.len() == 0 {
        0
    } else {
        tally(votes.drop_last(), vals) + weighted(votes.last().1, stake_of(vals, votes.last().0@))
    }
}

pub proof fn lemma_votes_prefix(votes: Seq<(Address, Vote)>, vals: Seq<Validator>, j: int)
    requires
        0 <= j < votes.len(),
    ensures
        voted_stake(votes.subrange(0, j + 1), vals) == voted_stake(votes.subrange(0, j), vals)
            + stake_of(vals, votes[j].0@),
        tally(votes.subrange(0, j + 1), vals) == tally(votes.subrange(0, j), vals) + weighted(
            votes[j].1,
            stake_of(vals, votes[j].0@),
        ),
{
    assert(votes.subrange(0, j + 1).drop_last() =~= votes.subrange(0, j));
}

/// The tally never outweighs the stake that voted.
pub proof fn lemma_tally_bounded(votes: Seq<(Address, Vote)>, vals: Seq<Validator>)
    ensures
        0 <= voted_stake(votes, vals),
        -voted_stake(votes, vals) <= tally(votes, vals) <= voted_stake(votes, vals),
    decreases votes.len(),
{
    if votes.len() > 0 {
        lemma_tally_bounded(votes.drop_last(), vals);
    }
}

pub proof fn lemma_voted_prefix_bound(votes: Seq<(Address, Vote)>, vals: Seq<Validator>, j: int)
    requires
        0 <= j <= votes.len(),
    ensures
        voted_stake(votes.subrange(0, j), vals) <= voted_stake(votes, vals),
    decreases votes.len() - j,
{
    if j == votes.len() {
        assert(votes.subrange(0, j) =~= votes);
    } else {
        lemma_votes_prefix(votes, vals, j);
        lemma_voted_prefix_bound(votes, vals, j + 1);
    }
}

proof fn lemma_voted_on_empty_registry(votes: Seq<(Address, Vote)>, vals: Seq<Validator>)
    requires
        vals.len() == 0,
    ensures
        voted_stake(votes, vals) == 0,
    decreases votes.len(),
{
    if votes.len() > 0 {
        lemma_voted_on_empty_registry(votes.drop_last(), vals);
    }
}

/// Splitting the last validator off the registry takes its stake off the
/// voted stake exactly when it has voted.
proof fn lemma_voted_without_last(votes: Seq<(Address, Vote)>, vals: Seq<Validator>)
    requires
        vals.len() > 0,
        addresses_distinct(vals),
        voters_distinct(votes),
    ensures
        voted_stake(votes, vals) == voted_stake(votes, vals.drop_last()) + if has_voted(
            votes,
            vals.last().address@,
        ) {
            vals.last().stake.0 as int
        } else {
            0
        },
    decreases votes.len(),
{
    let v = vals.last();
    let d = vals.drop_last();
    assert(!is_validator(d, v.address@)) by {
        if is_validator(d, v.address@) {
            let i = choose|i: int| 0 <= i < d.len() && #[trigger] d[i].address@ == v.address@;
            assert(vals[i] == d[i]);
            assert(vals[vals.len() - 1] == v);
        }
    }
    lemma_stake_of_non_member(d, v.address@);
    if votes.len() > 0 {
        let w = votes.drop_last();
        let last = votes.last();
        assert(voters_distinct(w)) by {
            assert forall|i: int, j: int| 0 <= i < j < w.len() implies #[trigger] w[i].0@
                != #[trigger] w[j].0@ by {
                assert(w[i] == votes[i] && w[j] == votes[j]);
            }
        }
        lemma_voted_without_last(w, vals);
        assert(votes[votes.len() - 1] == last);
        if has_voted(votes, v.address@) {
            if last.0@ == v.address@ {
                assert(!has_voted(w, v.address@)) by {
                    if has_voted(w, v.address@) {
                        let j = choose|j: int| 0 <= j < w.len() && #[trigger] w[j].0@ == v.address@;
                        assert(votes[j] == w[j]);
                    }
                }
            } else {
                let j = choose|j: int| 0 <= j < votes.len() && #[trigger] votes[j].0@ == v.address@;
                assert(w[j] == votes[j]);
            }
        } else {
            assert(!has_voted(w, v.address@)) by {
                if has_voted(w, v.address@) {
                    let j = choose|j: int| 0 <= j < w.len() && #[trigger] w[j].0@ == v.address@;
                    assert(votes[j] == w[j]);
                }
            }
            assert(last.0@ != v.address@);
        }
    }
}

/// The stake of distinct voters never exceeds the stake of the registry.
pub proof fn lemma_voted_within_total(votes: Seq<(Address, Vote)>, vals: Seq<Validator>)
    requires
        addresses_distinct(vals),
        voters_distinct(votes),
    ensures
        0 <= voted_stake(votes, vals) <= total_stake(vals),
    decreases vals.len(),
{
    lemma_tally_bounded(votes, vals);
    if vals.len() == 0 {
        lemma_voted_on_empty_registry(votes, vals);
    } else {
        let d = vals.drop_last();
        assert(addresses_distinct(d)) by {
            assert forall|i: int, j: int| 0 <= i < j < d.len() implies #[trigger] d[i].address@
                != #[trigger] d[j].address@ by {
                assert(d[i] == vals[i] && d[j] == vals[j]);
            }
        }
        lemma_voted_without_last(votes, vals);
        lemma_voted_within_total(votes, d);
    }
}

/// Computes, over the whole registry and the votes cast, the total stake,
/// the stake that voted and the stake-weighted result.
pub fn evaluate_votes(validators: &Vec<Validator>, votes: &Vec<(Address, Vote)>) -> (r: (
    u128,
    u128,
    i128,
))
    requires
        addresses_distinct(validators@),
        total_stake(validators@) <= i128::MAX,
        voters_distinct(votes@),
        forall|j: int| 0 <= j < votes@.len() ==> is_validator(validators@, #[trigger] votes@[j].0@),
    ensures
        r.0 == total_stake(validators@),
        r.1 == voted_stake(votes@, validators@),
        r.2 == tally(votes@, validators@),
{
    let mut total: u128 = 0;
    let mut i: usize = 0;
    while i < validators.len()
        invariant
            i <= validators@.len(),
            total == total_stake(validators@.subrange(0, i as int)),
            total_stake(validators@) <= i128::MAX,
        decreases validators@.len() - i,
    {
        proof {
            lemma_total_stake_prefix(validators@, i as int);
            lemma_total_stake_prefix_bound(validators@, i + 1);
        }
        total = total + validators[i].stake.0;
        i += 1;
    }
    assert(validators@.subrange(0, validators@.len() as int) =~= validators@);
    proof {
        lemma_voted_within_total(votes@, validators@);
    }
    let mut voted: u128 = 0;
    let mut result: i128 = 0;
    let mut j: usize = 0;
    while j < votes.len()
        invariant
            j <= votes@.len(),
            voted == voted_stake(votes@.subrange(0, j as int), validators@),
            result == tally(votes@.subrange(0, j as int), validators@),
            voted_stake(votes@, validators@) <= i128::MAX,
            addresses_distinct(validators@),
            forall|j: int| 0 <= j < votes@.len() ==> is_validator(validators@, #[trigger] votes@[j].0@),
        decreases votes@.len() - j,
    {
        let k = find_validator(validators, &votes[j].0);
        assert(is_validator(validators@, votes@[j as int].0@));
        let k = k.unwrap();
        let stake = validators[k].stake.0;
        proof {
            lemma_stake_of_member(validators@, k as int);
            lemma_votes_prefix(votes@, validators@, j as int);
            lemma_voted_prefix_bound(votes@, validators@, j + 1);
            lemma_tally_bounded(votes@.subrange(0, j + 1), validators@);
        }
        voted = voted + stake;
        result = match votes[j].1 {
            Vote::For => result + stake as i128,
            Vote::Against => result - stake as i128,
        };
        j += 1;
    }
    assert(votes@.subrange(0, votes@.len() as int) =~= votes@);
    (total, voted, result)
}

/// Voting closes as soon as all stake has voted, or the stake that has not
/// voted could no longer change the sign of the result.
pub open spec fn closes_early(total: int, voted: int, result: int) -> bool {
    total - voted < (if result < 0 { -result } else { result }) || total == voted
}

/// The votes with each voter's registered stake frozen beside them.
pub open spec fn frozen_votes(votes: Seq<(Address, Vote)>, vals: Seq<Validator>) -> Seq<
    (Address, (Vote, Amount)),
> {
    votes.map_values(|e: (Address, Vote)| (e.0, (e.1, Amount(stake_of(vals, e.0@)))))
}

/// The block height after which a proposal made at `height` has expired.
pub open spec fn expired(current: u128, height: u128, lifetime: u16) -> bool {
    current > height + lifetime
}

/// Why `caller`'s vote on the proposal judging `tx` is refused, if it is.
pub open spec fn vote_refusal(state: State, caller: Address, current: u128, tx: Seq<char>) -> Option<
    ContractError,
> {
    let props = state.slash_proposals@;
    if !is_validator(state.validators@, caller@) {
        Some(ContractError::InvalidValidator(caller))
    } else if !has_proposal(props, tx) {
        Some(ContractError::InvalidTransactionId)
    } else {
        let rec = props[proposal_index(props, tx)].1;
        if rec.voting is Closed {
            Some(ContractError::VotingClosed)
        } else if expired(current, rec.height, state.slash_proposal_lifetime) {
            Some(ContractError::ProposalExpired)
        } else if has_voted(rec.voting->Open_0@, caller@) {
            Some(ContractError::AlreadyVoted)
        } else {
            None
        }
    }
}

/// `new` is `old` with `caller`'s vote added to the open voting at position
/// `k`, and that voting closed where the votes now decide it.
pub open spec fn vote_recorded(old: State, new: State, k: int, caller: Address, vote: Vote) -> bool {
    let vals = old.validators@;
    let o = old.slash_proposals@[k];
    let n = new.slash_proposals@[k];
    let votes = o.1.voting->Open_0@.push((caller, vote));
    let total = total_stake(vals);
    let voted = voted_stake(votes, vals);
    let result = tally(votes, vals);
    &&& same_except_proposals(old, new)
    &&& new.slash_proposals@.len() == old.slash_proposals@.len()
    &&& forall|i: int|
        0 <= i < old.slash_proposals@.len() && i != k ==> #[trigger] new.slash_proposals@[i]
            == old.slash_proposals@[i]
    &&& n.0 == o.0
    &&& n.1.proposal == o.1.proposal
    &&& n.1.proposer == o.1.proposer
    &&& n.1.height == o.1.height
    &&& n.1.tx == o.1.tx
    &&& if closes_early(total, voted, result) {
        n.1.voting matches Voting::Closed { votes: fv, final_vote } && fv@ == frozen_votes(votes, vals)
            && final_vote == vote_of_result(result)
    } else {
        n.1.voting matches Voting::Open(ov) && ov@ == votes
    }
}

/// Looks up `caller` among the votes cast.
fn find_vote(votes: &Vec<(Address, Vote)>, caller: &Address) -> (r: bool)
    ensures
        r == has_voted(votes@, caller@),
{
    let mut i: usize = 0;
    while i < votes.len()
        invariant
            i <= votes@.len(),
            forall|j: int| 0 <= j < i ==> #[trigger] votes@[j].0@ != caller@,
        decreases votes@.len() - i,
    {
        if votes[i].0 == *caller {
            return true;
        }
        i += 1;
    }
    false
}

/// Pairs each vote with the voter's registered stake.
fn freeze_votes(validators: &Vec<Validator>, votes: &Vec<(Address, Vote)>) -> (r: Vec<
    (Address, (Vote, Amount)),
>)
    requires
        addresses_distinct(validators@),
        forall|j: int| 0 <= j < votes@.len() ==> is_validator(validators@, #[trigger] votes@[j].0@),
    ensures
        r@ == frozen_votes(votes@, validators@),
{
    let mut r: Vec<(Address, (Vote, Amount))> = Vec::new();
    let mut i: usize = 0;
    while i < votes.len()
        invariant
            i <= votes@.len(),
            r@.len() == i,
            addresses_distinct(validators@),
            forall|j: int| 0 <= j < votes@.len() ==> is_validator(validators@, #[trigger] votes@[j].0@),
            forall|j: int| 0 <= j < i ==> #[trigger] r@[j] == (votes@[j].0, (votes@[j].1, Amount(stake_of(validators@, votes@[j].0@)))),
        decreases votes@.len() - i,
    {
        assert(is_validator(validators@, votes@[i as int].0@));
        let k = find_validator(validators, &votes[i].0).unwrap();
        proof {
            lemma_stake_of_member(validators@, k as int);
        }
        r.push((votes[i].0.clone(), (votes[i].1, validators[k].stake)));
        i += 1;
    }
    assert(r@ =~= frozen_votes(votes@, validators@));
    r
}

/// Proposal is past its lifetime, computed without overflow.
fn is_expired(current: u128, height: u128, lifetime: u16) -> (r: bool)
    ensures
        r == expired(current, height, lifetime),
{
    current > height && current - height > lifetime as u128
}

/// Casts `caller`'s vote on the proposal judging `tx`, and closes the voting
/// when the votes now decide it.
pub fn vote(
    mut state: State,
    caller: Address,
    current_block_height: u128,
    tx: TransactionId,
    ballot: Vote,
) -> (r: ActionResult)
    requires
        state.wf(),
    ensures
        match vote_refusal(state, caller, current_block_height, tx@) {
            Some(e) => r is Err && r->Err_0 == e,
            None => r matches Ok(HandlerResult::NewState(s)) && s.wf() && vote_recorded(
                state,
                s,
                proposal_index(state.slash_proposals@, tx@),
                caller,
                ballot,
            ),
        },
{
    let ghost old_state = state;
    if find_validator(&state.validators, &caller).is_none() {
        return Err(ContractError::InvalidValidator(caller));
    }
    let k = match find_proposal(&state.slash_proposals, &tx) {
        Some(k) => k,
        None => {
            return Err(ContractError::InvalidTransactionId);
        },
    };
    proof {
        lemma_proposal_index(state.slash_proposals@, k as int);
        lemma_sorted_distinct(state.validators@);
    }
    let (key, mut rec) = state.slash_proposals.remove(k);
    if !rec.voting.is_open() {
        return Err(ContractError::VotingClosed);
    }
    if is_expired(current_block_height, rec.height, state.slash_proposal_lifetime) {
        return Err(ContractError::ProposalExpired);
    }
    let mut voting = Voting::Open(Vec::new());
    std::mem::swap(&mut voting, &mut rec.voting);
    let mut votes = match voting {
        Voting::Open(votes) => votes,
        Voting::Closed { .. } => {
            return Err(ContractError::VotingClosed);
        },
    };
    if find_vote(&votes, &caller) {
        return Err(ContractError::AlreadyVoted);
    }
    let ghost old_votes = votes@;
    votes.push((caller, ballot));
    assert(voters_distinct(votes@)) by {
        assert forall|i: int, j: int| 0 <= i < j < votes@.len() implies #[trigger] votes@[i].0@
            != #[trigger] votes@[j].0@ by {
            if j == old_votes.len() {
                assert(old_votes[i] == votes@[i]);
            } else {
                assert(old_votes[i] == votes@[i] && old_votes[j] == votes@[j]);
            }
        }
    }
    assert forall|j: int| 0 <= j < votes@.len() implies is_validator(
        state.validators@,
        #[trigger] votes@[j].0@,
    ) by {
        if j < old_votes.len() {
            assert(old_votes[j] == votes@[j]);
        }
    }
    let (total_stake, voted_stake, result) = evaluate_votes(&state.validators, &votes);
    proof {
        lemma_voted_within_total(votes@, state.validators@);
        lemma_tally_bounded(votes@, state.validators@);
    }
    let magnitude: u128 = if result < 0 {
        (-result) as u128
    } else {
        result as u128
    };
    if total_stake - voted_stake < magnitude || total_stake == voted_stake {
        let final_vote = Vote::from(result);
        let frozen = freeze_votes(&state.validators, &votes);
        rec.voting = Voting::Closed { votes: frozen, final_vote };
        state.slash_proposals.insert(k, (key, rec));
        match final_vote {
            Vote::For => on_positive_voting_result(&state, &tx),
            Vote::Against => on_negative_voting_result(&state, &tx),
        }
    } else {
        rec.voting = Voting::Open(votes);
        state.slash_proposals.insert(k, (key, rec));
    }
    proof {
        let props = state.slash_proposals@;
        let olds = old_state.slash_proposals@;
        assert forall|i: int| 0 <= i < olds.len() && i != k implies #[trigger] props[i] == olds[i] by {
        }
        assert(proposal_keys_distinct(props)) by {
            assert forall|i: int, j: int| 0 <= i < j < props.len() implies #[trigger] props[i].0@
                != #[trigger] props[j].0@ by {
                assert(props[i].0 == olds[i].0 && props[j].0 == olds[j].0);
            }
        }
        assert(open_votings_valid(props, state.validators@)) by {
            assert forall|m: int| 0 <= m < props.len() && (#[trigger] props[m]).1.voting is Open implies open_voting_valid(props[m].1.voting->Open_0@, state.validators@) by {
                if m != k {
                    assert(props[m] == olds[m]);
                }
            }
        }
    }
    Ok(HandlerResult::NewState(state))
}

/// The first block height of the epoch in which a proposal is made at block
/// `current`. Where the epoch has already been moved past `current`, that is
/// the start of the epoch before it.
pub open spec fn window_start(state: State, current: u128) -> int {
    if state.epoch.height > current {
        state.epoch.height - state.epoch_duration
    } else {
        state.epoch.height as int
    }
}

/// `caller` has a proposal on record made at or after block `start`.
pub open spec fn has_recent_proposal(
    props: Seq<(TransactionId, SlashProposalRecord)>,
    caller: Seq<char>,
    start: int,
) -> bool {
    exists|i: int|
        0 <= i < props.len() && (#[trigger] props[i]).1.proposer@ == caller && props[i].1.height
            >= start
}

/// Why `caller`'s proposal is refused, if it is.
pub open spec fn propose_refusal(
    state: State,
    caller: Address,
    current: u128,
    proposal: Proposal,
) -> Option<ContractError> {
    let props = state.slash_proposals@;
    if !is_validator(state.validators@, caller@) {
        Some(ContractError::InvalidValidator(caller))
    } else if has_proposal(props, proposal.id@) {
        Some(ContractError::AlreadyProposed(TransactionId(proposal.id)))
    } else if has_recent_proposal(props, caller@, window_start(state, current)) {
        Some(ContractError::TooManyProposals)
    } else {
        None
    }
}

/// Proposal made at `h` counts against the window of the current epoch.
fn in_window(h: u128, epoch_height: u128, duration: u16, current: u128) -> (r: bool)
    ensures
        r == (h >= if epoch_height > current {
            epoch_height - duration
        } else {
            epoch_height as int
        }),
{
    if epoch_height > current {
        if epoch_height >= duration as u128 {
            h >= epoch_height - duration as u128
        } else {
            true
        }
    } else {
        h >= epoch_height
    }
}

/// Records `caller`'s proposal to slash, with the proposer's own vote for
/// it. Each validator may raise one proposal per epoch.
pub fn propose(
    mut state: State,
    caller: Address,
    current_tx_id: TransactionId,
    current_block_height: u128,
    proposal: Proposal,
) -> (r: ActionResult)
    ensures
        match propose_refusal(state, caller, current_block_height, proposal) {
            Some(e) => r is Err && r->Err_0 == e,
            None => r matches Ok(HandlerResult::NewState(s)) && {
                let olds = state.slash_proposals@;
                let props = s.slash_proposals@;
                let n = props.last();
                &&& state.wf() ==> s.wf()
                &&& same_except_proposals(state, s)
                &&& props.len() == olds.len() + 1
                &&& forall|i: int| 0 <= i < olds.len() ==> #[trigger] props[i] == olds[i]
                &&& n.0 == TransactionId(proposal.id)
                &&& n.1.proposal == proposal
                &&& n.1.proposer == caller
                &&& n.1.height == current_block_height
                &&& n.1.tx == current_tx_id
                &&& n.1.voting matches Voting::Open(v) && v@ == seq![(caller, Vote::For)]
            },
        },
{
    let ghost old_state = state;
    if find_validator(&state.validators, &caller).is_none() {
        return Err(ContractError::InvalidValidator(caller));
    }
    let tx_id = TransactionId(proposal.id.clone());
    if find_proposal(&state.slash_proposals, &tx_id).is_some() {
        return Err(ContractError::AlreadyProposed(tx_id));
    }
    let mut i: usize = 0;
    while i < state.slash_proposals.len()
        invariant
            state == old_state,
            tx_id@ == proposal.id@,
            !has_proposal(state.slash_proposals@, proposal.id@),
            is_validator(state.validators@, caller@),
            i <= state.slash_proposals@.len(),
            forall|j: int|
                0 <= j < i ==> !((#[trigger] state.slash_proposals@[j]).1.proposer@ == caller@
                    && state.slash_proposals@[j].1.height >= window_start(
                    state,
                    current_block_height,
                )),
        decreases state.slash_proposals@.len() - i,
    {
        let rec = &state.slash_proposals[i].1;
        if rec.proposer == caller && in_window(
            rec.height,
            state.epoch.height,
            state.epoch_duration,
            current_block_height,
        ) {
            assert(state.slash_proposals@[i as int].1.proposer@ == caller@);
            return Err(ContractError::TooManyProposals);
        }
        i += 1;
    }
    let voting = Voting::Open(vec![(caller.clone(), Vote::For)]);
    let rec = SlashProposalRecord {
        proposal,
        proposer: caller,
        height: current_block_height,
        tx: current_tx_id,
        voting,
    };
    state.slash_proposals.push((tx_id, rec));
    proof {
        if old_state.wf() {
            let props = state.slash_proposals@;
            let olds = old_state.slash_proposals@;
            assert forall|i: int| 0 <= i < olds.len() implies #[trigger] props[i] == olds[i] by {}
            assert(proposal_keys_distinct(props)) by {
                assert forall|i: int, j: int| 0 <= i < j < props.len() implies #[trigger] props[i].0@
                    != #[trigger] props[j].0@ by {
                    assert(props[i] == olds[i]);
                    if j < olds.len() {
                        assert(props[j] == olds[j]);
                    }
                }
            }
            assert(open_votings_valid(props, state.validators@)) by {
                assert forall|m: int| 0 <= m < props.len() && (#[trigger] props[m]).1.voting is Open implies open_voting_valid(props[m].1.voting->Open_0@, state.validators@) by {
                    if m < olds.len() {
                        assert(props[m] == olds[m]);
                    }
                }
            }
        }
    }
    Ok(HandlerResult::NewState(state))
}

/// Threshold of the expiry sweep: more than three quarters of all stake
/// has voted.
pub open spec fn quorum_reached(voted: int, total: int) -> bool {
    4 * voted > 3 * total
}

/// The final vote of an expired proposal: the stake-weighted result where
/// the quorum voted, `Against` otherwise.
pub open spec fn expiry_vote(votes: Seq<(Address, Vote)>, vals: Seq<Validator>) -> Vote {
    if quorum_reached(voted_stake(votes, vals), total_stake(vals)) {
        vote_of_result(tally(votes, vals))
    } else {
        Vote::Against
    }
}

/// What the expiry sweep at block `current` makes of entry `o`: an open
/// voting past its lifetime is closed, anything else is kept as it is.
pub open spec fn swept_entry(
    o: (TransactionId, SlashProposalRecord),
    n: (TransactionId, SlashProposalRecord),
    vals: Seq<Validator>,
    lifetime: u16,
    current: u128,
) -> bool {
    if o.1.voting is Open && expired(current, o.1.height, lifetime) {
        let votes = o.1.voting->Open_0@;
        &&& n.0 == o.0
        &&& n.1.proposal == o.1.proposal
        &&& n.1.proposer == o.1.proposer
        &&& n.1.height == o.1.height
        &&& n.1.tx == o.1.tx
        &&& n.1.voting matches Voting::Closed { votes: fv, final_vote } && fv@ == frozen_votes(
            votes,
            vals,
        ) && final_vote == expiry_vote(votes, vals)
    } else {
        n == o
    }
}

/// `new` holds the proposals of `old` after the expiry sweep at block
/// `current`.
pub open spec fn proposals_swept(
    old: Seq<(TransactionId, SlashProposalRecord)>,
    new: Seq<(TransactionId, SlashProposalRecord)>,
    vals: Seq<Validator>,
    lifetime: u16,
    current: u128,
) -> bool {
    &&& new.len() == old.len()
    &&& forall|k: int|
        0 <= k < old.len() ==> swept_entry(#[trigger] old[k], new[k], vals, lifetime, current)
}

/// `new` is `old` after the expiry sweep at block `current`.
pub open spec fn swept(old: State, new: State, current: u128) -> bool {
    &&& same_except_proposals(old, new)
    &&& proposals_swept(
        old.slash_proposals@,
        new.slash_proposals@,
        old.validators@,
        old.slash_proposal_lifetime,
        current,
    )
}

proof fn lemma_quorum(voted: int, total: int)
    requires
        0 <= voted,
        0 <= total,
    ensures
        quorum_reached(voted, total) <==> voted > 3 * (total / 4) + (3 * (total % 4)) / 4,
{
    let q = total / 4;
    let m = total % 4;
    assert(total == 4 * q + m && 0 <= m < 4) by (nonlinear_arith)
        requires
            q == total / 4,
            m == total % 4,
            total >= 0,
    ;
    if m == 0 {
        assert((3 * m) / 4 == 0);
    } else if m == 1 {
        assert((3 * m) / 4 == 0);
    } else if m == 2 {
        assert((3 * m) / 4 == 1);
    } else {
        assert((3 * m) / 4 == 2);
    }
}

/// Force-closes every open proposal that has outlived its lifetime at block
/// `current_block_height`.
pub fn on_update_epoch(state: &mut State, current_block_height: u128)
    requires
        old(state).wf(),
    ensures
        final(state).wf(),
        swept(*old(state), *final(state), current_block_height),
{
    let ghost start = *state;
    proof {
        lemma_sorted_distinct(state.validators@);
    }
    let mut i: usize = 0;
    while i < state.slash_proposals.len()
        invariant
            i <= state.slash_proposals@.len(),
            state.wf(),
            addresses_distinct(state.validators@),
            same_except_proposals(start, *state),
            state.slash_proposals@.len() == start.slash_proposals@.len(),
            forall|k: int|
                0 <= k < i ==> swept_entry(
                    #[trigger] start.slash_proposals@[k],
                    state.slash_proposals@[k],
                    start.validators@,
                    start.slash_proposal_lifetime,
                    current_block_height,
                ),
            forall|k: int|
                i <= k < start.slash_proposals@.len() ==> #[trigger] state.slash_proposals@[k]
                    == start.slash_proposals@[k],
        decreases start.slash_proposals@.len() - i,
    {
        let due = state.slash_proposals[i].1.voting.is_open() && is_expired(
            current_block_height,
            state.slash_proposals[i].1.height,
            state.slash_proposal_lifetime,
        );
        if due {
            let ghost before = state.slash_proposals@;
            let (key, mut rec) = state.slash_proposals.remove(i);
            let mut voting = Voting::Open(Vec::new());
            std::mem::swap(&mut voting, &mut rec.voting);
            let votes = match voting {
                Voting::Open(votes) => votes,
                Voting::Closed { .. } => {
                    proof {
                        assert(false);
                    }
                    Vec::new()
                },
            };
            assert(before[i as int].1.voting is Open);
            assert(open_voting_valid(votes@, state.validators@));
            let (total_stake, voted_stake, result) = evaluate_votes(&state.validators, &votes);
            proof {
                lemma_voted_within_total(votes@, state.validators@);
                lemma_quorum(voted_stake as int, total_stake as int);
            }
            let final_vote = if voted_stake > 3 * (total_stake / 4) + (3 * (total_stake % 4)) / 4 {
                Vote::from(result)
            } else {
                Vote::Against
            };
            let frozen = freeze_votes(&state.validators, &votes);
            rec.voting = Voting::Closed { votes: frozen, final_vote };
            state.slash_proposals.insert(i, (key, rec));
            proof {
                let props = state.slash_proposals@;
                assert forall|k: int| 0 <= k < props.len() && k != i implies #[trigger] props[k]
                    == before[k] by {}
                assert(proposal_keys_distinct(props)) by {
                    assert forall|a: int, b: int| 0 <= a < b < props.len() implies #[trigger] props[a].0@
                        != #[trigger] props[b].0@ by {
                        assert(props[a].0 == before[a].0 && props[b].0 == before[b].0);
                    }
                }
                assert(open_votings_valid(props, state.validators@)) by {
                    assert forall|m: int| 0 <= m < props.len() && (#[trigger] props[m]).1.voting is Open implies open_voting_valid(props[m].1.voting->Open_0@, state.validators@) by {
                        assert(props[m] == before[m]);
                    }
                }
            }
        }
        i += 1;
    }
}

/// The stake frozen in a closed voting.
pub open spec fn frozen_stake(votes: Seq<(Address, (Vote, Amount))>) -> int
    decreases votes.len(),
{
    if votes.len() == 0 {
        0
    } else {
        frozen_stake(votes.drop_last()) + votes.last().1.1.0
    }
}

proof fn lemma_frozen_stake(votes: Seq<(Address, Vote)>, vals: Seq<Validator>)
    ensures
        frozen_stake(frozen_votes(votes, vals)) == voted_stake(votes, vals),
    decreases votes.len(),
{
    if votes.len() > 0 {
        assert(frozen_votes(votes, vals).drop_last() =~= frozen_votes(votes.drop_last(), vals));
        lemma_frozen_stake(votes.drop_last(), vals);
    }
}

/// When an open voting closes, whether early or by the expiry sweep, the
/// stake frozen beside its votes never exceeds the stake of the whole
/// registry at closing time.
pub proof fn lemma_closed_stake_within_total(votes: Seq<(Address, Vote)>, vals: Seq<Validator>)
    requires
        validators_sorted(vals),
        open_voting_valid(votes, vals),
    ensures
        frozen_stake(frozen_votes(votes, vals)) <= total_stake(vals),
{
    lemma_sorted_distinct(vals);
    lemma_frozen_stake(votes, vals);
    lemma_voted_within_total(votes, vals);
}

/// A tied tally closes against the proposal, whether the votes close it
/// early or the expiry sweep does.
pub proof fn lemma_tie_closes_against(votes: Seq<(Address, Vote)>, vals: Seq<Validator>)
    requires
        tally(votes, vals) == 0,
    ensures
        vote_of_result(tally(votes, vals)) == Vote::Against,
        expiry_vote(votes, vals) == Vote::Against,
{
}

/// Sweeping twice at the same block height changes nothing the first sweep
/// left: in particular a closed record stays as it is.
pub proof fn lemma_sweep_idempotent(s0: State, s1: State, s2: State, current: u128)
    requires
        swept(s0, s1, current),
        swept(s1, s2, current),
    ensures
        s2.slash_proposals@ == s1.slash_proposals@,
        same_except_proposals(s1, s2),
{
    let before = s0.slash_proposals@;
    let once = s1.slash_proposals@;
    let twice = s2.slash_proposals@;
    assert forall|k: int| 0 <= k < once.len() implies #[trigger] twice[k] == once[k] by {
        assert(swept_entry(before[k], once[k], s0.validators@, s0.slash_proposal_lifetime, current));
        assert(swept_entry(once[k], twice[k], s1.validators@, s1.slash_proposal_lifetime, current));
    }
    assert(twice =~= once);
}

/// Called when a slashing vote closes in favour; no effect yet.
fn on_positive_voting_result(_state: &State, _tx: &TransactionId) {
}

/// Called when a slashing vote closes against; no effect yet.
fn on_negative_voting_result(_state: &State, _tx: &TransactionId) {
}

} // verus!
