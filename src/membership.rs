//! Joining and leaving the registry. The stake moves through the token
//! contract between the two steps of each: a check before the transfer,
//! and the change of the registry once the transfer's outcome is known.

use vstd::prelude::*;

use crate::action::{ActionResult, HandlerResult};
use crate::error::ContractError;
use crate::shared::{Address, Amount};
use crate::state::{
    addr_lt, address_lt, find_validator, is_validator,
    lemma_addr_lt_total, lemma_addr_lt_transitive, validators_sorted, State, Validator,
};

verus! {

/// Why `caller` may not join with `stake`, if it may not.
pub open spec fn join_refusal(state: State, caller: Seq<char>, stake: Amount) -> Option<ContractError> {
    if stake.0 < state.minimum_stake.0 {
        Some(ContractError::InvalidStake)
    } else if is_validator(state.validators@, caller) {
        Some(ContractError::AlreadyJoined)
    } else {
        None
    }
}

/// Decides whether `caller` may join with `stake`, before the stake is
/// transferred to the contract.
pub fn join_check(state: &State, caller: &Address, stake: Amount) -> (r: Result<(), ContractError>)
    ensures
        match join_refusal(*state, caller@, stake) {
            Some(e) => r is Err && r->Err_0 == e,
            None => r is Ok,
        },
{
    if stake.0 < state.minimum_stake.0 {
        return Err(ContractError::InvalidStake);
    }
    if find_validator(&state.validators, caller).is_some() {
        return Err(ContractError::AlreadyJoined);
    }
    Ok(())
}

/// Where `a` goes in a registry kept in address order.
fn insertion_point(vals: &Vec<Validator>, a: &Address) -> (r: usize)
    ensures
        r <= vals@.len(),
        forall|j: int| 0 <= j < r ==> addr_lt(#[trigger] vals@[j].address@, a@),
        r < vals@.len() ==> !addr_lt(vals@[r as int].address@, a@),
{
    let mut i: usize = 0;
    while i < vals.len()
        invariant
            i <= vals@.len(),
            forall|j: int| 0 <= j < i ==> addr_lt(#[trigger] vals@[j].address@, a@),
        decreases vals@.len() - i,
    {
        if !address_lt(&vals[i].address, a) {
            return i;
        }
        i += 1;
    }
    i
}

/// Completes a join once the transfer of the stake is done: on success the
/// caller enters the registry at its place in address order.
pub fn join(
    mut state: State,
    caller: Address,
    stake: Amount,
    url: url::Url,
    transfer_ok: bool,
) -> (r: ActionResult)
    requires
        validators_sorted(state.validators@),
    ensures
        match join_refusal(state, caller@, stake) {
            Some(e) => r is Err && r->Err_0 == e,
            None => if !transfer_ok {
                r is Err && r->Err_0 == ContractError::TransferFailed
            } else {
                r matches Ok(HandlerResult::NewState(s)) && {
                    &&& validators_sorted(s.validators@)
                    &&& exists|p: int|
                        0 <= p <= state.validators@.len() && s.validators@
                            == state.validators@.insert(
                            p,
                            (Validator { address: caller, url, stake }),
                        )
                    &&& s.bundler == state.bundler
                    &&& s.bundlers_contract == state.bundlers_contract
                    &&& s.epoch == state.epoch
                    &&& s.epoch_duration == state.epoch_duration
                    &&& s.minimum_stake == state.minimum_stake
                    &&& s.token == state.token
                    &&& s.max_num_nominated_validators == state.max_num_nominated_validators
                    &&& s.nominated_validators == state.nominated_validators
                    &&& s.slash_proposal_lifetime == state.slash_proposal_lifetime
                    &&& s.slash_proposals == state.slash_proposals
                }
            },
        },
{
    let ghost old_vals = state.validators@;
    if let Err(e) = join_check(&state, &caller, stake) {
        return Err(e);
    }
    if !transfer_ok {
        return Err(ContractError::TransferFailed);
    }
    let p = insertion_point(&state.validators, &caller);
    let ghost c = caller@;
    proof {
        if p < old_vals.len() {
            assert(old_vals[p as int].address@ != c);
            lemma_addr_lt_total(old_vals[p as int].address@, c);
        }
    }
    state.validators.insert(p, Validator { address: caller, url, stake });
    proof {
        let vals = state.validators@;
        assert forall|i: int, j: int| 0 <= i < j < vals.len() implies addr_lt(
            #[trigger] vals[i].address@,
            #[trigger] vals[j].address@,
        ) by {
            if j < p {
                assert(vals[i] == old_vals[i] && vals[j] == old_vals[j]);
            } else if j == p {
                assert(vals[i] == old_vals[i]);
            } else if i > p {
                assert(vals[i] == old_vals[i - 1] && vals[j] == old_vals[j - 1]);
            } else if i == p {
                assert(vals[j] == old_vals[j - 1]);
                if j - 1 > p {
                    lemma_addr_lt_transitive(c, old_vals[p as int].address@, old_vals[j - 1].address@);
                }
            } else {
                assert(vals[i] == old_vals[i] && vals[j] == old_vals[j - 1]);
            }
        }
    }
    Ok(HandlerResult::NewState(state))
}

/// Why `caller` may not leave, if it may not.
pub open spec fn leave_refusal(state: State, caller: Address) -> Option<ContractError> {
    if exists|i: int|
        0 <= i < state.nominated_validators@.len() && #[trigger] state.nominated_validators@[i]@
            == caller@ {
        Some(ContractError::NominatedValidatorCannotLeave(caller))
    } else if !is_validator(state.validators@, caller@) {
        Some(ContractError::InvalidValidator(caller))
    } else {
        None
    }
}

/// Looks up `a` among the nominated validators.
fn is_nominated(nominated: &Vec<Address>, a: &Address) -> (r: bool)
    ensures
        r == exists|i: int| 0 <= i < nominated@.len() && #[trigger] nominated@[i]@ == a@,
{
    let mut i: usize = 0;
    while i < nominated.len()
        invariant
            i <= nominated@.len(),
            forall|j: int| 0 <= j < i ==> #[trigger] nominated@[j]@ != a@,
        decreases nominated@.len() - i,
    {
        if nominated[i] == *a {
            return true;
        }
        i += 1;
    }
    false
}

/// Decides whether `caller` may leave, before its stake is transferred
/// back; on success gives the stake to return.
pub fn leave_check(state: &State, caller: &Address) -> (r: Result<Amount, ContractError>)
    ensures
        match leave_refusal(*state, *caller) {
            Some(e) => r is Err && r->Err_0 == e,
            None => r matches Ok(stake) && exists|i: int|
                0 <= i < state.validators@.len() && #[trigger] state.validators@[i].address@
                    == caller@ && state.validators@[i].stake == stake,
        },
{
    if is_nominated(&state.nominated_validators, caller) {
        return Err(ContractError::NominatedValidatorCannotLeave(caller.clone()));
    }
    match find_validator(&state.validators, caller) {
        Some(i) => Ok(state.validators[i].stake),
        None => Err(ContractError::InvalidValidator(caller.clone())),
    }
}

/// Completes a leave once the stake has been transferred back: on success
/// the caller's entry leaves the registry.
pub fn leave(mut state: State, caller: Address, transfer_ok: bool) -> (r: ActionResult)
    ensures
        match leave_refusal(state, caller) {
            Some(e) => r is Err && r->Err_0 == e,
            None => if !transfer_ok {
                r is Err && r->Err_0 == ContractError::TransferFailed
            } else {
                r matches Ok(HandlerResult::NewState(s)) && {
                    &&& exists|p: int|
                        0 <= p < state.validators@.len() && #[trigger] state.validators@[p].address@
                            == caller@ && s.validators@ == state.validators@.remove(p)
                    &&& s.bundler == state.bundler
                    &&& s.bundlers_contract == state.bundlers_contract
                    &&& s.epoch == state.epoch
                    &&& s.epoch_duration == state.epoch_duration
                    &&& s.minimum_stake == state.minimum_stake
                    &&& s.token == state.token
                    &&& s.max_num_nominated_validators == state.max_num_nominated_validators
                    &&& s.nominated_validators == state.nominated_validators
                    &&& s.slash_proposal_lifetime == state.slash_proposal_lifetime
                    &&& s.slash_proposals == state.slash_proposals
                }
            },
        },
{
    if let Err(e) = leave_check(&state, &caller) {
        return Err(e);
    }
    if !transfer_ok {
        return Err(ContractError::TransferFailed);
    }
    let i = find_validator(&state.validators, &caller).unwrap();
    state.validators.remove(i);
    Ok(HandlerResult::NewState(state))
}

} // verus!
