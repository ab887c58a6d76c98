//! Read-only queries on the state.

use vstd::prelude::*;

use crate::action::{ActionResult, HandlerResult, QueryResponseMsg};
use crate::state::{registry_addresses, validator_addresses, State};

verus! {

/// The registered addresses, in registry order.
pub fn validators(state: State) -> (r: ActionResult)
    ensures
        r matches Ok(HandlerResult::QueryResponse(QueryResponseMsg::Validators(v)))
            && v@ == validator_addresses(state.validators@),
{
    Ok(HandlerResult::QueryResponse(QueryResponseMsg::Validators(registry_addresses(&state.validators))))
}

/// The validators nominated for the current epoch.
pub fn nominated_validators(state: State) -> (r: ActionResult)
    ensures
        r matches Ok(HandlerResult::QueryResponse(QueryResponseMsg::Validators(v)))
            && v == state.nominated_validators,
{
    Ok(HandlerResult::QueryResponse(QueryResponseMsg::Validators(state.nominated_validators)))
}

/// The minimum stake that a validator has to put up.
pub fn stake(state: State) -> (r: ActionResult)
    ensures
        r == Ok::<HandlerResult<State, QueryResponseMsg>, crate::error::ContractError>(
            HandlerResult::QueryResponse(QueryResponseMsg::Stake(state.minimum_stake)),
        ),
{
    Ok(HandlerResult::QueryResponse(QueryResponseMsg::Stake(state.minimum_stake)))
}

/// The token in which stakes are held.
pub fn token(state: State) -> (r: ActionResult)
    ensures
        r matches Ok(HandlerResult::QueryResponse(QueryResponseMsg::Token(t))) && t == state.token,
{
    Ok(HandlerResult::QueryResponse(QueryResponseMsg::Token(state.token)))
}

/// The current epoch.
pub fn epoch(state: State) -> (r: ActionResult)
    ensures
        r matches Ok(HandlerResult::QueryResponse(QueryResponseMsg::Epoch(e))) && e == state.epoch,
{
    Ok(HandlerResult::QueryResponse(QueryResponseMsg::Epoch(state.epoch)))
}

/// The length of an epoch in blocks.
pub fn epoch_duration(state: State) -> (r: ActionResult)
    ensures
        r matches Ok(HandlerResult::QueryResponse(QueryResponseMsg::EpochDuration(d)))
            && d == state.epoch_duration,
{
    Ok(HandlerResult::QueryResponse(QueryResponseMsg::EpochDuration(state.epoch_duration)))
}

/// The bundler that the validators watch.
pub fn bundler(state: State) -> (r: ActionResult)
    ensures
        r matches Ok(HandlerResult::QueryResponse(QueryResponseMsg::Bundler(b))) && b
            == state.bundler,
{
    Ok(HandlerResult::QueryResponse(QueryResponseMsg::Bundler(state.bundler)))
}

/// The bundlers contract.
pub fn bundlers_contract(state: State) -> (r: ActionResult)
    ensures
        r matches Ok(HandlerResult::QueryResponse(QueryResponseMsg::BundlersContract(b))) && b
            == state.bundlers_contract,
{
    Ok(HandlerResult::QueryResponse(QueryResponseMsg::BundlersContract(state.bundlers_contract)))
}

} // verus!
