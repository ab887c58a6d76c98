//! What a call hands back: a new state or a query response.

use vstd::prelude::*;

use crate::epoch::Epoch;
use crate::error::ContractError;
use crate::shared::{Address, Amount};
use crate::state::State;

verus! {

/// A successful call either replaces the state or answers a query.
#[derive(Debug, PartialEq)]
pub enum HandlerResult<S, Q> {
    NewState(S),
    QueryResponse(Q),
}

/// The answers of the read-only queries.
#[derive(Debug, PartialEq)]
pub enum QueryResponseMsg {
    Bundler(Address),
    BundlersContract(Address),
    Epoch(Epoch),
    EpochDuration(u16),
    Token(Address),
    Stake(Amount),
    Validators(Vec<Address>),
}

pub type ActionResult = Result<HandlerResult<State, QueryResponseMsg>, ContractError>;

} // verus!
