//! The errors that a call on the validator registry can end with.

use vstd::prelude::*;

use crate::shared::{Address, TransactionId};

verus! {

/// Why a call was refused. A refused call leaves the state as it was.
#[derive(Debug, PartialEq)]
pub enum ContractError {
    NominatedValidatorCannotLeave(Address),
    InvalidValidator(Address),
    ParseError(String),
    RuntimeError(String),
    TransferFailed,
    UpdateEpochBlocked,
    AlreadyProposed(TransactionId),
    TooManyProposals,
    InvalidStake,
    AlreadyJoined,
    InvalidTransactionId,
    ProposalExpired,
    VotingClosed,
    AlreadyVoted,
}

} // verus!
