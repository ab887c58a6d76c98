//! State transitions of the Bundlr contracts. The core is the validators
//! contract: epoch rotation with deterministic nominee sampling, and
//! stake-weighted voting on slashing proposals (`state`, `epoch`,
//! `rotation`, `slashing`, `membership`, `queries`). Beside it stand the
//! token, bundlers, ledger, bundler listing and delegators contracts.

pub mod action;
pub mod bundler_listing;
pub mod bundlers;
pub mod delegators;
pub mod epoch;
pub mod error;
pub mod external;
pub mod keyed;
pub mod ledger;
pub mod membership;
pub mod queries;
pub mod rotation;
pub mod shared;
pub mod slashing;
pub mod state;
pub mod token;
