//! Plain value types shared by the contracts: addresses, transaction
//! identifiers, token amounts and block heights.

use vstd::prelude::*;

verus! {

/// An account address, held as its textual form.
#[derive(Debug, Hash)]
pub struct Address(pub String);

impl View for Address {
    type V = Seq<char>;

    open spec fn view(&self) -> Seq<char> {
        self.0@
    }
}

impl Clone for Address {
    fn clone(&self) -> (r: Address)
        ensures
            r == *self,
    {
        Address(self.0.clone())
    }
}

impl PartialEq for Address {
    fn eq(&self, other: &Address) -> (r: bool) {
        self.0 == other.0
    }
}

impl vstd::std_specs::cmp::PartialEqSpecImpl for Address {
    open spec fn obeys_eq_spec() -> bool {
        true
    }

    open spec fn eq_spec(&self, other: &Address) -> bool {
        self@ == other@
    }
}

impl Eq for Address {}

impl std::str::FromStr for Address {
    type Err = std::convert::Infallible;

    fn from_str(s: &str) -> Result<Address, std::convert::Infallible> {
        Ok(Address(s.to_owned()))
    }
}

/// The identifier of a transaction, held as its textual form.
#[derive(Debug, Hash)]
pub struct TransactionId(pub String);

impl View for TransactionId {
    type V = Seq<char>;

    open spec fn view(&self) -> Seq<char> {
        self.0@
    }
}

impl Clone for TransactionId {
    fn clone(&self) -> (r: TransactionId)
        ensures
            r == *self,
    {
        TransactionId(self.0.clone())
    }
}

impl PartialEq for TransactionId {
    fn eq(&self, other: &TransactionId) -> (r: bool) {
        self.0 == other.0
    }
}

impl vstd::std_specs::cmp::PartialEqSpecImpl for TransactionId {
    open spec fn obeys_eq_spec() -> bool {
        true
    }

    open spec fn eq_spec(&self, other: &TransactionId) -> bool {
        self@ == other@
    }
}

impl Eq for TransactionId {}

impl std::str::FromStr for TransactionId {
    type Err = std::convert::Infallible;

    fn from_str(s: &str) -> Result<TransactionId, std::convert::Infallible> {
        Ok(TransactionId(s.to_owned()))
    }
}

/// A token amount (a stake, a balance).
#[derive(Clone, Copy, Debug, Default, PartialEq, Eq, Structural)]
pub struct Amount(pub u128);

impl From<u128> for Amount {
    fn from(val: u128) -> (r: Amount) {
        Amount(val)
    }
}

impl vstd::std_specs::convert::FromSpecImpl<u128> for Amount {
    open spec fn obeys_from_spec() -> bool {
        true
    }

    open spec fn from_spec(val: u128) -> Amount {
        Amount(val)
    }
}

/// A block height of the chain.
#[derive(Clone, Copy, Debug, Default, PartialEq, Eq, Structural)]
pub struct BlockHeight(pub u128);

impl From<u128> for BlockHeight {
    fn from(val: u128) -> (r: BlockHeight) {
        BlockHeight(val)
    }
}

impl vstd::std_specs::convert::FromSpecImpl<u128> for BlockHeight {
    open spec fn obeys_from_spec() -> bool {
        true
    }

    open spec fn from_spec(val: u128) -> BlockHeight {
        BlockHeight(val)
    }
}

} // verus!
