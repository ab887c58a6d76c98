//! A listing of bundlers: each joins with a stake and an endpoint.

use vstd::prelude::*;

verus! {

/// `serde_json::Value`, carried through as an opaque value: the arguments
/// of a call on another contract.
#[verifier::external_type_specification]
#[verifier::external_body]
pub struct ExJsonValue(serde_json::Value);

/// A registered bundler.
#[derive(Debug, PartialEq)]
pub struct Bundler {
    pub url: String,
    pub amount: u64,
}

/// A call that the registry has made, or is to make, on another contract.
#[derive(Debug, PartialEq)]
pub struct ForeignCall {
    pub function: String,
    pub foreign_contract: String,
    pub invocation: serde_json::Value,
}

/// The registry: bundlers keyed by address, one entry each.
#[derive(Debug, PartialEq)]
pub struct Inner {
    pub bundlers: Vec<(String, Bundler)>,
    pub foreign_calls: Vec<ForeignCall>,
}

#[derive(Debug, PartialEq)]
pub enum State {
    New(Inner),
}

/// The calls the registry takes.
#[derive(Clone, Copy, Debug, PartialEq, Eq, Structural)]
pub enum Method {
    AddBundler,
    RemoveBundler,
}

/// What a bundler puts up when joining.
#[derive(Debug, PartialEq)]
pub struct AddBundlerInput {
    pub url: String,
    pub amount: u64,
}

/// `a` is registered as a bundler.
pub open spec fn is_bundler(bundlers: Seq<(String, Bundler)>, a: Seq<char>) -> bool {
    exists|i: int| 0 <= i < bundlers.len() && #[trigger] bundlers[i].0@ == a
}

/// Looks up `a` among the bundlers.
pub fn contains_bundler(bundlers: &Vec<(String, Bundler)>, a: &String) -> (r: bool)
    ensures
        r == is_bundler(bundlers@, a@),
{
    let mut i: usize = 0;
    while i < bundlers.len()
        invariant
            i <= bundlers@.len(),
            forall|j: int| 0 <= j < i ==> #[trigger] bundlers@[j].0@ != a@,
        decreases bundlers@.len() - i,
    {
        if bundlers[i].0 == *a {
            return true;
        }
        i += 1;
    }
    false
}

/// Registers `caller` as a bundler with the endpoint and stake of `input`.
/// A caller that is already a bundler cannot join again.
pub fn add_bundler(inner: Inner, input: AddBundlerInput, caller: String) -> (r: State)
    requires
        !is_bundler(inner.bundlers@, caller@),
    ensures
        r matches State::New(n) && n.foreign_calls == inner.foreign_calls && n.bundlers@
            == inner.bundlers@.push((caller, Bundler { url: input.url, amount: input.amount })),
{
    let mut inner = inner;
    let AddBundlerInput { url, amount } = input;
    let bundler = Bundler { url, amount };
    inner.bundlers.push((caller, bundler));
    State::New(inner)
}

} // verus!
