//! The delegators contract: accounts delegate amounts to bundlers, and the
//! contract keeps each account's delegations and each bundler's total.

use vstd::prelude::*;

use crate::ledger::find_key;
use crate::keyed::{
    has_key, keys_distinct, lemma_lookup_at, lemma_lookup_push, lemma_lookup_update, lookup,
};

verus! {

/// An amount delegated to a bundler.
#[derive(Clone, Debug, PartialEq)]
pub struct Delegation {
    pub bundler: String,
    pub amount: u64,
}

/// The contract's ledger: per delegator its delegations, per bundler the
/// total delegated to it.
#[derive(Debug, PartialEq)]
pub struct Inner {
    pub bundler_contract: String,
    pub delegations: Vec<(String, Vec<Delegation>)>,
    pub delegation_totals: Vec<(String, u64)>,
}

#[derive(Debug, PartialEq)]
pub enum State {
    New(Inner),
    StakeBalance(u64),
}

/// The calls the contract takes.
#[derive(Clone, Copy, Debug, PartialEq, Eq, Structural)]
pub enum Method {
    Delegate,
    Undelegate,
}

#[derive(Clone, Debug, PartialEq)]
pub struct DelegateInput {
    pub bundler: String,
    pub amount: u64,
}

impl Inner {
    pub open spec fn wf(&self) -> bool {
        &&& keys_distinct(self.delegations@)
        &&& keys_distinct(self.delegation_totals@)
    }
}

/// The first of `ds` made to bundler `b`, if any.
pub open spec fn first_to(ds: Seq<Delegation>, b: Seq<char>) -> Option<int> {
    if exists|j: int| 0 <= j < ds.len() && #[trigger] ds[j].bundler@ == b {
        Some(
            choose|j: int|
                0 <= j < ds.len() && #[trigger] ds[j].bundler@ == b && forall|i: int|
                    0 <= i < j ==> #[trigger] ds[i].bundler@ != b,
        )
    } else {
        None
    }
}

proof fn lemma_first_to(ds: Seq<Delegation>, b: Seq<char>, j: int)
    requires
        0 <= j < ds.len(),
        ds[j].bundler@ == b,
        forall|i: int| 0 <= i < j ==> #[trigger] ds[i].bundler@ != b,
    ensures
        first_to(ds, b) == Some(j),
{
    let k = choose|k: int|
        0 <= k < ds.len() && #[trigger] ds[k].bundler@ == b && forall|i: int|
            0 <= i < k ==> #[trigger] ds[i].bundler@ != b;
    assert(0 <= k < ds.len() && ds[k].bundler@ == b && forall|i: int| 0 <= i < k ==> #[trigger] ds[i].bundler@ != b) by {
        assert(ds[j].bundler@ == b);
    }
    if k < j {
        assert(ds[k].bundler@ != b);
    } else if k > j {
        assert(ds[j].bundler@ != b);
    }
}

/// Finds the first of `ds` made to bundler `b`.
fn first_delegation_to(ds: &Vec<Delegation>, b: &String) -> (r: Option<usize>)
    ensures
        match r {
            Some(j) => j < ds@.len() && first_to(ds@, b@) == Some(j as int),
            None => first_to(ds@, b@) is None,
        },
{
    let mut j: usize = 0;
    while j < ds.len()
        invariant
            j <= ds@.len(),
            forall|i: int| 0 <= i < j ==> #[trigger] ds@[i].bundler@ != b@,
        decreases ds@.len() - j,
    {
        if ds[j].bundler == *b {
            proof {
                lemma_first_to(ds@, b@, j as int);
            }
            return Some(j);
        }
        j += 1;
    }
    None
}

/// The delegations of a delegator after delegating `amount` to `b`: the
/// first delegation to `b` grows, or a new one is added.
pub open spec fn delegated(ds: Seq<Delegation>, b: String, amount: u64) -> Seq<Delegation> {
    match first_to(ds, b@) {
        Some(j) => ds.update(
            j,
            Delegation { bundler: ds[j].bundler, amount: (ds[j].amount + amount) as u64 },
        ),
        None => ds.push(Delegation { bundler: b, amount }),
    }
}

/// The delegation can be recorded without overflow.
pub open spec fn delegation_fits(inner: Inner, caller: Seq<char>, b: Seq<char>, amount: u64) -> bool {
    match lookup(inner.delegations@, caller) {
        Some(ds) => match first_to(ds@, b) {
            Some(j) => ds@[j].amount + amount <= u64::MAX,
            None => true,
        },
        None => match lookup(inner.delegation_totals@, b) {
            Some(t) => t + amount <= u64::MAX,
            None => true,
        },
    }
}

/// Delegates `input.amount` to `input.bundler` for `caller`. `bundlers`
/// lists the bundlers that the bundlers contract knows, and the bundler must
/// be among them. A delegator's first delegation also counts towards the
/// bundler's total; later ones only change the delegator's record.
pub fn delegate(inner: Inner, input: DelegateInput, caller: String, bundlers: &Vec<String>) -> (r:
    State)
    requires
        inner.wf(),
        exists|i: int| 0 <= i < bundlers@.len() && #[trigger] bundlers@[i]@ == input.bundler@,
        delegation_fits(inner, caller@, input.bundler@, input.amount),
    ensures
        r matches State::New(n) && n.wf() && n.bundler_contract == inner.bundler_contract && match lookup(
            inner.delegations@,
            caller@,
        ) {
            Some(ds) => {
                &&& n.delegation_totals == inner.delegation_totals
                &&& forall|k: Seq<char>|
                    k != caller@ ==> #[trigger] lookup(n.delegations@, k) == lookup(
                        inner.delegations@,
                        k,
                    )
                &&& lookup(n.delegations@, caller@) matches Some(nds) && nds@ == delegated(
                    ds@,
                    input.bundler,
                    input.amount,
                )
            },
            None => {
                &&& n.delegations@.len() == inner.delegations@.len() + 1
                &&& n.delegations@.drop_last() == inner.delegations@
                &&& n.delegations@.last().0 == caller
                &&& n.delegations@.last().1@ == seq![
                    Delegation { bundler: input.bundler, amount: input.amount },
                ]
                &&& forall|k: Seq<char>|
                    #[trigger] lookup(n.delegation_totals@, k) == if k == input.bundler@ {
                        Some(
                            (match lookup(inner.delegation_totals@, k) {
                                Some(t) => t + input.amount,
                                None => input.amount as int,
                            }) as u64,
                        )
                    } else {
                        lookup(inner.delegation_totals@, k)
                    }
            },
        },
{
    let mut inner = inner;
    let ghost old_d = inner.delegations@;
    let ghost old_t = inner.delegation_totals@;
    let DelegateInput { bundler, amount } = input;
    if let Some(c) = find_key(&inner.delegations, &caller) {
        proof {
            lemma_lookup_at(old_d, c as int);
        }
        let (key, mut ds) = inner.delegations.remove(c);
        match first_delegation_to(&ds, &bundler) {
            Some(j) => {
                let d = Delegation { bundler: ds[j].bundler.clone(), amount: ds[j].amount + amount };
                ds[j] = d;
            },
            None => {
                ds.push(Delegation { bundler, amount });
            },
        }
        let ghost new_ds = ds;
        inner.delegations.insert(c, (key, ds));
        assert(inner.delegations@ =~= old_d.update(c as int, (old_d[c as int].0, new_ds)));
        proof {
            lemma_lookup_update(old_d, c as int, new_ds);
        }
        return State::New(inner);
    }
    assert(!has_key(old_d, caller@));
    match find_key(&inner.delegation_totals, &bundler) {
        Some(t) => {
            proof {
                lemma_lookup_at(old_t, t as int);
                lemma_lookup_update(old_t, t as int, (old_t[t as int].1 + amount) as u64);
            }
            let key = inner.delegation_totals[t].0.clone();
            let total = inner.delegation_totals[t].1;
            inner.delegation_totals[t] = (key, total + amount);
        },
        None => {
            proof {
                lemma_lookup_push(old_t, bundler, amount);
            }
            inner.delegation_totals.push((bundler.clone(), amount));
        },
    }
    let mut ds: Vec<Delegation> = Vec::new();
    ds.push(Delegation { bundler, amount });
    proof {
        lemma_lookup_push(old_d, caller, ds);
    }
    inner.delegations.push((caller, ds));
    State::New(inner)
}

} // verus!
