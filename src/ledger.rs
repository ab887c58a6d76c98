//! A minimal token ledger: balances and allowances keyed by account,
//! transfers and balance queries.

use vstd::prelude::*;

use crate::keyed::{
    has_key, keys_distinct, lemma_lookup_at, lemma_lookup_push, lemma_lookup_update, lookup,
};

verus! {

/// Finds the position of `k`.
pub fn find_key<V>(m: &Vec<(String, V)>, k: &String) -> (r: Option<usize>)
    ensures
        r is None <==> !has_key(m@, k@),
        r matches Some(i) ==> i < m@.len() && m@[i as int].0@ == k@,
{
    let mut i: usize = 0;
    while i < m.len()
        invariant
            i <= m@.len(),
            forall|j: int| 0 <= j < i ==> #[trigger] m@[j].0@ != k@,
        decreases m@.len() - i,
    {
        if m[i].0 == *k {
            return Some(i);
        }
        i += 1;
    }
    None
}

/// The token's ledger.
#[derive(Clone, Debug, PartialEq)]
pub struct Inner {
    pub owner: String,
    pub total_supply: u64,
    pub decimals: u64,
    pub balances: Vec<(String, u64)>,
    /// Per owner, the amount that each spender may move.
    pub allowances: Vec<(String, Vec<(String, u64)>)>,
}

impl Inner {
    /// One entry per account in every map.
    pub open spec fn wf(&self) -> bool {
        &&& keys_distinct(self.balances@)
        &&& keys_distinct(self.allowances@)
        &&& forall|i: int|
            0 <= i < self.allowances@.len() ==> keys_distinct(
                #[trigger] self.allowances@[i].1@,
            )
    }
}

#[derive(Clone, Debug, PartialEq)]
pub enum State {
    New(Inner),
    Balance(u64),
}

#[derive(Clone, Debug, PartialEq)]
pub struct TransferInput {
    pub amount: u64,
    pub target: String,
}

#[derive(Clone, Debug, PartialEq)]
pub struct BalanceInput {
    pub target: String,
}

#[derive(Clone, Debug, PartialEq)]
pub struct ApproveInput {
    pub amount: u64,
    pub target: String,
}

/// The balance of `k`, zero where it has none.
pub open spec fn balance_of(m: Seq<(String, u64)>, k: Seq<char>) -> int {
    match lookup(m, k) {
        Some(b) => b as int,
        None => 0,
    }
}

/// `caller` can move `amount` to `target`: the amount is not zero, the
/// caller has an account holding it, and the target's balance stays within
/// `u64`.
pub open spec fn transfer_allowed(inner: Inner, amount: u64, target: Seq<char>, caller: Seq<char>) -> bool {
    &&& amount > 0
    &&& has_key(inner.balances@, caller)
    &&& balance_of(inner.balances@, caller) >= amount
    &&& (target != caller ==> balance_of(inner.balances@, target) + amount <= u64::MAX)
}

/// Moves `input.amount` from `caller` to `input.target`, opening an
/// account for the target where it has none.
pub fn transfer(inner: Inner, input: TransferInput, caller: String) -> (r: State)
    requires
        inner.wf(),
        transfer_allowed(inner, input.amount, input.target@, caller@),
    ensures
        r matches State::New(n) && {
            &&& n.wf()
            &&& n.owner == inner.owner
            &&& n.total_supply == inner.total_supply
            &&& n.decimals == inner.decimals
            &&& n.allowances == inner.allowances
            &&& has_key(n.balances@, input.target@)
            &&& forall|k: Seq<char>|
                #[trigger] balance_of(n.balances@, k) == balance_of(inner.balances@, k) - (if k
                    == caller@ {
                    input.amount as int
                } else {
                    0
                }) + (if k == input.target@ {
                    input.amount as int
                } else {
                    0
                })
            &&& forall|k: Seq<char>|
                k != input.target@ ==> (#[trigger] has_key(n.balances@, k) == has_key(
                    inner.balances@,
                    k,
                ))
        },
{
    let mut inner = inner;
    let TransferInput { amount, target } = input;
    let ghost old_bal = inner.balances@;
    let c = find_key(&inner.balances, &caller).unwrap();
    proof {
        lemma_lookup_at(inner.balances@, c as int);
    }
    let caller_balance = inner.balances[c].1;
    let key = inner.balances[c].0.clone();
    proof {
        lemma_lookup_update(inner.balances@, c as int, (caller_balance - amount) as u64);
    }
    inner.balances[c] = (key, caller_balance - amount);
    let ghost mid = inner.balances@;
    match find_key(&inner.balances, &target) {
        Some(t) => {
            proof {
                lemma_lookup_at(inner.balances@, t as int);
            }
            let tkey = inner.balances[t].0.clone();
            let target_balance = inner.balances[t].1;
            proof {
                lemma_lookup_update(inner.balances@, t as int, (target_balance + amount) as u64);
            }
            inner.balances[t] = (tkey, target_balance + amount);
        },
        None => {
            proof {
                lemma_lookup_push(inner.balances@, target, amount);
            }
            inner.balances.push((target, amount));
        },
    }
    proof {
        let n = inner.balances@;
        assert(keys_distinct(n));
        assert(inner.wf());
        assert(lookup(n, input.target@) is Some);
        assert(has_key(n, input.target@));
        assert forall|k: Seq<char>| #[trigger] balance_of(n, k) == balance_of(old_bal, k) - (if k
                    == caller@ {
                    input.amount as int
                } else {
                    0
                }) + (if k == input.target@ {
                    input.amount as int
                } else {
                    0
                }) by {
            assert(lookup(n, k) == (if k == input.target@ { Some((balance_of(mid, k) + amount) as u64) } else { lookup(mid, k) }));
        }
        assert forall|k: Seq<char>| k != input.target@ implies (#[trigger] has_key(n, k) == has_key(
            old_bal,
            k,
        )) by {
            assert(lookup(n, k) == lookup(mid, k));
            if k == caller@ {
            } else {
                assert(lookup(mid, k) == lookup(old_bal, k));
            }
        }
    }
    State::New(inner)
}

/// Sets `k` to `v` in `m`, adding the entry where `k` has none.
fn set_entry(m: &mut Vec<(String, u64)>, k: String, v: u64)
    requires
        keys_distinct(old(m)@),
    ensures
        keys_distinct(final(m)@),
        forall|q: Seq<char>|
            #[trigger] lookup(final(m)@, q) == if q == k@ {
                Some(v)
            } else {
                lookup(old(m)@, q)
            },
{
    match find_key(m, &k) {
        Some(i) => {
            proof {
                lemma_lookup_update(m@, i as int, v);
            }
            let key = m[i].0.clone();
            m[i] = (key, v);
        },
        None => {
            proof {
                lemma_lookup_push(m@, k, v);
            }
            m.push((k, v));
        },
    }
}

/// `caller` may approve: the amount is not zero, and the caller has an
/// account holding at least that much.
pub open spec fn approve_allowed(inner: Inner, amount: u64, caller: Seq<char>) -> bool {
    &&& amount > 0
    &&& has_key(inner.balances@, caller)
    &&& balance_of(inner.balances@, caller) >= amount
}

/// Lets `input.target` move up to `input.amount` of the caller's tokens,
/// where the caller already has allowances on record; a caller without any
/// gets an empty set of allowances instead.
pub fn approve(inner: Inner, input: ApproveInput, caller: String) -> (r: State)
    requires
        inner.wf(),
        approve_allowed(inner, input.amount, caller@),
    ensures
        r matches State::New(n) && {
            let olds = inner.allowances@;
            let news = n.allowances@;
            &&& n.wf()
            &&& n.owner == inner.owner
            &&& n.total_supply == inner.total_supply
            &&& n.decimals == inner.decimals
            &&& n.balances == inner.balances
            &&& forall|k: Seq<char>| k != caller@ ==> #[trigger] lookup(news, k) == lookup(olds, k)
            &&& lookup(news, caller@) matches Some(m) && if has_key(olds, caller@) {
                forall|k: Seq<char>|
                    #[trigger] lookup(m@, k) == if k == input.target@ {
                        Some(input.amount)
                    } else {
                        lookup(lookup(olds, caller@)->Some_0@, k)
                    }
            } else {
                m@.len() == 0
            }
        },
{
    let mut inner = inner;
    let ApproveInput { amount, target } = input;
    let ghost olds = inner.allowances@;
    match find_key(&inner.allowances, &caller) {
        Some(i) => {
            proof {
                lemma_lookup_at(olds, i as int);
            }
            let (owner, mut spenders) = inner.allowances.remove(i);
            assert(spenders@ == olds[i as int].1@);
            set_entry(&mut spenders, target, amount);
            let ghost m = spenders;
            inner.allowances.insert(i, (owner, spenders));
            assert(inner.allowances@ =~= olds.update(i as int, (olds[i as int].0, m)));
            proof {
                lemma_lookup_update(olds, i as int, m);
                let news = inner.allowances@;
                assert forall|j: int| 0 <= j < news.len() implies keys_distinct(
                    #[trigger] news[j].1@,
                ) by {
                    if j != i {
                        assert(news[j] == olds[j]);
                    }
                }
            }
        },
        None => {
            let empty: Vec<(String, u64)> = Vec::with_capacity(1);
            proof {
                lemma_lookup_push(olds, caller, empty);
            }
            inner.allowances.push((caller, empty));
            proof {
                let news = inner.allowances@;
                assert forall|j: int| 0 <= j < news.len() implies keys_distinct(
                    #[trigger] news[j].1@,
                ) by {
                    if j < olds.len() {
                        assert(news[j] == olds[j]);
                    }
                }
            }
        },
    }
    State::New(inner)
}

/// The balance of `input.target`, zero where it has no account.
pub fn balance(inner: Inner, input: BalanceInput) -> (r: State)
    requires
        keys_distinct(inner.balances@),
    ensures
        r matches State::Balance(b) && b == balance_of(inner.balances@, input.target@),
{
    match find_key(&inner.balances, &input.target) {
        Some(i) => {
            proof {
                lemma_lookup_at(inner.balances@, i as int);
            }
            State::Balance(inner.balances[i].1)
        },
        None => State::Balance(0),
    }
}

} // verus!
