//! The token contract: balances, allowances that let a spender move an
//! owner's tokens, transfers, and read-only queries.

use vstd::prelude::*;

use crate::action::HandlerResult;
use crate::keyed::{
    has_key, keys_distinct, lemma_lookup_at, lemma_lookup_push, lemma_lookup_remove,
    lemma_lookup_update, lookup,
};
use crate::shared::{Address, Amount};

verus! {

/// The token contract's state.
#[derive(Debug, PartialEq)]
pub struct State {
    pub ticker: String,
    pub name: Option<String>,
    pub decimals: u8,
    pub total_supply: Amount,
    pub owner: Address,
    pub balances: Vec<(Address, Amount)>,
    /// Per owner, the amount that each spender may move.
    pub allowances: Vec<(Address, Vec<(Address, Amount)>)>,
}

#[derive(Debug, PartialEq)]
pub enum ContractError {
    RuntimeError(String),
    ParseError(String),
    InvalidAddress(String),
    AmountMustBeHigherThanZero,
    InvalidBalance(Amount),
    InvalidSpenderAllowance { owner: Address, spender: Address, amount: Amount },
}

#[derive(Debug, PartialEq)]
pub enum QueryResponseMsg {
    Allowance { allowance: Amount, ticker: String, owner: Address, spender: Address },
    Balance { balance: Amount, ticker: String, target: Address },
    Decimals(u8),
    Name(Option<String>),
    Symbol(String),
    TotalSupply(Amount),
}

pub type ActionResult = Result<HandlerResult<State, QueryResponseMsg>, ContractError>;

/// The amount recorded for `k`, zero where there is none.
pub open spec fn amount_of(m: Seq<(Address, Amount)>, k: Seq<char>) -> int {
    match lookup(m, k) {
        Some(a) => a.0 as int,
        None => 0,
    }
}

/// What `spender` may still move of `owner`'s tokens.
pub open spec fn allowance_of(
    allows: Seq<(Address, Vec<(Address, Amount)>)>,
    owner: Seq<char>,
    spender: Seq<char>,
) -> int {
    match lookup(allows, owner) {
        Some(m) => amount_of(m@, spender),
        None => 0,
    }
}

/// Every owner's allowances have one entry per spender.
pub open spec fn allowances_wf(allows: Seq<(Address, Vec<(Address, Amount)>)>) -> bool {
    &&& keys_distinct(allows)
    &&& forall|i: int| 0 <= i < allows.len() ==> keys_distinct(#[trigger] allows[i].1@)
}

impl State {
    /// One entry per account in every map.
    pub open spec fn wf(&self) -> bool {
        &&& keys_distinct(self.balances@)
        &&& allowances_wf(self.allowances@)
    }
}

/// `new` records the balances of `old` after `amount` moved from `from` to
/// `to`.
pub open spec fn moved(
    old: Seq<(Address, Amount)>,
    new: Seq<(Address, Amount)>,
    from: Seq<char>,
    to: Seq<char>,
    amount: int,
) -> bool {
    &&& keys_distinct(new)
    &&& forall|k: Seq<char>|
        #[trigger] amount_of(new, k) == amount_of(old, k) - (if k == from {
            amount
        } else {
            0
        }) + (if k == to {
            amount
        } else {
            0
        })
    &&& forall|k: Seq<char>| #[trigger] has_key(new, k) == (has_key(old, k) || k == from || k == to)
}

/// `new` holds the allowances of `old` after `spender` used `amount` of
/// `owner`'s allowance; other owners' entries are as they were, and an owner
/// left with no allowance has no entry.
pub open spec fn allowance_spent(
    old: Seq<(Address, Vec<(Address, Amount)>)>,
    new: Seq<(Address, Vec<(Address, Amount)>)>,
    owner: Seq<char>,
    spender: Seq<char>,
    amount: int,
) -> bool {
    &&& allowances_wf(new)
    &&& forall|o: Seq<char>, p: Seq<char>|
        #[trigger] allowance_of(new, o, p) == allowance_of(old, o, p) - (if o == owner && p
            == spender {
            amount
        } else {
            0
        })
    &&& forall|o: Seq<char>| o != owner ==> #[trigger] lookup(new, o) == lookup(old, o)
    &&& (lookup(new, owner) matches Some(m) ==> m@.len() > 0)
}

fn find_addr<V>(m: &Vec<(Address, V)>, k: &Address) -> (r: Option<usize>)
    ensures
        r is None <==> !has_key(m@, k@),
        r matches Some(i) ==> i < m@.len() && m@[i as int].0@ == k@,
{
    let mut i: usize = 0;
    while i < m.len()
        invariant
            i <= m@.len(),
            forall|j: int| 0 <= j < i ==> #[trigger] m@[j].0@ != k@,
        decreases m@.len() - i,
    {
        if m[i].0 == *k {
            return Some(i);
        }
        i += 1;
    }
    None
}

fn amount_at(m: &Vec<(Address, Amount)>, k: &Address) -> (r: Amount)
    requires
        keys_distinct(m@),
    ensures
        r.0 == amount_of(m@, k@),
{
    match find_addr(m, k) {
        Some(i) => {
            proof {
                lemma_lookup_at(m@, i as int);
            }
            m[i].1
        },
        None => Amount(0),
    }
}

fn set_amount(m: &mut Vec<(Address, Amount)>, k: Address, v: Amount)
    requires
        keys_distinct(old(m)@),
    ensures
        keys_distinct(final(m)@),
        forall|q: Seq<char>|
            #[trigger] lookup(final(m)@, q) == if q == k@ {
                Some(v)
            } else {
                lookup(old(m)@, q)
            },
        forall|q: Seq<char>| #[trigger] has_key(final(m)@, q) == (has_key(old(m)@, q) || q == k@),
{
    match find_addr(m, &k) {
        Some(i) => {
            proof {
                lemma_lookup_update(m@, i as int, v);
            }
            let key = m[i].0.clone();
            m[i] = (key, v);
        },
        None => {
            proof {
                lemma_lookup_push(m@, k, v);
            }
            m.push((k, v));
        },
    }
    assert forall|q: Seq<char>| #[trigger] has_key(m@, q) == (has_key(old(m)@, q) || q == k@) by {
        assert(lookup(m@, q) is Some == has_key(m@, q));
        assert(lookup(old(m)@, q) is Some == has_key(old(m)@, q));
    }
}

fn remove_key(m: &mut Vec<(Address, Amount)>, k: &Address)
    requires
        keys_distinct(old(m)@),
    ensures
        keys_distinct(final(m)@),
        forall|q: Seq<char>|
            #[trigger] lookup(final(m)@, q) == if q == k@ {
                None
            } else {
                lookup(old(m)@, q)
            },
{
    match find_addr(m, k) {
        Some(i) => {
            proof {
                lemma_lookup_remove(m@, i as int);
            }
            m.remove(i);
        },
        None => {
            assert forall|q: Seq<char>| #[trigger] lookup(m@, q) == if q == k@ {
                None
            } else {
                lookup(m@, q)
            } by {}
        },
    }
}

/// Moves `amount` from `from` to `to` on `balances`, which hold at least
/// `amount` for `from`.
fn move_amount(balances: &mut Vec<(Address, Amount)>, from: Address, to: Address, amount: Amount)
    requires
        keys_distinct(old(balances)@),
        amount_of(old(balances)@, from@) >= amount.0,
        to@ != from@ ==> amount_of(old(balances)@, to@) + amount.0 <= u128::MAX,
    ensures
        moved(old(balances)@, final(balances)@, from@, to@, amount.0 as int),
{
    let ghost start = balances@;
    let fb = amount_at(balances, &from);
    let ghost fk = from@;
    set_amount(balances, from, Amount(fb.0 - amount.0));
    let tb = amount_at(balances, &to);
    let ghost mid = balances@;
    set_amount(balances, to, Amount(tb.0 + amount.0));
    assert forall|k: Seq<char>| #[trigger] amount_of(balances@, k) == amount_of(start, k) - (if k
        == fk {
        amount.0 as int
    } else {
        0
    }) + (if k == to@ {
        amount.0 as int
    } else {
        0
    }) by {
        assert(lookup(balances@, k) == if k == to@ { Some(Amount((tb.0 + amount.0) as u128)) } else { lookup(mid, k) });
    }
}

/// Why `spender` may not use `amount` of `owner`'s allowance, if it may not.
pub open spec fn spend_refusal(
    allows: Seq<(Address, Vec<(Address, Amount)>)>,
    owner: Address,
    spender: Address,
    amount: Amount,
) -> Option<ContractError> {
    if amount.0 == 0 {
        Some(ContractError::AmountMustBeHigherThanZero)
    } else if !(lookup(allows, owner@) matches Some(m) && has_key(m@, spender@))
        || allowance_of(allows, owner@, spender@) < amount.0 {
        Some(ContractError::InvalidSpenderAllowance { owner, spender, amount })
    } else {
        None
    }
}

/// Uses `amount` of what `spender` may move of `owner`'s tokens; an
/// allowance used up is removed, and so is an owner left with none.
pub fn spend_allowance(mut state: State, owner: &Address, spender: &Address, amount: &Amount) -> (r:
    Result<State, ContractError>)
    requires
        state.wf(),
    ensures
        match spend_refusal(state.allowances@, *owner, *spender, *amount) {
            Some(e) => r is Err && r->Err_0 == e,
            None => r matches Ok(s) && s.wf() && s.balances == state.balances && s.ticker
                == state.ticker && s.name == state.name && s.decimals == state.decimals
                && s.total_supply == state.total_supply && s.owner == state.owner
                && allowance_spent(state.allowances@, s.allowances@, owner@, spender@, amount.0 as int),
        },
{
    let ghost olds = state.allowances@;
    let refused = ContractError::InvalidSpenderAllowance {
        owner: owner.clone(),
        spender: spender.clone(),
        amount: *amount,
    };
    if amount.0 == 0 {
        return Err(ContractError::AmountMustBeHigherThanZero);
    }
    let i = match find_addr(&state.allowances, owner) {
        Some(i) => i,
        None => {
            return Err(refused);
        },
    };
    proof {
        lemma_lookup_at(olds, i as int);
    }
    let j = match find_addr(&state.allowances[i].1, spender) {
        Some(j) => j,
        None => {
            return Err(refused);
        },
    };
    proof {
        lemma_lookup_at(olds[i as int].1@, j as int);
    }
    let allowance = state.allowances[i].1[j].1;
    if allowance.0 < amount.0 {
        return Err(refused);
    }
    let (key, mut spenders) = state.allowances.remove(i);
    let ghost old_inner = spenders@;
    let rest = allowance.0 - amount.0;
    if rest == 0 {
        remove_key(&mut spenders, spender);
    } else {
        set_amount(&mut spenders, spender.clone(), Amount(rest));
        proof {
            lemma_lookup_at(spenders@, 0);
        }
        assert(lookup(spenders@, spender@) is Some);
    }
    let ghost new_vec = spenders;
    let ghost new_inner = spenders@;
    if spenders.len() > 0 {
        state.allowances.insert(i, (key, spenders));
        assert(state.allowances@ =~= olds.update(i as int, (olds[i as int].0, new_vec)));
        proof {
            lemma_lookup_update(olds, i as int, new_vec);
        }
    } else {
        assert(state.allowances@ =~= olds.remove(i as int));
        proof {
            lemma_lookup_remove(olds, i as int);
            assert forall|p: Seq<char>| #[trigger] amount_of(new_inner, p) == 0 by {
                assert(!has_key(new_inner, p));
            }
        }
    }
    proof {
        let news = state.allowances@;
        assert forall|m: int| 0 <= m < news.len() implies keys_distinct(#[trigger] news[m].1@) by {
            if m < i {
                assert(news[m] == olds[m]);
            } else if m > i || new_inner.len() == 0 {
                if new_inner.len() == 0 {
                    assert(news[m] == olds[m + 1]);
                } else {
                    assert(news[m] == olds[m]);
                }
            }
        }
        assert forall|o: Seq<char>, p: Seq<char>| #[trigger] allowance_of(news, o, p)
            == allowance_of(olds, o, p) - (if o == owner@ && p == spender@ {
            amount.0 as int
        } else {
            0
        }) by {
            if o == owner@ {
                assert(lookup(new_inner, p) == if p == spender@ {
                    if rest == 0 { None } else { Some(Amount(rest)) }
                } else {
                    lookup(old_inner, p)
                });
            }
        }
    }
    Ok(state)
}

/// Lets `spender` move up to `amount` of `caller`'s tokens; a zero amount
/// withdraws the permission. The caller must hold at least `amount`.
pub fn approve(mut state: State, caller: Address, spender: Address, amount: Amount) -> (r:
    ActionResult)
    requires
        state.wf(),
    ensures
        amount_of(state.balances@, caller@) < amount.0 ==> r is Err && r->Err_0
            == ContractError::InvalidBalance(Amount(amount_of(state.balances@, caller@) as u128)),
        amount_of(state.balances@, caller@) >= amount.0 ==> (r matches Ok(HandlerResult::NewState(s))
            && s.wf() && s.balances == state.balances && s.ticker == state.ticker && s.name
            == state.name && s.decimals == state.decimals && s.total_supply == state.total_supply
            && s.owner == state.owner && (forall|o: Seq<char>|
            o != caller@ ==> #[trigger] lookup(s.allowances@, o) == lookup(state.allowances@, o))
            && (forall|p: Seq<char>|
            #[trigger] allowance_of(s.allowances@, caller@, p) == if p == spender@ {
                amount.0 as int
            } else {
                allowance_of(state.allowances@, caller@, p)
            }) && (amount.0 == 0 ==> (lookup(s.allowances@, caller@) matches Some(m) ==> m@.len()
            > 0))),
{
    let ghost olds = state.allowances@;
    let caller_balance = amount_at(&state.balances, &caller);
    if caller_balance.0 < amount.0 {
        return Err(ContractError::InvalidBalance(caller_balance));
    }
    match find_addr(&state.allowances, &caller) {
        Some(i) => {
            proof {
                lemma_lookup_at(olds, i as int);
            }
            let (key, mut spenders) = state.allowances.remove(i);
            let ghost old_inner = spenders@;
            if amount.0 == 0 {
                remove_key(&mut spenders, &spender);
            } else {
                set_amount(&mut spenders, spender, amount);
            }
            let ghost new_vec = spenders;
    let ghost new_inner = spenders@;
            if spenders.len() > 0 || amount.0 > 0 {
                state.allowances.insert(i, (key, spenders));
                assert(state.allowances@ =~= olds.update(i as int, (olds[i as int].0, new_vec)));
                proof {
                    lemma_lookup_update(olds, i as int, new_vec);
                }
            } else {
                assert(state.allowances@ =~= olds.remove(i as int));
                proof {
                    lemma_lookup_remove(olds, i as int);
                    assert forall|p: Seq<char>| #[trigger] amount_of(new_inner, p) == 0 by {
                        assert(!has_key(new_inner, p));
                    }
                }
            }
            proof {
                let news = state.allowances@;
                assert forall|m: int| 0 <= m < news.len() implies keys_distinct(
                    #[trigger] news[m].1@,
                ) by {
                    if m < i {
                        assert(news[m] == olds[m]);
                    } else if new_inner.len() == 0 && amount.0 == 0 {
                        assert(news[m] == olds[m + 1]);
                    } else if m > i {
                        assert(news[m] == olds[m]);
                    }
                }
                if amount.0 > 0 {
                    assert(lookup(new_inner, spender@) is Some);
                    assert(has_key(new_inner, spender@));
                }
            }
        },
        None => {
            if amount.0 > 0 {
                let mut spenders: Vec<(Address, Amount)> = Vec::new();
                set_amount(&mut spenders, spender, amount);
                let ghost new_vec = spenders;
    let ghost new_inner = spenders@;
                proof {
                    lemma_lookup_push(olds, caller, spenders);
                }
                state.allowances.push((caller, spenders));
                proof {
                    let news = state.allowances@;
                    assert forall|m: int| 0 <= m < news.len() implies keys_distinct(
                        #[trigger] news[m].1@,
                    ) by {
                        if m < olds.len() {
                            assert(news[m] == olds[m]);
                        }
                    }
                    assert forall|p: Seq<char>| #[trigger] allowance_of(news, caller@, p)
                        == if p == spender@ {
                        amount.0 as int
                    } else {
                        allowance_of(olds, caller@, p)
                    } by {
                        assert(lookup(new_inner, p) == if p == spender@ { Some(amount) } else { lookup(Seq::<(Address, Amount)>::empty(), p) });
                    }
                }
            }
        },
    }
    Ok(HandlerResult::NewState(state))
}

/// Moves `amount` of the caller's tokens to `to`.
pub fn transfer(mut state: State, caller: Address, to: Address, amount: Amount) -> (r: ActionResult)
    requires
        state.wf(),
        to@ != caller@ ==> amount_of(state.balances@, to@) + amount.0 <= u128::MAX,
    ensures
        amount.0 == 0 ==> r is Err && r->Err_0 == ContractError::AmountMustBeHigherThanZero,
        amount.0 > 0 && amount_of(state.balances@, caller@) < amount.0 ==> r is Err && r->Err_0
            == ContractError::InvalidBalance(Amount(amount_of(state.balances@, caller@) as u128)),
        amount.0 > 0 && amount_of(state.balances@, caller@) >= amount.0 ==> (r matches Ok(
            HandlerResult::NewState(s),
        ) && s.wf() && s.allowances == state.allowances && s.ticker == state.ticker && s.name
            == state.name && s.decimals == state.decimals && s.total_supply == state.total_supply
            && s.owner == state.owner && moved(
            state.balances@,
            s.balances@,
            caller@,
            to@,
            amount.0 as int,
        )),
{
    if amount.0 == 0 {
        return Err(ContractError::AmountMustBeHigherThanZero);
    }
    let caller_balance = amount_at(&state.balances, &caller);
    if caller_balance.0 < amount.0 {
        return Err(ContractError::InvalidBalance(caller_balance));
    }
    move_amount(&mut state.balances, caller, to, amount);
    Ok(HandlerResult::NewState(state))
}

/// Moves `amount` from `from` to `to` on the caller's behalf: a caller other
/// than `from` spends that much of its allowance.
pub fn transfer_from(state: State, caller: Address, from: Address, to: Address, amount: Amount) -> (r:
    ActionResult)
    requires
        state.wf(),
        to@ != from@ ==> amount_of(state.balances@, to@) + amount.0 <= u128::MAX,
    ensures
        amount.0 == 0 ==> r is Err && r->Err_0 == ContractError::AmountMustBeHigherThanZero,
        amount.0 > 0 && caller@ != from@ && spend_refusal(state.allowances@, from, caller, amount)
            is Some ==> r is Err && r->Err_0 == spend_refusal(
            state.allowances@,
            from,
            caller,
            amount,
        )->Some_0,
        amount.0 > 0 && (caller@ == from@ || spend_refusal(state.allowances@, from, caller, amount)
            is None) ==> if amount_of(state.balances@, from@) < amount.0 {
            r is Err && r->Err_0 == ContractError::InvalidBalance(
                Amount(amount_of(state.balances@, from@) as u128),
            )
        } else {
            r matches Ok(HandlerResult::NewState(s)) && s.wf() && s.ticker == state.ticker && s.name
                == state.name && s.decimals == state.decimals && s.total_supply
                == state.total_supply && s.owner == state.owner && moved(
                state.balances@,
                s.balances@,
                from@,
                to@,
                amount.0 as int,
            ) && (caller@ == from@ ==> s.allowances == state.allowances) && (caller@ != from@
                ==> allowance_spent(
                state.allowances@,
                s.allowances@,
                from@,
                caller@,
                amount.0 as int,
            ))
        },
{
    if amount.0 == 0 {
        return Err(ContractError::AmountMustBeHigherThanZero);
    }
    let mut state = if caller != from {
        match spend_allowance(state, &from, &caller, &amount) {
            Ok(s) => s,
            Err(e) => {
                return Err(e);
            },
        }
    } else {
        state
    };
    let from_balance = amount_at(&state.balances, &from);
    if from_balance.0 < amount.0 {
        return Err(ContractError::InvalidBalance(from_balance));
    }
    move_amount(&mut state.balances, from, to, amount);
    Ok(HandlerResult::NewState(state))
}

/// What `spender` may move of `owner`'s tokens.
pub fn allowance(state: State, owner: Address, spender: Address) -> (r: ActionResult)
    requires
        state.wf(),
    ensures
        r matches Ok(HandlerResult::QueryResponse(QueryResponseMsg::Allowance { allowance: a, ticker, owner: o, spender: p }))
            && a.0 == allowance_of(state.allowances@, owner@, spender@) && ticker == state.ticker
            && o == owner && p == spender,
{
    let allowance = match find_addr(&state.allowances, &owner) {
        Some(i) => {
            proof {
                lemma_lookup_at(state.allowances@, i as int);
            }
            amount_at(&state.allowances[i].1, &spender)
        },
        None => Amount(0),
    };
    Ok(HandlerResult::QueryResponse(QueryResponseMsg::Allowance {
        allowance,
        ticker: state.ticker,
        owner,
        spender,
    }))
}

/// The balance of `target`, zero where it has none.
pub fn balance(state: State, target: &Address) -> (r: ActionResult)
    requires
        state.wf(),
    ensures
        r matches Ok(HandlerResult::QueryResponse(QueryResponseMsg::Balance { balance: b, ticker, target: t }))
            && b.0 == amount_of(state.balances@, target@) && ticker == state.ticker && t == *target,
{
    let balance = amount_at(&state.balances, target);
    Ok(HandlerResult::QueryResponse(QueryResponseMsg::Balance {
        balance,
        ticker: state.ticker,
        target: target.clone(),
    }))
}

pub fn name(state: State) -> (r: ActionResult)
    ensures
        r matches Ok(HandlerResult::QueryResponse(QueryResponseMsg::Name(n))) && n == state.name,
{
    Ok(HandlerResult::QueryResponse(QueryResponseMsg::Name(state.name)))
}

pub fn symbol(state: State) -> (r: ActionResult)
    ensures
        r matches Ok(HandlerResult::QueryResponse(QueryResponseMsg::Symbol(t))) && t == state.ticker,
{
    Ok(HandlerResult::QueryResponse(QueryResponseMsg::Symbol(state.ticker)))
}

pub fn decimals(state: State) -> (r: ActionResult)
    ensures
        r matches Ok(HandlerResult::QueryResponse(QueryResponseMsg::Decimals(d))) && d
            == state.decimals,
{
    Ok(HandlerResult::QueryResponse(QueryResponseMsg::Decimals(state.decimals)))
}

pub fn total_supply(state: State) -> (r: ActionResult)
    ensures
        r matches Ok(HandlerResult::QueryResponse(QueryResponseMsg::TotalSupply(t))) && t
            == state.total_supply,
{
    Ok(HandlerResult::QueryResponse(QueryResponseMsg::TotalSupply(state.total_supply)))
}

} // verus!
