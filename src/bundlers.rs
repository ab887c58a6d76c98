//! The bundlers contract: bundlers stake a fixed amount to join, announce
//! that they leave, and withdraw their stake once a delay has passed.
//! Joining and withdrawing move the stake through the token contract between
//! a check and the change of the state.

use vstd::prelude::*;

use crate::action::HandlerResult;
use crate::shared::{Address, Amount, BlockHeight};

verus! {

/// The bundlers contract's state. A bundler's entry holds the block from
/// which it may withdraw, once it has announced that it leaves.
#[derive(Debug, PartialEq)]
pub struct State {
    pub token: Address,
    pub bundlers: Vec<(Address, Option<BlockHeight>)>,
    pub withdraw_delay: u16,
    pub stake: Amount,
    pub allowed_interactors: Vec<Address>,
}

#[derive(Debug, PartialEq)]
pub enum ContractError {
    AlreadyJoined(Address),
    AlreadyLeaving(Address, BlockHeight),
    AlreadyInteractor(Address),
    Forbidden,
    InvalidBundler(Address),
    InvalidInteractor(Address),
    ParseError(String),
    RuntimeError(String),
    TransferFailed,
    WithdrawBlocked,
}

#[derive(Debug, PartialEq)]
pub enum QueryResponseMsg {
    Token(Address),
    Stake(Amount),
    Bundlers(Vec<(Address, Option<BlockHeight>)>),
    WithdrawDelay(u16),
    AllowedInteractors(Vec<Address>),
}

pub type ActionResult = Result<HandlerResult<State, QueryResponseMsg>, ContractError>;

pub open spec fn is_interactor(s: Seq<Address>, a: Seq<char>) -> bool {
    exists|i: int| 0 <= i < s.len() && #[trigger] s[i]@ == a
}

pub open spec fn is_bundler(s: Seq<(Address, Option<BlockHeight>)>, a: Seq<char>) -> bool {
    exists|i: int| 0 <= i < s.len() && #[trigger] s[i].0@ == a
}

/// The entry of bundler `a`.
pub open spec fn entry_of(s: Seq<(Address, Option<BlockHeight>)>, a: Seq<char>) -> Option<BlockHeight> {
    s[choose|i: int| 0 <= i < s.len() && #[trigger] s[i].0@ == a].1
}

impl State {
    /// One entry per bundler and per interactor.
    pub open spec fn wf(&self) -> bool {
        &&& forall|i: int, j: int|
            0 <= i < j < self.bundlers@.len() ==> #[trigger] self.bundlers@[i].0@
                != #[trigger] self.bundlers@[j].0@
        &&& forall|i: int, j: int|
            0 <= i < j < self.allowed_interactors@.len() ==> #[trigger] self.allowed_interactors@[i]@
                != #[trigger] self.allowed_interactors@[j]@
    }
}

proof fn lemma_entry_at(s: Seq<(Address, Option<BlockHeight>)>, i: int)
    requires
        forall|x: int, y: int| 0 <= x < y < s.len() ==> #[trigger] s[x].0@ != #[trigger] s[y].0@,
        0 <= i < s.len(),
    ensures
        is_bundler(s, s[i].0@),
        entry_of(s, s[i].0@) == s[i].1,
{
    assert(is_bundler(s, s[i].0@));
    let j = choose|j: int| 0 <= j < s.len() && #[trigger] s[j].0@ == s[i].0@;
    if j < i {
        assert(s[j].0@ != s[i].0@);
    } else if j > i {
        assert(s[i].0@ != s[j].0@);
    }
}

fn find_interactor(s: &Vec<Address>, a: &Address) -> (r: Option<usize>)
    ensures
        r is None <==> !is_interactor(s@, a@),
        r matches Some(i) ==> i < s@.len() && s@[i as int]@ == a@,
{
    let mut i: usize = 0;
    while i < s.len()
        invariant
            i <= s@.len(),
            forall|j: int| 0 <= j < i ==> #[trigger] s@[j]@ != a@,
        decreases s@.len() - i,
    {
        if s[i] == *a {
            return Some(i);
        }
        i += 1;
    }
    None
}

fn find_bundler(s: &Vec<(Address, Option<BlockHeight>)>, a: &Address) -> (r: Option<usize>)
    ensures
        r is None <==> !is_bundler(s@, a@),
        r matches Some(i) ==> i < s@.len() && s@[i as int].0@ == a@,
{
    let mut i: usize = 0;
    while i < s.len()
        invariant
            i <= s@.len(),
            forall|j: int| 0 <= j < i ==> #[trigger] s@[j].0@ != a@,
        decreases s@.len() - i,
    {
        if s[i].0 == *a {
            return Some(i);
        }
        i += 1;
    }
    None
}

/// `b` is `a` with, at most, other bundlers.
pub open spec fn same_but_bundlers(a: State, b: State) -> bool {
    &&& b.token == a.token
    &&& b.withdraw_delay == a.withdraw_delay
    &&& b.stake == a.stake
    &&& b.allowed_interactors == a.allowed_interactors
}

/// `caller` may manage the interactors: it is the owner or an interactor.
pub open spec fn may_manage(state: State, caller: Seq<char>, owner: Seq<char>) -> bool {
    caller == owner || is_interactor(state.allowed_interactors@, caller)
}

/// Allows `interactor` to call the contract.
pub fn add(mut state: State, caller: Address, owner: Address, interactor: Address) -> (r: ActionResult)
    requires
        state.wf(),
    ensures
        !may_manage(state, caller@, owner@) ==> r is Err && r->Err_0 == ContractError::Forbidden,
        may_manage(state, caller@, owner@) && is_interactor(state.allowed_interactors@, interactor@)
            ==> r is Err && r->Err_0 == ContractError::AlreadyInteractor(interactor),
        may_manage(state, caller@, owner@) && !is_interactor(state.allowed_interactors@, interactor@)
            ==> (r matches Ok(HandlerResult::NewState(s)) && s.wf() && s.token == state.token
            && s.bundlers == state.bundlers && s.withdraw_delay == state.withdraw_delay && s.stake
            == state.stake && s.allowed_interactors@ == state.allowed_interactors@.push(interactor)),
{
    let ghost old_s = state.allowed_interactors@;
    if caller != owner && find_interactor(&state.allowed_interactors, &caller).is_none() {
        return Err(ContractError::Forbidden);
    }
    if find_interactor(&state.allowed_interactors, &interactor).is_some() {
        return Err(ContractError::AlreadyInteractor(interactor));
    }
    state.allowed_interactors.push(interactor);
    proof {
        let n = state.allowed_interactors@;
        assert forall|i: int, j: int| 0 <= i < j < n.len() implies #[trigger] n[i]@ != #[trigger] n[j]@ by {
            assert(n[i] == old_s[i]);
            if j < old_s.len() {
                assert(n[j] == old_s[j]);
            }
        }
    }
    Ok(HandlerResult::NewState(state))
}

/// Withdraws `interactor`'s permission to call the contract.
pub fn remove(mut state: State, caller: Address, owner: Address, interactor: Address) -> (r: ActionResult)
    requires
        state.wf(),
    ensures
        !may_manage(state, caller@, owner@) ==> r is Err && r->Err_0 == ContractError::Forbidden,
        may_manage(state, caller@, owner@) && !is_interactor(state.allowed_interactors@, interactor@)
            ==> r is Err && r->Err_0 == ContractError::InvalidInteractor(interactor),
        may_manage(state, caller@, owner@) && is_interactor(state.allowed_interactors@, interactor@)
            ==> (r matches Ok(HandlerResult::NewState(s)) && s.wf() && s.token == state.token
            && s.bundlers == state.bundlers && s.withdraw_delay == state.withdraw_delay && s.stake
            == state.stake && exists|i: int|
                0 <= i < state.allowed_interactors@.len() && #[trigger] state.allowed_interactors@[i]@
                    == interactor@ && s.allowed_interactors@ == state.allowed_interactors@.remove(i)),
{
    let ghost old_s = state.allowed_interactors@;
    if caller != owner && find_interactor(&state.allowed_interactors, &caller).is_none() {
        return Err(ContractError::Forbidden);
    }
    let i = match find_interactor(&state.allowed_interactors, &interactor) {
        Some(i) => i,
        None => {
            return Err(ContractError::InvalidInteractor(interactor));
        },
    };
    state.allowed_interactors.remove(i);
    proof {
        let n = state.allowed_interactors@;
        assert forall|a: int, b: int| 0 <= a < b < n.len() implies #[trigger] n[a]@ != #[trigger] n[b]@ by {
            let oa = if a < i { a } else { a + 1 };
            let ob = if b < i { b } else { b + 1 };
            assert(n[a] == old_s[oa] && n[b] == old_s[ob]);
        }
    }
    Ok(HandlerResult::NewState(state))
}

/// Why `caller` may not join, if it may not.
pub open spec fn join_refusal(state: State, caller: Address) -> Option<ContractError> {
    if !is_interactor(state.allowed_interactors@, caller@) {
        Some(ContractError::Forbidden)
    } else if is_bundler(state.bundlers@, caller@) {
        Some(ContractError::AlreadyJoined(caller))
    } else {
        None
    }
}

/// Decides whether `caller` may join, before the stake is transferred to
/// the contract; on success gives the stake to transfer.
pub fn join_check(state: &State, caller: &Address) -> (r: Result<Amount, ContractError>)
    ensures
        match join_refusal(*state, *caller) {
            Some(e) => r is Err && r->Err_0 == e,
            None => r == Ok::<Amount, ContractError>(state.stake),
        },
{
    if find_interactor(&state.allowed_interactors, caller).is_none() {
        return Err(ContractError::Forbidden);
    }
    if find_bundler(&state.bundlers, caller).is_some() {
        return Err(ContractError::AlreadyJoined(caller.clone()));
    }
    Ok(state.stake)
}

/// Completes a join once the stake transfer is done: on success the caller
/// becomes a bundler that has not announced leaving.
pub fn join(mut state: State, caller: Address, transfer_ok: bool) -> (r: ActionResult)
    requires
        state.wf(),
    ensures
        match join_refusal(state, caller) {
            Some(e) => r is Err && r->Err_0 == e,
            None => if !transfer_ok {
                r is Err && r->Err_0 == ContractError::TransferFailed
            } else {
                r matches Ok(HandlerResult::NewState(s)) && s.wf() && same_but_bundlers(state, s)
                    && s.bundlers@ == state.bundlers@.push((caller, None))
            },
        },
{
    let ghost old_b = state.bundlers@;
    if let Err(e) = join_check(&state, &caller) {
        return Err(e);
    }
    if !transfer_ok {
        return Err(ContractError::TransferFailed);
    }
    state.bundlers.push((caller, None));
    proof {
        let n = state.bundlers@;
        assert forall|i: int, j: int| 0 <= i < j < n.len() implies #[trigger] n[i].0@ != #[trigger] n[j].0@ by {
            assert(n[i] == old_b[i]);
            if j < old_b.len() {
                assert(n[j] == old_b[j]);
            }
        }
    }
    Ok(HandlerResult::NewState(state))
}

/// Announces that `caller` leaves: it may withdraw its stake
/// `withdraw_delay` blocks after `current_block_height`.
pub fn leave(mut state: State, caller: Address, current_block_height: u128) -> (r: ActionResult)
    requires
        state.wf(),
        current_block_height + state.withdraw_delay <= u128::MAX,
    ensures
        !is_bundler(state.bundlers@, caller@) ==> r is Err && r->Err_0
            == ContractError::InvalidBundler(caller),
        is_bundler(state.bundlers@, caller@) ==> match entry_of(state.bundlers@, caller@) {
            Some(b) => r is Err && r->Err_0 == ContractError::AlreadyLeaving(caller, b),
            None => r matches Ok(HandlerResult::NewState(s)) && s.wf() && same_but_bundlers(state, s)
                && exists|i: int|
                0 <= i < state.bundlers@.len() && #[trigger] state.bundlers@[i].0@ == caller@
                    && s.bundlers@ == state.bundlers@.update(
                    i,
                    (
                        state.bundlers@[i].0,
                        Some(BlockHeight((current_block_height + state.withdraw_delay) as u128)),
                    ),
                ),
        },
{
    let ghost old_b = state.bundlers@;
    let i = match find_bundler(&state.bundlers, &caller) {
        Some(i) => i,
        None => {
            return Err(ContractError::InvalidBundler(caller));
        },
    };
    proof {
        lemma_entry_at(old_b, i as int);
    }
    if let Some(block) = state.bundlers[i].1 {
        return Err(ContractError::AlreadyLeaving(caller, block));
    }
    let key = state.bundlers[i].0.clone();
    let until = BlockHeight(current_block_height + state.withdraw_delay as u128);
    state.bundlers[i] = (key, Some(until));
    proof {
        let n = state.bundlers@;
        assert forall|a: int, b: int| 0 <= a < b < n.len() implies #[trigger] n[a].0@ != #[trigger] n[b].0@ by {
            assert(n[a].0 == old_b[a].0 && n[b].0 == old_b[b].0);
        }
    }
    Ok(HandlerResult::NewState(state))
}

/// Why `caller` may not withdraw at block `current`, if it may not: it is
/// no bundler, has not announced leaving, or its delay has not passed.
pub open spec fn withdraw_refusal(state: State, caller: Address, current: u128) -> Option<ContractError> {
    if !is_bundler(state.bundlers@, caller@) {
        Some(ContractError::InvalidBundler(caller))
    } else {
        match entry_of(state.bundlers@, caller@) {
            None => Some(ContractError::WithdrawBlocked),
            Some(b) => if b.0 > current {
                Some(ContractError::WithdrawBlocked)
            } else {
                None
            },
        }
    }
}

/// Decides whether `caller` may withdraw at block `current_block_height`,
/// before its stake is transferred back; on success gives that stake.
pub fn withdraw_check(state: &State, caller: &Address, current_block_height: u128) -> (r: Result<
    Amount,
    ContractError,
>)
    requires
        state.wf(),
    ensures
        match withdraw_refusal(*state, *caller, current_block_height) {
            Some(e) => r is Err && r->Err_0 == e,
            None => r == Ok::<Amount, ContractError>(state.stake),
        },
{
    let i = match find_bundler(&state.bundlers, caller) {
        Some(i) => i,
        None => {
            return Err(ContractError::InvalidBundler(caller.clone()));
        },
    };
    proof {
        lemma_entry_at(state.bundlers@, i as int);
    }
    match state.bundlers[i].1 {
        None => Err(ContractError::WithdrawBlocked),
        Some(block) => if block.0 > current_block_height {
            Err(ContractError::WithdrawBlocked)
        } else {
            Ok(state.stake)
        },
    }
}

/// Completes a withdrawal once the stake is transferred back: on success
/// the caller's entry is gone.
pub fn withdraw(mut state: State, caller: Address, current_block_height: u128, transfer_ok: bool) -> (r:
    ActionResult)
    requires
        state.wf(),
    ensures
        match withdraw_refusal(state, caller, current_block_height) {
            Some(e) => r is Err && r->Err_0 == e,
            None => if !transfer_ok {
                r is Err && r->Err_0 == ContractError::TransferFailed
            } else {
                r matches Ok(HandlerResult::NewState(s)) && s.wf() && same_but_bundlers(state, s)
                    && exists|i: int|
                    0 <= i < state.bundlers@.len() && #[trigger] state.bundlers@[i].0@ == caller@
                        && s.bundlers@ == state.bundlers@.remove(i)
            },
        },
{
    let ghost old_b = state.bundlers@;
    if let Err(e) = withdraw_check(&state, &caller, current_block_height) {
        return Err(e);
    }
    if !transfer_ok {
        return Err(ContractError::TransferFailed);
    }
    let i = find_bundler(&state.bundlers, &caller).unwrap();
    state.bundlers.remove(i);
    proof {
        let n = state.bundlers@;
        assert forall|a: int, b: int| 0 <= a < b < n.len() implies #[trigger] n[a].0@ != #[trigger] n[b].0@ by {
            let oa = if a < i { a } else { a + 1 };
            let ob = if b < i { b } else { b + 1 };
            assert(n[a] == old_b[oa] && n[b] == old_b[ob]);
        }
    }
    Ok(HandlerResult::NewState(state))
}

/// The bundlers and their withdrawal blocks.
pub fn bunders(state: State) -> (r: ActionResult)
    ensures
        r matches Ok(HandlerResult::QueryResponse(QueryResponseMsg::Bundlers(b))) && b == state.bundlers,
{
    Ok(HandlerResult::QueryResponse(QueryResponseMsg::Bundlers(state.bundlers)))
}

/// The number of blocks between leaving and withdrawing.
pub fn withdraw_delay(state: State) -> (r: ActionResult)
    ensures
        r matches Ok(HandlerResult::QueryResponse(QueryResponseMsg::WithdrawDelay(d))) && d
            == state.withdraw_delay,
{
    Ok(HandlerResult::QueryResponse(QueryResponseMsg::WithdrawDelay(state.withdraw_delay)))
}

/// The stake a bundler puts up.
pub fn stake(state: State) -> (r: ActionResult)
    ensures
        r matches Ok(HandlerResult::QueryResponse(QueryResponseMsg::Stake(s))) && s == state.stake,
{
    Ok(HandlerResult::QueryResponse(QueryResponseMsg::Stake(state.stake)))
}

/// The token in which stakes are held.
pub fn token(state: State) -> (r: ActionResult)
    ensures
        r matches Ok(HandlerResult::QueryResponse(QueryResponseMsg::Token(t))) && t == state.token,
{
    Ok(HandlerResult::QueryResponse(QueryResponseMsg::Token(state.token)))
}

/// The addresses allowed to call the contract.
pub fn allowed_interactors(state: State) -> (r: ActionResult)
    ensures
        r matches Ok(HandlerResult::QueryResponse(QueryResponseMsg::AllowedInteractors(a))) && a
            == state.allowed_interactors,
{
    Ok(HandlerResult::QueryResponse(QueryResponseMsg::AllowedInteractors(state.allowed_interactors)))
}

} // verus!
