use bundlr_validators::bundler_listing::{
    add_bundler, contains_bundler, AddBundlerInput, Bundler, Inner, State,
};
use bundlr_validators::action::HandlerResult;
use bundlr_validators::bundlers;
use bundlr_validators::shared::{Address, Amount, BlockHeight};
use bundlr_validators::delegators::{delegate, DelegateInput, Delegation};
use bundlr_validators::delegators;
use bundlr_validators::ledger;

#[test]
fn lib_it_works() {
    let result = 2 + 2;
    assert_eq!(result, 4);
}

#[test]
fn it_works() {
    let result = 2 + 2;
    assert_eq!(result, 4);
}

#[test]
fn add_bundler_registers_the_caller() {
    let inner = Inner { bundlers: vec![], foreign_calls: vec![] };
    let input = AddBundlerInput { url: "https://b.example.com".to_string(), amount: 500 };
    let State::New(inner) = add_bundler(inner, input, "b1".to_string());
    assert_eq!(inner.bundlers.len(), 1);
    assert_eq!(inner.bundlers[0].0, "b1");
    assert_eq!(
        inner.bundlers[0].1,
        Bundler { url: "https://b.example.com".to_string(), amount: 500 }
    );
    assert!(contains_bundler(&inner.bundlers, &"b1".to_string()));
    assert!(!contains_bundler(&inner.bundlers, &"b2".to_string()));
}

fn sample_ledger() -> ledger::Inner {
    ledger::Inner {
        owner: "owner".to_string(),
        total_supply: 1000,
        decimals: 2,
        balances: vec![("alice".to_string(), 700), ("bob".to_string(), 300)],
        allowances: vec![("bob".to_string(), vec![("carol".to_string(), 50)])],
    }
}

fn balance_of(inner: &ledger::Inner, who: &str) -> u64 {
    match ledger::balance(inner.clone(), ledger::BalanceInput { target: who.to_string() }) {
        ledger::State::Balance(b) => b,
        _ => panic!("expected a balance"),
    }
}

fn new_ledger(s: ledger::State) -> ledger::Inner {
    match s {
        ledger::State::New(inner) => inner,
        _ => panic!("expected a ledger"),
    }
}

#[test]
fn ledger_transfer_moves_balance() {
    let input = ledger::TransferInput { amount: 200, target: "bob".to_string() };
    let inner = new_ledger(ledger::transfer(sample_ledger(), input, "alice".to_string()));
    assert_eq!(balance_of(&inner, "alice"), 500);
    assert_eq!(balance_of(&inner, "bob"), 500);
}

#[test]
fn ledger_transfer_opens_target_account() {
    let input = ledger::TransferInput { amount: 700, target: "dave".to_string() };
    let inner = new_ledger(ledger::transfer(sample_ledger(), input, "alice".to_string()));
    assert_eq!(balance_of(&inner, "alice"), 0);
    assert_eq!(balance_of(&inner, "dave"), 700);
    assert_eq!(inner.balances.len(), 3);
}

#[test]
fn ledger_transfer_to_self_keeps_balance() {
    let input = ledger::TransferInput { amount: 100, target: "bob".to_string() };
    let inner = new_ledger(ledger::transfer(sample_ledger(), input, "bob".to_string()));
    assert_eq!(balance_of(&inner, "bob"), 300);
}

#[test]
fn ledger_balance_of_unknown_account_is_zero() {
    assert_eq!(balance_of(&sample_ledger(), "nobody"), 0);
    assert_eq!(balance_of(&sample_ledger(), "alice"), 700);
}

#[test]
fn ledger_approve_sets_allowance_of_known_owner() {
    let input = ledger::ApproveInput { amount: 80, target: "erin".to_string() };
    let inner = new_ledger(ledger::approve(sample_ledger(), input, "bob".to_string()));
    assert_eq!(
        inner.allowances,
        vec![("bob".to_string(), vec![("carol".to_string(), 50), ("erin".to_string(), 80)])]
    );
    let input = ledger::ApproveInput { amount: 10, target: "carol".to_string() };
    let inner = new_ledger(ledger::approve(inner, input, "bob".to_string()));
    assert_eq!(inner.allowances[0].1[0], ("carol".to_string(), 10));
}

#[test]
fn ledger_approve_by_new_owner_records_empty_allowances() {
    let input = ledger::ApproveInput { amount: 80, target: "erin".to_string() };
    let inner = new_ledger(ledger::approve(sample_ledger(), input, "alice".to_string()));
    assert_eq!(inner.allowances.len(), 2);
    assert_eq!(inner.allowances[1], ("alice".to_string(), vec![]));
}

fn a(s: &str) -> Address {
    Address(s.to_string())
}

fn registry() -> bundlers::State {
    bundlers::State {
        token: a("token"),
        bundlers: vec![(a("b1"), None), (a("b2"), Some(BlockHeight(500)))],
        withdraw_delay: 100,
        stake: Amount(1000),
        allowed_interactors: vec![a("i1"), a("b3")],
    }
}

fn registry_of(r: bundlers::ActionResult) -> bundlers::State {
    match r {
        Ok(HandlerResult::NewState(s)) => s,
        other => panic!("expected a new state, got {:?}", other),
    }
}

#[test]
fn bundlers_interactors_are_managed_by_owner_or_interactors() {
    let s = registry_of(bundlers::add(registry(), a("owner"), a("owner"), a("i2")));
    assert_eq!(s.allowed_interactors, vec![a("i1"), a("b3"), a("i2")]);
    let s = registry_of(bundlers::remove(s, a("i1"), a("owner"), a("b3")));
    assert_eq!(s.allowed_interactors, vec![a("i1"), a("i2")]);
    assert_eq!(
        bundlers::add(registry(), a("x"), a("owner"), a("i2")),
        Err(bundlers::ContractError::Forbidden)
    );
    assert_eq!(
        bundlers::add(registry(), a("i1"), a("owner"), a("b3")),
        Err(bundlers::ContractError::AlreadyInteractor(a("b3")))
    );
    assert_eq!(
        bundlers::remove(registry(), a("owner"), a("owner"), a("zz")),
        Err(bundlers::ContractError::InvalidInteractor(a("zz")))
    );
}

#[test]
fn bundlers_join_leave_withdraw() {
    assert_eq!(bundlers::join_check(&registry(), &a("b3")), Ok(Amount(1000)));
    assert_eq!(bundlers::join_check(&registry(), &a("b9")), Err(bundlers::ContractError::Forbidden));
    assert_eq!(bundlers::join(registry(), a("b3"), false), Err(bundlers::ContractError::TransferFailed));
    let s = registry_of(bundlers::join(registry(), a("b3"), true));
    assert_eq!(s.bundlers[2], (a("b3"), None));

    let s = registry_of(bundlers::leave(s, a("b3"), 1200));
    assert_eq!(s.bundlers[2], (a("b3"), Some(BlockHeight(1300))));
    assert_eq!(
        bundlers::leave(registry(), a("b2"), 10),
        Err(bundlers::ContractError::AlreadyLeaving(a("b2"), BlockHeight(500)))
    );
    assert_eq!(
        bundlers::leave(registry(), a("b9"), 10),
        Err(bundlers::ContractError::InvalidBundler(a("b9")))
    );

    assert_eq!(bundlers::withdraw_check(&s, &a("b3"), 1299), Err(bundlers::ContractError::WithdrawBlocked));
    assert_eq!(bundlers::withdraw_check(&s, &a("b1"), 5000), Err(bundlers::ContractError::WithdrawBlocked));
    assert_eq!(bundlers::withdraw_check(&s, &a("b3"), 1300), Ok(Amount(1000)));
    let s = registry_of(bundlers::withdraw(s, a("b3"), 1300, true));
    assert_eq!(s.bundlers, vec![(a("b1"), None), (a("b2"), Some(BlockHeight(500)))]);
}

fn delegation_ledger() -> delegators::Inner {
    delegators::Inner {
        bundler_contract: "bundlers".to_string(),
        delegations: vec![(
            "d1".to_string(),
            vec![Delegation { bundler: "b1".to_string(), amount: 10 }],
        )],
        delegation_totals: vec![("b1".to_string(), 10)],
    }
}

fn delegated_ledger(s: delegators::State) -> delegators::Inner {
    match s {
        delegators::State::New(inner) => inner,
        _ => panic!("expected a ledger"),
    }
}

#[test]
fn first_delegation_counts_towards_total() {
    let known = vec!["b1".to_string(), "b2".to_string()];
    let input = DelegateInput { bundler: "b1".to_string(), amount: 5 };
    let inner = delegated_ledger(delegate(delegation_ledger(), input, "d2".to_string(), &known));
    assert_eq!(inner.delegation_totals, vec![("b1".to_string(), 15)]);
    assert_eq!(
        inner.delegations[1],
        ("d2".to_string(), vec![Delegation { bundler: "b1".to_string(), amount: 5 }])
    );
    let input = DelegateInput { bundler: "b2".to_string(), amount: 7 };
    let inner = delegated_ledger(delegate(inner, input, "d3".to_string(), &known));
    assert_eq!(inner.delegation_totals[1], ("b2".to_string(), 7));
}

#[test]
fn later_delegations_change_the_delegator_record_only() {
    let known = vec!["b1".to_string(), "b2".to_string()];
    let input = DelegateInput { bundler: "b1".to_string(), amount: 5 };
    let inner = delegated_ledger(delegate(delegation_ledger(), input, "d1".to_string(), &known));
    assert_eq!(inner.delegations[0].1, vec![Delegation { bundler: "b1".to_string(), amount: 15 }]);
    assert_eq!(inner.delegation_totals, vec![("b1".to_string(), 10)]);
    let input = DelegateInput { bundler: "b2".to_string(), amount: 3 };
    let inner = delegated_ledger(delegate(inner, input, "d1".to_string(), &known));
    assert_eq!(inner.delegations[0].1[1], Delegation { bundler: "b2".to_string(), amount: 3 });
    assert_eq!(inner.delegation_totals, vec![("b1".to_string(), 10)]);
}
