use bundlr_validators::action::HandlerResult;
use bundlr_validators::shared::{Address, Amount};
use bundlr_validators::token::{
    allowance, approve, balance, decimals, name, spend_allowance, symbol, total_supply, transfer,
    transfer_from, ActionResult, ContractError, QueryResponseMsg, State,
};

fn ad(s: &str) -> Address {
    Address(s.to_string())
}

fn token_state() -> State {
    State {
        ticker: "BNDLR".to_string(),
        name: Some("Bundlr".to_string()),
        decimals: 12,
        total_supply: Amount(1000),
        owner: ad("owner"),
        balances: vec![(ad("alice"), Amount(600)), (ad("bob"), Amount(400))],
        allowances: vec![(ad("alice"), vec![(ad("carol"), Amount(100)), (ad("dave"), Amount(20))])],
    }
}

fn after(r: ActionResult) -> State {
    match r {
        Ok(HandlerResult::NewState(s)) => s,
        other => panic!("expected a new state, got {:?}", other),
    }
}

fn balance_in(s: &State, who: &str) -> u128 {
    s.balances.iter().find(|(a, _)| a.0 == who).map(|(_, b)| b.0).unwrap_or(0)
}

fn allowance_in(s: &State, owner: &str, spender: &str) -> Option<u128> {
    s.allowances
        .iter()
        .find(|(o, _)| o.0 == owner)
        .and_then(|(_, m)| m.iter().find(|(p, _)| p.0 == spender).map(|(_, a)| a.0))
}

#[test]
fn token_transfer_moves_and_opens_accounts() {
    let s = after(transfer(token_state(), ad("alice"), ad("erin"), Amount(250)));
    assert_eq!(balance_in(&s, "alice"), 350);
    assert_eq!(balance_in(&s, "erin"), 250);
    assert_eq!(balance_in(&s, "bob"), 400);
}

#[test]
fn token_transfer_refusals() {
    assert_eq!(
        transfer(token_state(), ad("alice"), ad("bob"), Amount(0)),
        Err(ContractError::AmountMustBeHigherThanZero)
    );
    assert_eq!(
        transfer(token_state(), ad("bob"), ad("alice"), Amount(401)),
        Err(ContractError::InvalidBalance(Amount(400)))
    );
    assert_eq!(
        transfer(token_state(), ad("zed"), ad("alice"), Amount(1)),
        Err(ContractError::InvalidBalance(Amount(0)))
    );
}

#[test]
fn token_approve_sets_and_withdraws() {
    let s = after(approve(token_state(), ad("bob"), ad("carol"), Amount(300)));
    assert_eq!(allowance_in(&s, "bob", "carol"), Some(300));
    let s = after(approve(s, ad("bob"), ad("carol"), Amount(0)));
    assert_eq!(allowance_in(&s, "bob", "carol"), None);
    assert!(s.allowances.iter().all(|(o, _)| o.0 != "bob"));
    let s = after(approve(s, ad("alice"), ad("dave"), Amount(0)));
    assert_eq!(s.allowances, vec![(ad("alice"), vec![(ad("carol"), Amount(100))])]);
    assert_eq!(
        approve(token_state(), ad("bob"), ad("carol"), Amount(401)),
        Err(ContractError::InvalidBalance(Amount(400)))
    );
}

#[test]
fn token_spend_allowance_uses_and_cleans_up() {
    let s = spend_allowance(token_state(), &ad("alice"), &ad("carol"), &Amount(40)).ok().unwrap();
    assert_eq!(allowance_in(&s, "alice", "carol"), Some(60));
    let s = spend_allowance(s, &ad("alice"), &ad("dave"), &Amount(20)).ok().unwrap();
    assert_eq!(allowance_in(&s, "alice", "dave"), None);
    let s = spend_allowance(s, &ad("alice"), &ad("carol"), &Amount(60)).ok().unwrap();
    assert!(s.allowances.is_empty());
}

#[test]
fn token_spend_allowance_refusals() {
    let refused = |o: &str, p: &str, a: u128| ContractError::InvalidSpenderAllowance {
        owner: ad(o),
        spender: ad(p),
        amount: Amount(a),
    };
    assert_eq!(
        spend_allowance(token_state(), &ad("alice"), &ad("carol"), &Amount(0)).err(),
        Some(ContractError::AmountMustBeHigherThanZero)
    );
    assert_eq!(
        spend_allowance(token_state(), &ad("bob"), &ad("carol"), &Amount(1)).err(),
        Some(refused("bob", "carol", 1))
    );
    assert_eq!(
        spend_allowance(token_state(), &ad("alice"), &ad("erin"), &Amount(1)).err(),
        Some(refused("alice", "erin", 1))
    );
    assert_eq!(
        spend_allowance(token_state(), &ad("alice"), &ad("dave"), &Amount(21)).err(),
        Some(refused("alice", "dave", 21))
    );
}

#[test]
fn token_transfer_from_spends_allowance() {
    let s = after(transfer_from(token_state(), ad("carol"), ad("alice"), ad("erin"), Amount(70)));
    assert_eq!(balance_in(&s, "alice"), 530);
    assert_eq!(balance_in(&s, "erin"), 70);
    assert_eq!(allowance_in(&s, "alice", "carol"), Some(30));
    let own = after(transfer_from(token_state(), ad("bob"), ad("bob"), ad("alice"), Amount(400)));
    assert_eq!(balance_in(&own, "bob"), 0);
    assert_eq!(balance_in(&own, "alice"), 1000);
    assert_eq!(own.allowances, token_state().allowances);
    assert_eq!(
        transfer_from(token_state(), ad("dave"), ad("alice"), ad("erin"), Amount(21)),
        Err(ContractError::InvalidSpenderAllowance {
            owner: ad("alice"),
            spender: ad("dave"),
            amount: Amount(21)
        })
    );
    assert_eq!(
        transfer_from(token_state(), ad("bob"), ad("bob"), ad("erin"), Amount(401)),
        Err(ContractError::InvalidBalance(Amount(400)))
    );
}

#[test]
fn token_queries() {
    assert_eq!(
        allowance(token_state(), ad("alice"), ad("carol")),
        Ok(HandlerResult::QueryResponse(QueryResponseMsg::Allowance {
            allowance: Amount(100),
            ticker: "BNDLR".to_string(),
            owner: ad("alice"),
            spender: ad("carol")
        }))
    );
    assert_eq!(
        balance(token_state(), &ad("nobody")),
        Ok(HandlerResult::QueryResponse(QueryResponseMsg::Balance {
            balance: Amount(0),
            ticker: "BNDLR".to_string(),
            target: ad("nobody")
        }))
    );
    assert_eq!(
        name(token_state()),
        Ok(HandlerResult::QueryResponse(QueryResponseMsg::Name(Some("Bundlr".to_string()))))
    );
    assert_eq!(
        symbol(token_state()),
        Ok(HandlerResult::QueryResponse(QueryResponseMsg::Symbol("BNDLR".to_string())))
    );
    assert_eq!(decimals(token_state()), Ok(HandlerResult::QueryResponse(QueryResponseMsg::Decimals(12))));
    assert_eq!(
        total_supply(token_state()),
        Ok(HandlerResult::QueryResponse(QueryResponseMsg::TotalSupply(Amount(1000))))
    );
}
