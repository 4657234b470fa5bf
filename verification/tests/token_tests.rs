use simetrics_api::dec::Dec;
use simetrics_api::store::{MemoryStore, Resource};
use simetrics_api::token;
use simetrics_api::token::{build_token, removed_outcome, TokenInput, Unlock};
use simetrics_api::Exception;

#[test]
fn test_create_token_fills_defaults() {
    let mut store = MemoryStore::new();
    let mut input = TokenInput::empty();
    input.initial_supply_percentage = Some(Dec::new(50, 0));
    let created = match token::create(&mut store, input, 3600) {
        Ok(t) => t,
        Err(_) => panic!("expected the token to be created"),
    };
    assert_eq!(created.name, "Token");
    assert_eq!(created.symbol, "TKN");
    assert_eq!(created.total_supply, Dec::new(1000000, 0));
    assert_eq!(created.current_supply, Dec::new(0, 0));
    assert_eq!(created.initial_supply_percentage, Dec::new(50, 0));
    assert_eq!(created.inflation_rate, None);
    assert_eq!(created.burn_rate, None);
    assert_eq!(created.initial_price, Dec::new(1, 0));
    assert_eq!(created.airdrop_percentage, None);
    assert!(created.unlock_schedule.is_none());
    assert!(store.has(created.id));
}

#[test]
fn test_create_token_overrides_defaults() {
    let mut store = MemoryStore::new();
    let mut input = TokenInput::empty();
    input.name = Some(String::from("Example"));
    input.symbol = Some(String::from("EXM"));
    input.total_supply = Some(Dec::new(5000, 0));
    input.inflation_rate = Some(Dec::new(25, 1));
    let created = token::create(&mut store, input, 60).unwrap_or_else(|_| panic!("create failed"));
    assert_eq!(created.name, "Example");
    assert_eq!(created.symbol, "EXM");
    assert_eq!(created.total_supply, Dec::new(5000, 0));
    assert_eq!(created.inflation_rate, Some(Dec::new(25, 1)));
}

#[test]
fn test_create_token_zero_supply_percentage_rejected() {
    let mut store = MemoryStore::new();
    let mut input = TokenInput::empty();
    input.initial_supply_percentage = Some(Dec::new(0, 0));
    match token::create(&mut store, input, 3600) {
        Err(Exception::ValidationFailed(m)) => assert_eq!(
            m,
            "Initial supply percentage must be more than 0 and less than or equal to 100."
        ),
        _ => panic!("expected a validation failure"),
    }
}

#[test]
fn test_create_then_get_returns_equal_token() {
    let mut store = MemoryStore::new();
    let mut input = TokenInput::empty();
    input.name = Some(String::from("Readable"));
    let created = token::create(&mut store, input, 10).unwrap_or_else(|_| panic!("create failed"));
    match token::get(&store, created.id) {
        Ok(found) => assert_eq!(found, &created),
        Err(_) => panic!("expected the token to be found"),
    }
}

#[test]
fn test_get_token_not_found() {
    let store = MemoryStore::new();
    match token::get(&store, 0x0123456789abcdef0123456789abcdef) {
        Err(Exception::TokenNotFound) => {},
        _ => panic!("expected TokenNotFound"),
    }
}

#[test]
fn test_get_wrong_kind_is_internal_error() {
    let mut store = MemoryStore::new();
    store.set(7, Resource::Simulation(String::from("{}")), None);
    match token::get(&store, 7) {
        Err(Exception::InternalError) => {},
        _ => panic!("expected InternalError for an entry of the wrong kind"),
    }
}

#[test]
fn test_delete_token() {
    let mut store = MemoryStore::new();
    let created =
        token::create(&mut store, TokenInput::empty(), 30).unwrap_or_else(|_| panic!("create failed"));
    assert!(token::delete(&mut store, created.id).is_ok());
    match token::get(&store, created.id) {
        Err(Exception::TokenNotFound) => {},
        _ => panic!("expected the token to be gone"),
    }
}

#[test]
fn test_delete_missing_twice_same_outcome() {
    let mut store = MemoryStore::new();
    let id: u128 = 42;
    match token::delete(&mut store, id) {
        Err(Exception::TokenNotFound) => {},
        _ => panic!("expected TokenNotFound on the first delete"),
    }
    match token::delete(&mut store, id) {
        Err(Exception::TokenNotFound) => {},
        _ => panic!("expected TokenNotFound on the second delete"),
    }
}

#[test]
fn test_delete_existing_succeeds_exactly_once() {
    let mut store = MemoryStore::new();
    let created =
        token::create(&mut store, TokenInput::empty(), 30).unwrap_or_else(|_| panic!("create failed"));
    let first = token::delete(&mut store, created.id);
    let second = token::delete(&mut store, created.id);
    assert!(first.is_ok());
    match second {
        Err(Exception::TokenNotFound) => {},
        _ => panic!("expected the second delete to find nothing"),
    }
}

#[test]
fn test_build_token_keeps_unlock_schedule() {
    let mut input = TokenInput::empty();
    input.unlock_schedule = Some(vec![
        Unlock { date: 1735689600, amount: Dec::new(1000, 0) },
        Unlock { date: 1767225600, amount: Dec::new(2000, 0) },
    ]);
    let t = build_token(input, 9);
    assert_eq!(t.id, 9);
    let schedule = t.unlock_schedule.unwrap_or_else(|| panic!("schedule kept"));
    assert_eq!(schedule.len(), 2);
    assert_eq!(schedule[0].date, 1735689600);
    assert_eq!(schedule[1].amount, Dec::new(2000, 0));
}

#[test]
fn test_duplicate_equals_original() {
    let mut input = TokenInput::empty();
    input.name = Some(String::from("Twin"));
    let t = build_token(input, 5);
    let copy = t.duplicate();
    assert_eq!(copy, t);
}

#[test]
fn test_removed_outcome() {
    assert!(removed_outcome(1).is_ok());
    assert!(removed_outcome(3).is_ok());
    match removed_outcome(0) {
        Err(Exception::TokenNotFound) => {},
        _ => panic!("expected TokenNotFound when nothing was removed"),
    }
}
