use rust_decimal::Decimal;
use simetrics_api::dec::Dec;
use simetrics_api::simulation::{self, Interval, SimOptions, SimulationCreated, SimulationInput};
use simetrics_api::store::MemoryStore;
use simetrics_api::token;
use simetrics_api::token::TokenInput;
use simetrics_api::Exception;

fn small_options() -> SimOptions {
    SimOptions {
        duration: 2,
        total_users: 10,
        market_volatility: Dec::new(5, 1),
        decimal_precision: 4,
        interval_type: Interval::Daily,
        transaction_fee_percentage: None,
    }
}

fn input_with_token(store: &mut MemoryStore) -> (SimulationInput, u128) {
    let created =
        token::create(store, TokenInput::empty(), 3600).unwrap_or_else(|_| panic!("create failed"));
    let token_id = created.id;
    let input = SimulationInput {
        name: Some(String::from("Simulation")),
        description: Some(String::from("An initial run")),
        token: Some(created),
        options: Some(small_options()),
    };
    (input, token_id)
}

/// Run the real engine for a checked request, the way the application shell
/// does between `check` and `create`.
fn run_engine(input: &SimulationInput) -> Option<SimulationCreated> {
    let t = input.token.as_ref()?;
    let o = input.options.as_ref()?;
    let engine_token = tokenomics_simulator::Token {
        id: uuid::Uuid::from_u128(t.id),
        name: t.name.clone(),
        symbol: t.symbol.clone(),
        total_supply: Decimal::from_i128_with_scale(t.total_supply.mantissa, t.total_supply.scale),
        current_supply: Decimal::from_i128_with_scale(
            t.current_supply.mantissa,
            t.current_supply.scale,
        ),
        initial_supply_percentage: Decimal::from_i128_with_scale(
            t.initial_supply_percentage.mantissa,
            t.initial_supply_percentage.scale,
        ),
        inflation_rate: None,
        burn_rate: None,
        initial_price: Decimal::from_i128_with_scale(
            t.initial_price.mantissa,
            t.initial_price.scale,
        ),
        airdrop_percentage: None,
        unlock_schedule: None,
    };
    let engine_options = tokenomics_simulator::SimulationOptions {
        duration: o.duration,
        total_users: o.total_users,
        market_volatility: Decimal::from_i128_with_scale(
            o.market_volatility.mantissa,
            o.market_volatility.scale,
        ),
        decimal_precision: o.decimal_precision,
        interval_type: tokenomics_simulator::SimulationInterval::Daily,
        transaction_fee_percentage: None,
        adoption_rate: None,
        valuation_model: None,
    };
    let builder = tokenomics_simulator::SimulationBuilder {
        name: input.name.clone(),
        token: Some(engine_token),
        description: input.description.clone(),
        options: Some(engine_options),
    };
    let mut sim = builder.build().ok()?;
    sim.run().ok()?;
    let body = serde_json::to_string(&sim).ok()?;
    Some(SimulationCreated { id: sim.id.as_u128(), body })
}

#[test]
fn test_create_simulation_runs_engine() {
    let mut store = MemoryStore::new();
    let (input, _) = input_with_token(&mut store);
    assert!(simulation::check(&input).is_ok());
    let outcome = run_engine(&input);
    assert!(outcome.is_some());
    let created = match simulation::create(&mut store, &input, outcome) {
        Ok(c) => c,
        Err(_) => panic!("expected the simulation to be created"),
    };
    assert!(store.has(created.id));
    assert!(created.body.starts_with('{'));
    assert!(created.body.contains("\"report\""));
}

#[test]
fn test_create_simulation_engine_failure_is_internal_error() {
    let mut store = MemoryStore::new();
    let (input, _) = input_with_token(&mut store);
    assert!(simulation::check(&input).is_ok());
    match simulation::create(&mut store, &input, None) {
        Err(Exception::InternalError) => {},
        _ => panic!("expected InternalError for a failed engine run"),
    }
}

#[test]
fn test_create_simulation_rejects_before_engine() {
    let mut store = MemoryStore::new();
    let (mut input, _) = input_with_token(&mut store);
    if let Some(token) = input.token.as_mut() {
        token.airdrop_percentage = Some(Dec::new(500, 0));
    }
    let outcome = Some(SimulationCreated { id: 9, body: String::from("{}") });
    match simulation::create(&mut store, &input, outcome) {
        Err(Exception::ValidationFailed(m)) => {
            assert_eq!(m, "Airdrop percentage must be more 0 and less than or equal to 100.")
        },
        _ => panic!("expected a validation failure"),
    }
    assert!(!store.has(9));
}

#[test]
fn test_check_missing_token() {
    let input = SimulationInput {
        name: Some(String::from("Simulation")),
        description: None,
        token: None,
        options: None,
    };
    match simulation::check(&input) {
        Err(Exception::TokenNotFound) => {},
        _ => panic!("expected TokenNotFound"),
    }
}

#[test]
fn test_check_missing_name() {
    let mut store = MemoryStore::new();
    let (mut input, _) = input_with_token(&mut store);
    input.name = None;
    match simulation::check(&input) {
        Err(Exception::InvalidInput(m)) => assert_eq!(m, "Missing required field: name."),
        _ => panic!("expected InvalidInput for the missing name"),
    }
}

#[test]
fn test_check_invalid_options() {
    let mut store = MemoryStore::new();
    let (mut input, _) = input_with_token(&mut store);
    let mut options = small_options();
    options.total_users = 0;
    input.options = Some(options);
    match simulation::check(&input) {
        Err(Exception::ValidationFailed(m)) => {
            assert_eq!(m, "Total users must be more than 0 and less than or equal to 100000.")
        },
        _ => panic!("expected a validation failure"),
    }
}

#[test]
fn test_check_without_options_uses_no_option_rules() {
    let mut store = MemoryStore::new();
    let (mut input, _) = input_with_token(&mut store);
    input.options = None;
    assert!(simulation::check(&input).is_ok());
}

#[test]
fn test_simulation_get_requires_owning_token() {
    let store = MemoryStore::new();
    match simulation::get(&store, 1, 2) {
        Err(Exception::TokenNotFound) => {},
        _ => panic!("expected TokenNotFound for the missing owner"),
    }
}

#[test]
fn test_simulation_get_roundtrip_and_miss() {
    let mut store = MemoryStore::new();
    let (input, token_id) = input_with_token(&mut store);
    let outcome = run_engine(&input);
    let created = simulation::create(&mut store, &input, outcome)
        .unwrap_or_else(|_| panic!("create failed"));
    match simulation::get(&store, token_id, created.id) {
        Ok(body) => assert_eq!(body, &created.body),
        Err(_) => panic!("expected the simulation to be found"),
    }
    match simulation::get(&store, token_id, created.id.wrapping_add(1)) {
        Err(Exception::SimulationNotFound) => {},
        _ => panic!("expected SimulationNotFound"),
    }
}

#[test]
fn test_simulation_delete() {
    let mut store = MemoryStore::new();
    let (input, token_id) = input_with_token(&mut store);
    let outcome = run_engine(&input);
    let created = simulation::create(&mut store, &input, outcome)
        .unwrap_or_else(|_| panic!("create failed"));
    assert!(simulation::delete(&mut store, token_id, created.id).is_ok());
    match simulation::delete(&mut store, token_id, created.id) {
        Err(Exception::SimulationNotFound) => {},
        _ => panic!("expected SimulationNotFound on the second delete"),
    }
}
