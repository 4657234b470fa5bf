use rust_decimal::Decimal;
use tokenomics_simulator::{SimulationBuilder, SimulationOptions, Token};

fn sample_engine_token() -> Token {
    Token {
        id: uuid::Uuid::new_v4(),
        name: String::from("Example"),
        symbol: String::from("EXM"),
        total_supply: Decimal::new(1_000_000, 0),
        current_supply: Decimal::new(250, 0),
        initial_supply_percentage: Decimal::new(50, 0),
        inflation_rate: Some(Decimal::new(2, 0)),
        burn_rate: None,
        initial_price: Decimal::new(1, 0),
        airdrop_percentage: Some(Decimal::new(5, 0)),
        unlock_schedule: None,
    }
}

fn sample_engine_options() -> SimulationOptions {
    SimulationOptions {
        duration: 2,
        total_users: 10,
        market_volatility: Decimal::new(5, 1),
        decimal_precision: 4,
        interval_type: tokenomics_simulator::SimulationInterval::Daily,
        transaction_fee_percentage: None,
        adoption_rate: None,
        valuation_model: None,
    }
}

#[test]
fn test_token_serde_roundtrip() {
    let token = sample_engine_token();
    let text = serde_json::to_string(&token).unwrap_or_else(|_| panic!("serialize failed"));
    let back: Token =
        serde_json::from_str(&text).unwrap_or_else(|_| panic!("deserialize failed"));
    assert_eq!(back, token);
}

#[test]
fn test_simulation_serde_roundtrip() {
    let builder = SimulationBuilder {
        name: Some(String::from("Roundtrip")),
        description: Some(String::from("serialize then deserialize")),
        token: Some(sample_engine_token()),
        options: Some(sample_engine_options()),
    };
    let mut simulation = builder.build().unwrap_or_else(|_| panic!("build failed"));
    simulation.run().unwrap_or_else(|_| panic!("run failed"));

    let text = serde_json::to_string(&simulation).unwrap_or_else(|_| panic!("serialize failed"));
    let back: tokenomics_simulator::Simulation =
        serde_json::from_str(&text).unwrap_or_else(|_| panic!("deserialize failed"));

    assert_eq!(back.id, simulation.id);
    assert_eq!(back.name, simulation.name);
    assert_eq!(back.description, simulation.description);
    assert_eq!(back.token, simulation.token);
    assert_eq!(back.options, simulation.options);

    let again = serde_json::to_string(&back).unwrap_or_else(|_| panic!("reserialize failed"));
    assert_eq!(again, text);
}
