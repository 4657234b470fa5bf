use simetrics_api::dec::Dec;
use simetrics_api::simulation::{validate_simulation, validate_token, Interval, SimOptions};
use simetrics_api::token::{build_token, TokenInput};
use simetrics_api::Exception;

fn expect_validation_failure(r: Result<(), Exception>, expected: &str) {
    match r {
        Err(Exception::ValidationFailed(m)) => assert_eq!(m, expected),
        _ => panic!("expected a validation failure: {}", expected),
    }
}

fn valid_options() -> SimOptions {
    SimOptions {
        duration: 30,
        total_users: 500,
        market_volatility: Dec::new(5, 1),
        decimal_precision: 4,
        interval_type: Interval::Daily,
        transaction_fee_percentage: None,
    }
}

#[test]
fn test_validation_order_airdrop_first() {
    let mut input = TokenInput::empty();
    input.airdrop_percentage = Some(Dec::new(150, 0));
    input.initial_supply_percentage = Some(Dec::new(150, 0));
    let token = build_token(input, 1);
    expect_validation_failure(
        validate_token(&token),
        "Airdrop percentage must be more 0 and less than or equal to 100.",
    );
}

#[test]
fn test_airdrop_boundaries() {
    let mut input = TokenInput::empty();
    input.airdrop_percentage = Some(Dec::new(100, 0));
    assert!(validate_token(&build_token(input, 1)).is_ok());

    let mut input = TokenInput::empty();
    input.airdrop_percentage = Some(Dec::new(0, 0));
    expect_validation_failure(
        validate_token(&build_token(input, 1)),
        "Airdrop percentage must be more 0 and less than or equal to 100.",
    );

    let mut input = TokenInput::empty();
    input.airdrop_percentage = Some(Dec::new(10001, 2));
    expect_validation_failure(
        validate_token(&build_token(input, 1)),
        "Airdrop percentage must be more 0 and less than or equal to 100.",
    );
}

#[test]
fn test_initial_supply_boundaries() {
    let mut input = TokenInput::empty();
    input.initial_supply_percentage = Some(Dec::new(100, 0));
    assert!(validate_token(&build_token(input, 1)).is_ok());

    let mut input = TokenInput::empty();
    input.initial_supply_percentage = Some(Dec::new(0, 0));
    expect_validation_failure(
        validate_token(&build_token(input, 1)),
        "Initial supply percentage must be more than 0 and less than or equal to 100.",
    );
}

#[test]
fn test_total_users_boundaries() {
    let mut o = valid_options();
    o.total_users = 100000;
    assert!(validate_simulation(&o).is_ok());
    o.total_users = 100001;
    expect_validation_failure(
        validate_simulation(&o),
        "Total users must be more than 0 and less than or equal to 100000.",
    );
    o.total_users = 1;
    assert!(validate_simulation(&o).is_ok());
    o.total_users = 0;
    expect_validation_failure(
        validate_simulation(&o),
        "Total users must be more than 0 and less than or equal to 100000.",
    );
}

#[test]
fn test_decimal_precision_boundaries() {
    let mut o = valid_options();
    o.decimal_precision = 18;
    assert!(validate_simulation(&o).is_ok());
    o.decimal_precision = 19;
    expect_validation_failure(
        validate_simulation(&o),
        "Decimal precision must be more than or equal to 0 and less than or equal to 18.",
    );
    o.decimal_precision = 0;
    expect_validation_failure(
        validate_simulation(&o),
        "Decimal precision must be more than or equal to 0 and less than or equal to 18.",
    );
}

#[test]
fn test_duration_ceilings() {
    let cases = [
        (Interval::Daily, 365u64, "Duration value must be more than 0 and less than or equal to 365."),
        (Interval::Hourly, 24u64, "Duration value must be more than 0 and less than or equal to 24."),
        (Interval::Weekly, 52u64, "Duration value must be more than 0 and less than or equal to 52."),
        (Interval::Monthly, 12u64, "Duration value must be more than 0 and less than or equal to 12."),
    ];
    for (interval, ceiling, message) in cases {
        let mut o = valid_options();
        o.interval_type = interval;
        o.duration = ceiling;
        assert!(validate_simulation(&o).is_ok());
        o.duration = ceiling + 1;
        expect_validation_failure(validate_simulation(&o), message);
        o.duration = 0;
        expect_validation_failure(validate_simulation(&o), message);
    }
}

#[test]
fn test_market_volatility_boundaries() {
    let mut o = valid_options();
    o.market_volatility = Dec::new(0, 0);
    assert!(validate_simulation(&o).is_ok());
    o.market_volatility = Dec::new(1, 0);
    assert!(validate_simulation(&o).is_ok());
    o.market_volatility = Dec::new(11, 1);
    expect_validation_failure(
        validate_simulation(&o),
        "Market volatility must be more than or equal to 0 and less than or equal to 1.",
    );
    o.market_volatility = Dec::new(-1, 1);
    expect_validation_failure(
        validate_simulation(&o),
        "Market volatility must be more than or equal to 0 and less than or equal to 1.",
    );
}

#[test]
fn test_transaction_fee_boundaries() {
    let mut o = valid_options();
    o.transaction_fee_percentage = Some(Dec::new(1, 0));
    assert!(validate_simulation(&o).is_ok());
    o.transaction_fee_percentage = Some(Dec::new(0, 0));
    expect_validation_failure(
        validate_simulation(&o),
        "Transaction fee percentage must be more than 0 and less than or equal to 100.",
    );
    o.transaction_fee_percentage = Some(Dec::new(101, 2));
    expect_validation_failure(
        validate_simulation(&o),
        "Transaction fee percentage must be more than 0 and less than or equal to 100.",
    );
}

#[test]
fn test_validation_rule_order_in_options() {
    let mut o = valid_options();
    o.total_users = 0;
    o.decimal_precision = 0;
    o.duration = 0;
    expect_validation_failure(
        validate_simulation(&o),
        "Total users must be more than 0 and less than or equal to 100000.",
    );
    o.total_users = 10;
    expect_validation_failure(
        validate_simulation(&o),
        "Decimal precision must be more than or equal to 0 and less than or equal to 18.",
    );
    o.decimal_precision = 4;
    expect_validation_failure(
        validate_simulation(&o),
        "Duration value must be more than 0 and less than or equal to 365.",
    );
}
