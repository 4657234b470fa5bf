use simetrics_api::Exception;

fn all_kinds() -> Vec<Exception> {
    vec![
        Exception::TokenNotFound,
        Exception::SimulationNotFound,
        Exception::InternalError,
        Exception::InvalidInput(String::from("detail")),
        Exception::ValidationFailed(String::from("detail")),
        Exception::PayloadTooLarge,
    ]
}

#[test]
fn test_status_code_u16() {
    for el in all_kinds() {
        el.status_code_u16();
    }
}

#[test]
fn test_variant_name() {
    for el in all_kinds() {
        el.get_variant_name();
    }
}

#[test]
fn test_status_codes_match_table() {
    assert_eq!(Exception::TokenNotFound.status_code_u16(), 404);
    assert_eq!(Exception::SimulationNotFound.status_code_u16(), 404);
    assert_eq!(Exception::InternalError.status_code_u16(), 500);
    assert_eq!(Exception::InvalidInput(String::from("x")).status_code_u16(), 400);
    assert_eq!(Exception::ValidationFailed(String::from("x")).status_code_u16(), 400);
    assert_eq!(Exception::PayloadTooLarge.status_code_u16(), 413);
}

#[test]
fn test_variant_names_are_stable() {
    assert_eq!(Exception::TokenNotFound.get_variant_name(), "TOKEN_NOT_FOUND");
    assert_eq!(Exception::SimulationNotFound.get_variant_name(), "SIMULATION_NOT_FOUND");
    assert_eq!(Exception::InternalError.get_variant_name(), "INTERNAL_ERROR");
    assert_eq!(Exception::InvalidInput(String::from("x")).get_variant_name(), "INVALID_INPUT");
    assert_eq!(
        Exception::ValidationFailed(String::from("x")).get_variant_name(),
        "VALIDATION_FAILED"
    );
    assert_eq!(Exception::PayloadTooLarge.get_variant_name(), "PAYLOAD_TOO_LARGE");
}

#[test]
fn test_to_response_status_matches_status_code() {
    for el in all_kinds() {
        let status = el.status_code_u16();
        let (got, _, _) = el.to_response();
        assert_eq!(got, status);
    }
}

#[test]
fn test_messages_embed_detail() {
    assert_eq!(Exception::TokenNotFound.message(), "Token not found.");
    assert_eq!(Exception::SimulationNotFound.message(), "Simulation not found.");
    assert_eq!(Exception::InternalError.message(), "Internal error.");
    assert_eq!(Exception::PayloadTooLarge.message(), "Payload too large.");
    assert_eq!(
        Exception::InvalidInput(String::from("broken")).message(),
        "Invalid input: broken"
    );
    assert_eq!(
        Exception::ValidationFailed(String::from("bad field")).message(),
        "Validation failed: bad field"
    );
}

#[test]
fn test_to_response_parts() {
    let (status, code, message) = Exception::ValidationFailed(String::from("oops")).to_response();
    assert_eq!(status, 400);
    assert_eq!(code, "VALIDATION_FAILED");
    assert_eq!(message, "Validation failed: oops");
}
