use vstd::prelude::*;

verus! {

/// Exceptions that can be thrown by the application.
///
/// Each kind carries a fixed HTTP status, a stable machine-readable code and a
/// human message; the mapping is a total function over this closed set.
#[derive(Debug)]
pub enum Exception {
    /// Token not found.
    TokenNotFound,
    /// Simulation not found.
    SimulationNotFound,
    /// Internal error.
    InternalError,
    /// Invalid input, with the reason construction was rejected.
    InvalidInput(String),
    /// Validation failed, with the first violated rule's message.
    ValidationFailed(String),
    /// Payload too large.
    PayloadTooLarge,
}

/// The HTTP status owed to each exception kind.
pub open spec fn status_of(e: Exception) -> u16 {
    match e {
        Exception::TokenNotFound => 404,
        Exception::SimulationNotFound => 404,
        Exception::InternalError => 500,
        Exception::InvalidInput(_) => 400,
        Exception::ValidationFailed(_) => 400,
        Exception::PayloadTooLarge => 413,
    }
}

/// The stable wire code of each exception kind, fixed across versions.
pub open spec fn code_of(e: Exception) -> Seq<char> {
    match e {
        Exception::TokenNotFound => "TOKEN_NOT_FOUND"@,
        Exception::SimulationNotFound => "SIMULATION_NOT_FOUND"@,
        Exception::InternalError => "INTERNAL_ERROR"@,
        Exception::InvalidInput(_) => "INVALID_INPUT"@,
        Exception::ValidationFailed(_) => "VALIDATION_FAILED"@,
        Exception::PayloadTooLarge => "PAYLOAD_TOO_LARGE"@,
    }
}

/// The human message of each exception kind; validation and input failures
/// embed their detail.
pub open spec fn message_of(e: Exception) -> Seq<char> {
    match e {
        Exception::TokenNotFound => "Token not found."@,
        Exception::SimulationNotFound => "Simulation not found."@,
        Exception::InternalError => "Internal error."@,
        Exception::InvalidInput(detail) => "Invalid input: "@ + detail@,
        Exception::ValidationFailed(detail) => "Validation failed: "@ + detail@,
        Exception::PayloadTooLarge => "Payload too large."@,
    }
}

impl Exception {
    /// Gets the status code of the exception as u16.
    pub fn status_code_u16(&self) -> (r: u16)
        ensures
            r == status_of(*self),
    {
        match self {
            Exception::TokenNotFound => 404,
            Exception::SimulationNotFound => 404,
            Exception::InternalError => 500,
            Exception::InvalidInput(_) => 400,
            Exception::ValidationFailed(_) => 400,
            Exception::PayloadTooLarge => 413,
        }
    }

    /// Gets the variant name of the exception: the stable wire "code" field.
    pub fn get_variant_name(&self) -> (r: &'static str)
        ensures
            r@ == code_of(*self),
    {
        match self {
            Exception::TokenNotFound => "TOKEN_NOT_FOUND",
            Exception::SimulationNotFound => "SIMULATION_NOT_FOUND",
            Exception::InternalError => "INTERNAL_ERROR",
            Exception::InvalidInput(_) => "INVALID_INPUT",
            Exception::ValidationFailed(_) => "VALIDATION_FAILED",
            Exception::PayloadTooLarge => "PAYLOAD_TOO_LARGE",
        }
    }

    /// Gets the human message of the exception, embedding the detail for
    /// input and validation failures.
    pub fn message(&self) -> (r: String)
        ensures
            r@ == message_of(*self),
    {
        match self {
            Exception::TokenNotFound => String::from_str("Token not found."),
            Exception::SimulationNotFound => String::from_str("Simulation not found."),
            Exception::InternalError => String::from_str("Internal error."),
            Exception::InvalidInput(detail) => String::from_str("Invalid input: ").concat(
                detail.as_str(),
            ),
            Exception::ValidationFailed(detail) => String::from_str("Validation failed: ").concat(
                detail.as_str(),
            ),
            Exception::PayloadTooLarge => String::from_str("Payload too large."),
        }
    }

    /// Converts the exception into the parts of its wire response: the HTTP
    /// status, the stable code and the human message of the JSON error body.
    pub fn to_response(&self) -> (r: (u16, String, String))
        ensures
            r.0 == status_of(*self),
            r.1@ == code_of(*self),
            r.2@ == message_of(*self),
    {
        let status = self.status_code_u16();
        let code = self.get_variant_name();
        let message = self.message();
        (status, String::from_str(code), message)
    }
}

/// The status of the wire response equals the status of the exception, for
/// every exception kind: the mapping is total and never recomputed.
pub proof fn lemma_to_response_status(e: Exception)
    ensures
        status_of(e) == match e {
            Exception::TokenNotFound => 404u16,
            Exception::SimulationNotFound => 404u16,
            Exception::InternalError => 500u16,
            Exception::InvalidInput(_) => 400u16,
            Exception::ValidationFailed(_) => 400u16,
            Exception::PayloadTooLarge => 413u16,
        },
{
}

} // verus!
