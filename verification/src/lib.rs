use vstd::prelude::*;

pub mod codec;
pub mod dec;
pub mod exception;
pub mod health;
pub mod simulation;
pub mod store;
pub mod token;

pub use exception::Exception;

verus! {

/// Ceiling, in bytes, on both inbound request bodies and outbound response
/// bodies.
pub const MAX_BODY_SIZE: usize = 2 * 1024 * 1024;

/// Limit the size of a response body.
///
/// The transport layer buffers the outbound body up to the fixed ceiling and
/// hands the result here: `None` when buffering failed or overran the ceiling.
/// The original body passes through untouched if and only if it fits.
pub fn limit_response_size(body: Option<Vec<u8>>) -> (r: Result<Vec<u8>, Exception>)
    ensures
        match body {
            None => r matches Err(e) && e matches Exception::PayloadTooLarge,
            Some(b) => if b@.len() > MAX_BODY_SIZE {
                r matches Err(e) && e matches Exception::PayloadTooLarge
            } else {
                r matches Ok(out) && out@ == b@
            },
        },
{
    match body {
        None => Err(Exception::PayloadTooLarge),
        Some(b) => {
            if b.len() > MAX_BODY_SIZE {
                Err(Exception::PayloadTooLarge)
            } else {
                Ok(b)
            }
        },
    }
}

} // verus!
