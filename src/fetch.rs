//! Judging what came back from the upstream service.
use vstd::prelude::*;

verus! {

/// Why a lookup produced no records.
#[derive(Debug, Clone, Copy, PartialEq, Eq, Structural)]
pub enum FetchError {
    /// No API credential was configured.
    ConfigMissing,
    /// The upstream service could not be reached, or its body not read.
    Network,
    /// The upstream service answered with a status outside 200..=299.
    Status(u16),
    /// The upstream body was not the expected JSON document.
    Malformed,
}

/// What the outbound call produced.
pub enum Upstream {
    /// The connection failed or timed out, or the body could not be read.
    Unreachable,
    /// The service answered with this status and body.
    Answered { status: u16, body: String },
}

pub open spec fn is_success_status(status: u16) -> bool {
    200 <= status <= 299
}

/// The API credential, if one was configured.
pub fn api_key_from(value: Option<String>) -> (r: Result<String, FetchError>)
    ensures
        value is None <==> r == Err::<String, FetchError>(FetchError::ConfigMissing),
        value matches Some(k) ==> r matches Ok(t) && t@ == k@,
{
    match value {
        Some(k) => Ok(k),
        None => Err(FetchError::ConfigMissing),
    }
}

/// The body to decode, or the error that ends the lookup: an unreachable
/// service is a network error, an answer outside 2xx a status error.
pub fn accept_upstream(upstream: Upstream) -> (r: Result<String, FetchError>)
    ensures
        upstream is Unreachable ==> r == Err::<String, FetchError>(FetchError::Network),
        upstream matches Upstream::Answered { status, body } ==> if is_success_status(status) {
            r matches Ok(b) && b@ == body@
        } else {
            r == Err::<String, FetchError>(FetchError::Status(status))
        },
{
    match upstream {
        Upstream::Unreachable => Err(FetchError::Network),
        Upstream::Answered { status, body } => {
            if 200 <= status && status <= 299 {
                Ok(body)
            } else {
                Err(FetchError::Status(status))
            }
        },
    }
}

} // verus!
