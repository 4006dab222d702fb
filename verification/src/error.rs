use vstd::prelude::*;

verus! {

/// Why a request gave no result.
#[derive(Clone, Copy, Debug, PartialEq, Eq, Structural)]
pub enum FetchError {
    /// The request could not be signed: one of its parameters uses the name
    /// of a protocol parameter, or no nonce is left.
    Signing,
    /// The request could not be sent, or no answer came.
    Transport,
    /// The server answered with a status that is not a success.
    Status(u16),
    /// The body of the answer is not an envelope of the expected shape.
    Decode,
}

/// The status is one of success: 200 to 299.
pub open spec fn is_success(code: u16) -> bool {
    200 <= code && code < 300
}

/// What a status means for the request: any status that is not a success
/// is a failure that names the status.
pub fn failure_of_status(code: u16) -> (r: Option<FetchError>)
    ensures
        r == (if is_success(code) {
            None::<FetchError>
        } else {
            Some(FetchError::Status(code))
        }),
{
    if 200 <= code && code < 300 {
        None
    } else {
        Some(FetchError::Status(code))
    }
}

} // verus!
