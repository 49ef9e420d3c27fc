//! The login endpoint.
use vstd::prelude::*;

verus! {

/// A login attempt.
pub struct LoginRequest {
    pub username: String,
}

/// The accepted login.
pub struct LoginResponse {
    pub username: String,
}

/// The HTTP status of a refused login.
pub const BAD_REQUEST: u16 = 400;

/// Accepts any non-empty user name and echoes it back; an empty one is
/// refused with status 400.
pub fn login(body: LoginRequest) -> (r: Result<LoginResponse, u16>)
    ensures
        body.username@.len() == 0 ==> r == Err::<LoginResponse, u16>(BAD_REQUEST),
        body.username@.len() != 0 ==> (r matches Ok(resp) && resp.username@ == body.username@),
{
    if body.username.as_str().is_empty() {
        return Err(BAD_REQUEST);
    }
    Ok(LoginResponse { username: body.username })
}

} // verus!
