//! API authentication claims and the freshness rule for cached repository
//! access tokens.

use vstd::prelude::*;

verus! {

/// Milliseconds a cached repository access token stays usable: thirty
/// minutes.
pub const TOKEN_MAX_AGE_MILLIS: i64 = 1800000;

/// The role a management-API bearer token carries.
#[derive(Clone, Copy, Debug, PartialEq, Eq, Structural)]
pub enum Role {
    Admin,
    User,
}

/// The claims of a management-API bearer token.
#[derive(Clone, Copy, Debug, PartialEq, Eq, Structural)]
pub struct TokenClaims {
    pub role: Role,
}

/// Whether a cached repository token acquired at `token_millis` has
/// outlived its thirty-minute window at time `now_millis`.
pub fn is_token_too_old(token_millis: i64, now_millis: i64) -> (r: bool)
    ensures
        r <==> now_millis - token_millis > TOKEN_MAX_AGE_MILLIS,
{
    (now_millis as i128) - (token_millis as i128) > (TOKEN_MAX_AGE_MILLIS as i128)
}

} // verus!
