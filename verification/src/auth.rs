//! What an access token says, and the ways in which a token can fail.

use vstd::prelude::*;

verus! {

/// Why a token was not accepted or could not be made.
#[derive(Clone, Copy, Debug, PartialEq, Eq, Structural)]
pub enum AuthError {
    ExpiredToken,
    TokenCreation,
    InvalidToken,
}

impl AuthError {
    /// The HTTP status that answers a request which failed this way.
    pub fn status(&self) -> (code: u16)
        ensures
            code == match self {
                AuthError::ExpiredToken => 401u16,
                AuthError::TokenCreation => 500u16,
                AuthError::InvalidToken => 400u16,
            },
    {
        match self {
            AuthError::ExpiredToken => 401,
            AuthError::TokenCreation => 500,
            AuthError::InvalidToken => 400,
        }
    }

    /// The failure in words.
    pub fn message(&self) -> (text: String)
        ensures
            text@ == match self {
                AuthError::ExpiredToken => "Token expired"@,
                AuthError::TokenCreation => "Error creating token"@,
                AuthError::InvalidToken => "Invalid token"@,
            },
    {
        match self {
            AuthError::ExpiredToken => String::from_str("Token expired"),
            AuthError::TokenCreation => String::from_str("Error creating token"),
            AuthError::InvalidToken => String::from_str("Invalid token"),
        }
    }

    /// Why a token that could not be decoded is turned away: because its
    /// time is up, or because it is no token of ours.
    pub fn from_decode_failure(expired: bool) -> (r: AuthError)
        ensures
            r == (if expired {
                AuthError::ExpiredToken
            } else {
                AuthError::InvalidToken
            }),
    {
        if expired {
            AuthError::ExpiredToken
        } else {
            AuthError::InvalidToken
        }
    }
}

/// The seconds that a short-lived token is good for.
pub const SHORT_LIFETIME: i64 = 3600;

/// The second at which a token expires that is made at `now` and good for
/// an hour, kept within what a `usize` can hold.
pub open spec fn short_expiry(now: int) -> usize {
    let at = now + SHORT_LIFETIME;
    if at < 0 {
        0
    } else if at > usize::MAX {
        usize::MAX
    } else {
        at as usize
    }
}

/// Claims with the second at which they expire.
#[derive(Debug)]
pub struct JwtClaims<C> {
    pub exp: usize,
    pub claims: C,
}

/// Who a token was issued to.
#[derive(Clone, Copy, Debug, PartialEq, Eq, Structural)]
pub struct AuthClaims {
    pub user_id: i32,
}

/// Who a token was issued to, and in which session.
#[derive(Clone, Copy, Debug, PartialEq, Eq, Structural)]
pub struct SessionClaims {
    pub session: i64,
    pub claims: AuthClaims,
}

impl<C> JwtClaims<C> {
    /// Claims that expire an hour after `now`, a time in seconds since the
    /// Unix epoch.
    pub fn short(claims: C, now: i64) -> (r: JwtClaims<C>)
        ensures
            r.exp == short_expiry(now as int),
            r.claims == claims,
    {
        let at: i128 = now as i128 + SHORT_LIFETIME as i128;
        let exp: usize = if at < 0 {
            0
        } else if at > usize::MAX as i128 {
            usize::MAX
        } else {
            at as usize
        };
        JwtClaims { exp, claims }
    }
}

} // verus!
