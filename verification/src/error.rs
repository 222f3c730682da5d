//! The ways in which a request to the core can fail.

use vstd::prelude::*;
use crate::auth::AuthError;

verus! {

/// Why a request failed.
#[derive(Clone, Copy, Debug, PartialEq, Eq, Structural)]
pub enum CoreError {
    /// Storage could not be read or written.
    Io,
    /// The uploaded file is no image that can be decoded.
    ImageDecode,
    /// A tag was named that does not exist.
    UnknownTag,
    /// A post or tag was asked for that does not exist.
    NotFound,
    /// A required part of an upload is missing.
    BadUpload,
}

impl CoreError {
    /// The HTTP status that answers a request which failed this way: the
    /// caller's mistakes are 400 and 404, the store's failures 500.
    pub open spec fn spec_status(self) -> u16 {
        match self {
            CoreError::Io => 500,
            CoreError::ImageDecode => 400,
            CoreError::UnknownTag => 400,
            CoreError::NotFound => 404,
            CoreError::BadUpload => 400,
        }
    }

    #[verifier::when_used_as_spec(spec_status)]
    pub fn status(self) -> (code: u16)
        ensures
            code == self.spec_status(),
    {
        match self {
            CoreError::Io => 500,
            CoreError::ImageDecode => 400,
            CoreError::UnknownTag => 400,
            CoreError::NotFound => 404,
            CoreError::BadUpload => 400,
        }
    }
}

/// Why a request to the server was not served.
#[derive(Clone, Copy, Debug, PartialEq, Eq, Structural)]
pub enum ApiError {
    /// Something failed inside the server.
    Internal,
    /// The caller's token was not accepted.
    Auth(AuthError),
    BadRequest,
    NotFound,
    Unauthorized,
}

impl ApiError {
    /// The HTTP status that answers the request. A token whose time is up
    /// asks the caller to log in again; any other trouble with a token is
    /// the caller's mistake.
    pub fn status(&self) -> (code: u16)
        ensures
            code == self.spec_status(),
    {
        match self {
            ApiError::Internal => 500,
            ApiError::Auth(AuthError::ExpiredToken) => 401,
            ApiError::Auth(_) => 400,
            ApiError::BadRequest => 400,
            ApiError::NotFound => 404,
            ApiError::Unauthorized => 401,
        }
    }

    /// How a failure of the core is answered.
    pub fn from_core(err: CoreError) -> (r: ApiError)
        ensures
            r == match err {
                CoreError::Io => ApiError::Internal,
                CoreError::NotFound => ApiError::NotFound,
                _ => ApiError::BadRequest,
            },
            r.spec_status() == err.spec_status(),
    {
        match err {
            CoreError::Io => ApiError::Internal,
            CoreError::NotFound => ApiError::NotFound,
            _ => ApiError::BadRequest,
        }
    }

    /// The HTTP status that answers the request.
    pub open spec fn spec_status(self) -> u16 {
        match self {
            ApiError::Internal => 500,
            ApiError::Auth(AuthError::ExpiredToken) => 401,
            ApiError::Auth(_) => 400,
            ApiError::BadRequest => 400,
            ApiError::NotFound => 404,
            ApiError::Unauthorized => 401,
        }
    }
}

/// A failure of the row store, with what the store said of it.
#[derive(Debug)]
pub enum StoreError {
    Failed(String),
}

impl StoreError {
    /// What the store said.
    pub fn message(&self) -> (text: &String)
        ensures
            self matches StoreError::Failed(said) && *text == said,
    {
        match self {
            StoreError::Failed(said) => said,
        }
    }

    /// What a failure of the store is to the caller of the core: storage
    /// that cannot be reached.
    pub fn as_core_error(&self) -> (e: CoreError)
        ensures
            e == CoreError::Io,
    {
        CoreError::Io
    }
}

} // verus!
