//! Plain records that travel between the catalogue, the stores and the
//! callers of the library. Points in time are seconds since the Unix epoch;
//! tokens are the 128 bits of a UUID.

pub mod export;
pub mod local;
pub mod view;
