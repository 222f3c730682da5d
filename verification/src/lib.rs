//! An image board core: content-addressed storage of uploads, tag resolution
//! through aliases and implications, and page boundaries over tag-filtered
//! posts that stay put while new posts arrive.
//!
//! - `hash` and `image`: an upload is hashed while it streams by, stored
//!   under its digest, and given a thumbnail, each once.
//! - `tags`: names resolve to canonical tags, and sets of tags expand to
//!   their closure under implication.
//! - `index`, `pagination` and `page_laws`: posts in the order of their
//!   identifiers, the walk that finds page boundaries among those that pass
//!   a filter, and what holds of the boundaries it finds.
//! - `catalog` and `booru`: the posts with their tags, and the core that
//!   makes a post of an upload.
//! - `config`, `user`, `auth`, `query`, `post`, `paths`, `models`, `store`:
//!   settings, users, tokens, requests and the records that go between them.
//!
//! The library neither reads nor writes files, sockets or databases. Where
//! such work has to be done in between, it says what is to be done and
//! leaves the doing to its caller.

pub mod auth;
pub mod booru;
pub mod catalog;
pub mod config;
pub mod error;
pub mod hash;
pub mod image;
pub mod index;
pub mod models;
pub mod names;
pub mod page_laws;
pub mod pagination;
pub mod paths;
pub mod post;
pub mod query;
pub mod store;
pub mod tags;
pub mod user;
