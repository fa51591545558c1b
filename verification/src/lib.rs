//! A minimal guestbook service core: visitors register a nickname with
//! optional metadata, and an admin behind a static bearer token can list or
//! delete registrations.
//!
//! The pieces, each with a full contract:
//! - [`store`]: the visitor table, with the uniqueness constraint on `nick`
//!   enforced atomically at insertion and rows ordered by ascending id;
//! - [`limiter`]: the per-client token-bucket guard in front of the write
//!   path;
//! - [`admin`]: the bearer-token guard in front of the admin operations,
//!   disabled entirely when no token is configured;
//! - [`error`]: the mapping from failure kinds to wire responses;
//! - [`service`]: the registration pipeline and admin operations over one
//!   store, limiter and guard;
//! - [`time`]: the injectable time source.

pub mod admin;
pub mod error;
pub mod limiter;
pub mod service;
pub mod store;
pub mod time;
