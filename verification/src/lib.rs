//! A traffic-splitting web server core: routing decisions, visitor
//! fingerprinting, visit aggregation, and the surrounding bookkeeping for a
//! reverse proxy that serves several versions of a static site at once.
//!
//! The crate holds the decision logic only: what to do with a request, which
//! version to pick, how batched request logs roll up into visits, how the
//! configuration file is written and read back. Listening sockets, the
//! database, and the ACME client live with the binary that embeds this crate;
//! they hand plain values in and take plain values back.

pub mod auth;
pub mod cert;
pub mod challenge;
pub mod config;
pub mod dispatch;
pub mod error;
pub mod events;
pub mod fingerprint;
pub mod pipeline;
pub mod redirect;
pub mod registry;
mod rng;
pub mod routes;
pub mod site;
pub mod stats;
pub mod strategy;
pub mod text;
pub mod version;
