//! Verified core of the `servofetch` Python bindings for servo-fetch: network-policy
//! bookkeeping, request planning, page metrics, crawl results and the onion transport
//! configuration. The Python-facing layer and the calls into Servo live outside this crate.

pub mod error;
pub mod policy;
pub mod onion;
pub mod request;
pub mod page;
pub mod results;
pub mod wire;
