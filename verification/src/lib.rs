//! Akela: the verified core of a Server-Sent Events hub with tag-based fan-out.
//!
//! Clients hold a set of string tags. An event sent without tags (or with an
//! empty list) is public and reaches every client; an event sent with tags
//! reaches only the clients that hold all of them. A send attributed to a
//! client reaches every matching client except that one. The network and
//! Redis plumbing lives outside this crate; everything that decides who
//! receives what lives here.

pub mod config;
pub mod protocol;
pub mod query;
pub mod registry;
pub mod service;
pub mod tags;

pub use protocol::{normalize_tags, Envelope};
pub use registry::{Action, Registry};
pub use tags::TagSet;
