//! Builds the markdown agenda of a triage meeting from what the issue
//! tracker and the proposal service returned.
//!
//! The library computes; it makes no request itself. A caller asks a
//! [`Variant`] for its queries and each [`GithubQuery`] for its requests,
//! makes them, and hands the answers to the [`Generator`]. Every function
//! states in its contract the exact text or value that it produces.

pub mod agenda;
pub mod collector;
pub mod fcp;
pub mod generator;
pub mod issue;
pub mod order;
pub mod outside;
pub mod query;
pub mod text;

pub use agenda::Variant;
pub use collector::Collector;
pub use fcp::{Proposal, Review, Timestamp};
pub use generator::Generator;
pub use issue::Issue;
pub use query::{GithubQuery, Listing, Sort, State};
pub use text::escape;
