//! Aggregation and classification of repeated web-platform-test runs.
//!
//! A set of reports, each describing one run of the same suite, is folded
//! into per-test status histograms. From those the crate derives which tests
//! are intermittent, how often each status was recorded against an explicit
//! expectation, and which tests reliably show a given status.
//!
//! The data that comes in is described in [`report`] and [`status`]. What
//! the analysis computes is defined mathematically in [`tally`] and
//! [`model`]; the executable functions in [`validate`], [`aggregate`] and
//! [`query`] are proved to compute exactly that, on the tables of [`counts`],
//! [`histogram`] and [`names`]. [`laws`] states what holds of the results in
//! general, and [`lemmas`] holds the steps that the proofs share.

pub mod error;
pub mod status;
pub mod counts;
pub mod report;
pub mod tally;
pub mod model;
pub mod lemmas;
pub mod laws;
pub mod histogram;
pub mod names;
pub mod validate;
pub mod aggregate;
pub mod query;
pub mod loader;
