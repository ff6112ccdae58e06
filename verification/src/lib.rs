//! Fraud scoring by nearest neighbours.
//!
//! A request is turned into a vector of sixteen features ([`request`]), the
//! clusters with the nearest centroids are chosen ([`probe`]), their vectors are
//! searched for the nearest ones ([`search`]), and the frauds among these decide
//! the answer ([`response`]). The index comes from a file ([`index`]).
//!
//! Floating-point arithmetic is left to the caller: floats come and go as bit
//! patterns, which [`float_bits`] orders and clamps.
pub mod calendar;
pub mod counting;
pub mod distance;
pub mod float_bits;
pub mod index;
pub mod mcc;
pub mod metrics;
pub mod probe;
pub mod ranking;
pub mod request;
pub mod response;
pub mod search;
pub mod settings;
pub mod text;
