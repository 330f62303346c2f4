//! Correlation power analysis with exact, mergeable accumulators.
//!
//! A correlation power analysis recovers a key byte from measurements of a
//! device: for every guess of the byte, a leakage model predicts what each
//! measurement should have leaked, and the guess whose predictions correlate
//! best with the measured samples is the likely key.
//!
//! The accumulators of this crate take traces of 16-bit samples one at a time
//! ([`cpa_single`]), a patch at a time ([`cpa_normal`]) or sorted into
//! partitions by a metadata value ([`cpa`]). They keep nothing but sums, so
//! accumulators fed in parallel can be merged, and the result is the
//! accumulator of all the traces whatever the split and the order. Sums and
//! correlations are kept as integers: no rounding takes place, and two
//! correlations are ordered exactly.
//!
//! Every function is verified with Verus against the contract it carries.
//! The arrays are those of `ndarray`; what is assumed of them is collected in
//! [`arrays`].

pub mod accumulator;
pub mod arrays;
pub mod correlation;
pub mod cpa;
pub mod cpa_normal;
pub mod cpa_single;
pub mod error;
pub mod history;
pub mod laws;
pub mod leakage;
pub mod partition;
pub mod sequences;
pub mod state;
pub mod tally;
pub mod wide;
