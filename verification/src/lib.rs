//! Metrics aggregation and proximity scoring over decimal fixed-point numbers.
//!
//! Every quantity that is not a whole number is a signed count of units of
//! `10^-12`: a [`fixed::Fixed`] where it is given to the library, and a
//! [`fixed::Wide`] where the library works it out and it may be larger than
//! what was given. Contracts are stated over mathematical integers; a result is
//! the exact value, rounded towards zero where a division does not come out
//! even, and never cut short.

pub mod fixed;
pub mod metrics;
pub mod scoring;
