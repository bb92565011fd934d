//! Arithmetic practice questions, a store of attempts, and accuracy
//! statistics over time windows aligned to a time zone's calendar days.
//!
//! - [`problem`] draws problems and reads their texts back.
//! - [`question`] holds one question and the answer being typed.
//! - [`test_repo`] is the store: it gives out questions, takes answers,
//!   lists mistakes and counts answers in a window of time.
//! - [`engine`] counts by calendar days of a time zone.
//! - [`service`] is the store as a front end meets it, with the texts of
//!   requests read and checked first.
//! - [`zone`], [`random`], [`decimal`] and [`text`] serve the others.
//!
//! Random draws, the clock and the time zone database come from other
//! crates. What is taken from them on trust is said where it is taken.

pub mod decimal;
pub mod engine;
pub mod error;
pub mod problem;
pub mod question;
pub mod random;
pub mod service;
pub mod statistic;
pub mod test_repo;
pub mod text;
pub mod zone;
