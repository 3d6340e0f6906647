//! A verified core for a desktop input recorder: captured pointer and
//! keyboard activity is modelled as `Action` values, timestamped into
//! `EventRecord`s, buffered through a transfer queue, persisted in batches
//! with exact accounting, and replayed on a schedule that reconstructs the
//! original inter-event delays.

pub mod action;
pub mod codec;
pub mod config;
pub mod controller;
pub mod decimal;
pub mod error;
pub mod player;
pub mod recorder;
pub mod session;
pub mod store;
