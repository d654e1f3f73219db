//! The decision core of a small feed-forward network trainer.
//!
//! Numbers are held by their bit patterns, so that every comparison the
//! trainer makes (the rectifier, early stopping, threshold calibration,
//! the validation split) is decided here and proved, while the arithmetic on
//! them is left to the caller.

pub mod activation;
pub mod calibrate;
pub mod jsonl;
pub mod monitor;
pub mod scalar;
pub mod split;
