//! Threshold secret sharing bound to sequential time-lock puzzles.
//!
//! A secret is split into `N` shares over a prime field such that any `T`
//! of them reconstruct it exactly; each share is wrapped behind a
//! sequential-squaring time-lock puzzle, screened by a statistical
//! backdoor detector, and serialized to a portable hex record.

pub mod bytes;
pub mod codec;
pub mod detector;
pub mod errors;
pub mod hashing;
pub mod hexstr;
pub mod modmath;
pub mod randomness;
pub mod service;
pub mod sharing;
pub mod timelock;
