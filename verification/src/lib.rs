//! Attestation and launch support for Hygon CSV guests and DCU accelerators.

pub mod api;
pub mod error;
pub mod number;
pub mod text;
