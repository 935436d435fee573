//! Verified core of the mindkernel self-modifying agent.

pub mod text;
pub mod ranking;
pub mod action;
pub mod diff;
pub mod operators;
pub mod sampling;
pub mod patterns;
pub mod syscall;
pub mod hashing;
pub mod context;
pub mod knowledge;
pub mod resources;
pub mod kinds;
pub mod sandbox;
pub mod patch_laws;
pub mod cycle;
pub mod diff_laws;
