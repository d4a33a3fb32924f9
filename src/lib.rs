//! Integer-only pricing engine for a multi-asset StableSwap pool.

pub mod bigint;
pub mod fees;
pub mod guarantees;
pub mod newton;
pub mod limbs;
pub mod rates;
pub mod swap;
pub mod token_steps;

