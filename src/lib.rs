//! A constant-product exchange engine: per-pair liquidity pools with escrowed
//! deposits, liquidity shares and fee-charging swaps, plus a registry that
//! deploys pools deterministically and checks the code behind each address.
pub mod math;
pub mod pool;
pub mod registry;
pub mod types;
