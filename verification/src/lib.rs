//! Verified core of a Kaspa transaction generator.
//!
//! The generator prepares a pool of equally sized outputs by splitting its largest one, and then
//! sends one-input, one-output payments to itself at a controlled rate. This crate holds every
//! decision it takes: which network it talks to, which outputs it may spend, how it splits them,
//! which transactions it builds and signs, and what it remembers of those it has sent.
pub mod builders;
pub mod chain;
pub mod config;
pub mod fees;
pub mod keys;
pub mod meter;
pub mod net;
pub mod ordering;
pub mod outpoints;
pub mod promises;
pub mod spam;
pub mod split;
pub mod text;
pub mod tx;
pub mod utxos;
