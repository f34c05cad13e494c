//! A verified model of a permissionless ledger: block validation and
//! append, memory pools for transactions and prover solutions, block
//! proposal, coinbase solution checks, retargeting, and plaintext parsing.

pub mod block;
pub mod coinbase;
pub mod error;
pub mod helpers;
pub mod interop;
pub mod state;
pub mod ledger;
pub mod laws;
pub mod plaintext;
pub mod input;
