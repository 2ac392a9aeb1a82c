//! Core of a proof-of-stake beacon chain: state model, fixed-length
//! serialization, Casper rewards and justification, and LMD-GHOST fork choice.

pub mod epoch;
pub mod executor;
pub mod fork_choice;
pub mod hash;
pub mod justification;
pub mod operations;
pub mod pool;
pub mod registry;
pub mod reward;
pub mod sequence;
pub mod ssz;
pub mod state;
pub mod transition;
