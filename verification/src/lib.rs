//! A verified escrow / proposal settlement engine.
//!
//! The library holds multi-asset funds on behalf of a proposer, gates their
//! release behind a set of validator addresses, and guarantees that every
//! escrow is settled exactly once: an `Opened` escrow either completes
//! (funds go to the proposer) or cancels (native funds return to the source,
//! tokenized funds are burned), and afterwards the record is locked.
//!
//! Wire encoding, address validation and the persistent key-value backend are
//! boundary concerns kept outside this crate; the engine works on plain data
//! and emits typed transfer instructions.

pub mod balance;
pub mod contract;
pub mod error;
pub mod exchange;
pub mod laws;
pub mod msg;
pub mod order;
pub mod state;
