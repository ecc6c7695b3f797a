//! A multi-party transaction-approval engine.
//!
//! A fixed set of admins collectively controls a shared fund: any admin may
//! propose a transfer, other admins approve it, and once a configured quorum
//! of distinct admins has approved, any admin may release it, producing a
//! transfer instruction for the surrounding host to carry out. The engine
//! itself never moves funds and performs no I/O: it is a pure state machine
//! over plain values, and every operation is specified and verified here.

pub mod error;
pub mod msg;
pub mod state;
pub mod contract;
