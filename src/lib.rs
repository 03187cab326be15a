//! Core of a cross-chain atomic swap between an arbitrating chain with
//! timelocked scripts and an accordant chain whose keys are bound to the
//! arbitrating side by a cross-group discrete-log-equality proof.
pub mod roles;
pub mod session;
pub mod bytes;
pub mod hash;
pub mod script;
pub mod transaction;
pub mod funding;
pub mod cancel;
pub mod punish;
pub mod scalar;
pub mod dleq;
pub mod secp;
pub mod swap;
pub mod refund;
pub mod buy;
