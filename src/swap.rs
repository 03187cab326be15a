//! The context of a swap: which chain arbitrates, which is accordant, and
//! what links their cryptographic groups.
use vstd::prelude::*;

use crate::dleq::DLEQProof;

verus! {

/// Fixes the two blockchains of a swap and the link between them.
pub trait Swap: core::fmt::Debug + Clone {
    /// The arbitrating blockchain.
    type Ar;

    /// The accordant blockchain.
    type Ac;

    /// What links the two blockchains' cryptographic groups.
    type Proof: Clone;

    /// The commitment used in the commit/reveal scheme during swap setup.
    type Commitment: Clone;
}

/// The arbitrating chain with timelocked scripts.
#[derive(Clone, Copy, Debug)]
pub struct Bitcoin;

/// The accordant chain whose keys the proof binds.
#[derive(Clone, Copy, Debug)]
pub struct Monero;

/// A swap of bitcoin against monero.
#[derive(Clone, Copy, Debug)]
pub struct BtcXmr;

impl Swap for BtcXmr {
    type Ar = Bitcoin;
    type Ac = Monero;
    type Proof = DLEQProof;
    type Commitment = [u8; 32];
}

} // verus!
