//! The two fixed roles of a swap.
use vstd::prelude::*;

verus! {

/// The role a party plays in a swap; it only indexes key material.
#[derive(Clone, Copy, Debug, PartialEq, Eq, Structural)]
pub enum SwapRole {
    Alice,
    Bob,
}

/// A role known at the type level.
pub trait Role {
    spec fn spec_swap_role() -> SwapRole;

    fn swap_role() -> (r: SwapRole)
        ensures
            r == Self::spec_swap_role(),
    ;
}

/// The party that sells accordant coins for arbitrating ones.
pub struct Alice;

/// The party that buys accordant coins with arbitrating ones.
pub struct Bob;

impl Role for Alice {
    open spec fn spec_swap_role() -> SwapRole {
        SwapRole::Alice
    }

    fn swap_role() -> (r: SwapRole) {
        SwapRole::Alice
    }
}

impl Role for Bob {
    open spec fn spec_swap_role() -> SwapRole {
        SwapRole::Bob
    }

    fn swap_role() -> (r: SwapRole) {
        SwapRole::Bob
    }
}

} // verus!
