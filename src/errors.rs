//! Why a pool operation was refused. Every refusal leaves the pool as it was.
use vstd::prelude::*;

verus! {

#[derive(Clone, Copy, Debug, PartialEq, Eq, Structural)]
pub enum PoolError {
    /// A zero or cap-violating trade size, or trading while not `Active`.
    InvalidAmount,
    /// The currency reserve cannot cover what a seller is owed.
    InsufficientReserve,
    /// A checked reserve update would wrap.
    ArithmeticOverflow,
    /// The caller is not the pool's migration authority.
    UnauthorizedActor,
    /// A migration step was attempted outside the phase it requires.
    BadPhase,
    /// Migration was started before the supply cap was sold.
    CapNotReached,
}

} // verus!
