//! Errors of the library.

use vstd::prelude::*;

use crate::address::Address;

verus! {

/// What can go wrong while setting up a pool source.
#[derive(Clone, Copy, Debug, PartialEq, Eq, Structural)]
pub enum SourceError {
    /// No subgraph deployment is known for the chain.
    UnsupportedChain(u64),
    /// The listed pool does not report its first token.
    MissingToken0(Address),
    /// The listed pool does not report its second token.
    MissingToken1(Address),
    /// The listed pool reports the same token twice.
    SameTokens(Address),
}

} // verus!
