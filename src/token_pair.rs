//! Unordered pairs of two distinct token addresses.

use vstd::prelude::*;

use crate::address::{lemma_value_order, Address};

verus! {

/// An ERC20 token pair: two distinct addresses, the lower one first, so that
/// a pair built from either order is the same value.
#[derive(Clone, Copy, Debug, PartialEq, Eq, Structural, Hash, PartialOrd, Ord)]
pub struct TokenPair(pub(crate) Address, pub(crate) Address);

impl TokenPair {
    /// The lower address.
    pub open(crate) spec fn first(self) -> Address {
        self.0
    }

    /// The higher address.
    pub open(crate) spec fn second(self) -> Address {
        self.1
    }

    /// Every pair holds two distinct addresses, the lower first.
    pub open(crate) spec fn wf(self) -> bool {
        self.0.value() < self.1.value()
    }

    /// The pair of `a` and `b`, lower address first; `None` where they are
    /// equal.
    pub open(crate) spec fn spec_new(a: Address, b: Address) -> Option<TokenPair> {
        if a.value() < b.value() {
            Some(TokenPair(a, b))
        } else if b.value() < a.value() {
            Some(TokenPair(b, a))
        } else {
            None
        }
    }

    /// Whether `token` is one of the two.
    pub open(crate) spec fn spec_contains(self, token: Address) -> bool {
        self.0 == token || self.1 == token
    }

    /// The pair made of `token_a` and `token_b`, or `None` where they are
    /// equal.
    pub fn new(token_a: Address, token_b: Address) -> (r: Option<TokenPair>)
        ensures
            r == TokenPair::spec_new(token_a, token_b),
            token_a == token_b <==> r is None,
            r matches Some(p) ==> p.wf() && p.spec_contains(token_a) && p.spec_contains(token_b),
    {
        proof {
            lemma_value_order(token_a, token_b);
        }
        if token_a.lt(&token_b) {
            Some(TokenPair(token_a, token_b))
        } else if token_b.lt(&token_a) {
            Some(TokenPair(token_b, token_a))
        } else {
            None
        }
    }

    /// Whether `token` is among the pair.
    pub fn contains(&self, token: &Address) -> (r: bool)
        ensures
            r == self.spec_contains(*token),
    {
        self.0 == *token || self.1 == *token
    }

    /// The member of the pair that is not `token`, or `None` where `token` is
    /// not in the pair.
    pub fn other(&self, token: &Address) -> (r: Option<Address>)
        ensures
            self.first() == *token ==> r == Some(self.second()),
            self.first() != *token && self.second() == *token ==> r == Some(self.first()),
            !self.spec_contains(*token) ==> r is None,
    {
        if self.0 == *token {
            Some(self.1)
        } else if self.1 == *token {
            Some(self.0)
        } else {
            None
        }
    }

    /// The two addresses, the lower one first.
    pub fn get(&self) -> (r: (Address, Address))
        ensures
            r == (self.first(), self.second()),
    {
        (self.0, self.1)
    }

    /// The two addresses as a vector, the lower one first.
    pub fn tokens(&self) -> (r: Vec<Address>)
        ensures
            r@ == seq![self.first(), self.second()],
    {
        let mut r: Vec<Address> = Vec::new();
        r.push(self.0);
        r.push(self.1);
        r
    }

    /// The least pair in the order of pairs: the addresses zero and one.
    pub fn first_ord() -> (r: TokenPair)
        ensures
            r.wf(),
            r.first().value() == 0,
            r.second().value() == 1,
    {
        TokenPair(Address::from_low_u64_be(0), Address::from_low_u64_be(1))
    }
}

/// A pair does not depend on the order of its two addresses, and two equal
/// addresses make no pair.
pub proof fn lemma_pair_order_independent(a: Address, b: Address)
    ensures
        TokenPair::spec_new(a, b) == TokenPair::spec_new(b, a),
        TokenPair::spec_new(a, a) is None,
{
}

} // verus!
