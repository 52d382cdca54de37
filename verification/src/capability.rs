//! Capability tokens: the unforgeable reference, the action it authorizes,
//! and the immutable capability value binding the two to an address set.

use vstd::prelude::*;
use crate::address::AddressSet;

verus! {

/// Draws one value from the process-wide random generator.
///
/// Relies on `rand::random::<u128>()`: it samples the thread-local generator,
/// which the crate documents as cryptographically secure. Nothing is promised
/// of the value itself; two calls may return anything.
#[verifier::external_body]
fn random_u128() -> u128 {
    rand::random::<u128>()
}

/// A 128-bit token drawn from a cryptographically secure random source; the
/// atomic unit of unforgeability. Copied by value, never mutated; equality is
/// exact value comparison.
#[derive(Clone, Copy, PartialEq, Eq, Structural, Debug)]
pub struct UniqueUnforgeableReference(pub u128);

impl UniqueUnforgeableReference {
    /// Mint a fresh token from the secure random source.
    ///
    /// No two independently generated tokens are assumed equal, but that is a
    /// statistical matter of the source: nothing is stated of the value here.
    pub fn new() -> UniqueUnforgeableReference {
        UniqueUnforgeableReference(random_u128())
    }
}

/// The closed, extensible enumeration of operations a capability can
/// authorize.
#[derive(Clone, Copy, PartialEq, Eq, Structural, Debug)]
pub enum Action {
    /// The holder may send a message to the capability's address.
    SendMessage,
}

/// What a `Capability` denotes: its action, the element sequence of its
/// address set, and its token value.
pub type CapabilityView = (Action, Seq<Seq<u8>>, u128);

/// An immutable value asserting that its holder may perform `action` toward
/// `address`, identified by the unforgeable reference `uur`.
///
/// Cloning a capability is a value copy: a clone grants nothing beyond what
/// it already encodes.
pub struct Capability {
    /// The operation this capability authorizes.
    pub action: Action,
    /// The address set this capability is valid for.
    pub address: AddressSet,
    /// The unique unforgeable reference that identifies this capability.
    pub uur: UniqueUnforgeableReference,
}

impl View for Capability {
    type V = CapabilityView;

    open spec fn view(&self) -> CapabilityView {
        (self.action, self.address@, self.uur.0)
    }
}

impl Clone for Capability {
    fn clone(&self) -> (r: Capability)
        ensures
            r@ == self@,
    {
        Capability { action: self.action, address: self.address.clone(), uur: self.uur }
    }
}

} // verus!
