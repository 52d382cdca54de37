//! Named capability tokens and the request/response vocabulary two actors
//! use to hand one another delegated authority, together with the
//! deny-by-default authentication and authorization interfaces.

use vstd::prelude::*;
use crate::gate::PolicyError;

verus! {

/// A 128-bit unforgeable reference carried inside a named capability:
/// something that, one way or another, resolves to a mailbox that receives
/// and responds to the sender's messages.
#[derive(Clone, Copy, PartialEq, Eq, Structural, Debug)]
pub struct MyUniqueUnforgeableReference(pub u128);

/// A capability with a human-friendly name attached, as exchanged between
/// collaborating actors.
pub struct MyCapability {
    /// The unique unforgeable reference that represents this capability.
    pub uur: MyUniqueUnforgeableReference,
    /// A human-friendly name for this capability.
    pub name: String,
}

impl View for MyCapability {
    type V = (u128, Seq<char>);

    open spec fn view(&self) -> (u128, Seq<char>) {
        (self.uur.0, self.name@)
    }
}

impl Clone for MyCapability {
    fn clone(&self) -> (r: MyCapability)
        ensures
            r@ == self@,
    {
        MyCapability { uur: self.uur, name: self.name.clone() }
    }
}

/// What one actor asks of another when handing over or exercising a named
/// capability.
pub enum MyCapabilityRequest {
    /// Hand over a capability and ask to be introduced under the given name.
    IntroduceMe(MyCapability, String),
    /// Greet the peer, exercising the given capability.
    OhHaiBob(MyCapability),
}

/// The peer's answer to a capability request.
pub enum MyCapabilityResponse {
    /// The request carried no recognized authority.
    Unauthorized,
    /// The introduction succeeded: here is the capability to use.
    Introduction(MyCapability),
    /// The greeting was accepted.
    OhHaiCarol,
}

/// The two outcomes an authorization check can reach.
#[derive(Clone, Copy, PartialEq, Eq, Structural, Debug)]
pub enum AuthResult {
    /// The check refused.
    Deny,
    /// The check accepted.
    Allow,
}

/// How an actor requests a capability: deny-by-default, so an implementer
/// that leaves `request` alone grants nothing.
pub trait Authenticate {
    /// Ask for a capability to be granted. The default answer is a refusal.
    fn request() -> Result<bool, PolicyError> {
        Ok(false)
    }
}

/// How an actor exercises a capability: `subject` asks to use `verb` on
/// `object`. Deny-by-default, so an implementer that leaves `is_authorized`
/// alone allows nothing.
pub trait Authorize {
    /// Decide whether `subject` may use the capability `verb` held by
    /// `object`. The default answer is a refusal.
    fn is_authorized(
        subject: MyUniqueUnforgeableReference,
        verb: MyUniqueUnforgeableReference,
        object: MyUniqueUnforgeableReference,
    ) -> Result<bool, PolicyError> {
        Ok(false)
    }
}

} // verus!
