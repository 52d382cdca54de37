//! Access-control gates: the pluggable policies evaluated once per inbound
//! message, just before it is handed to its destination's handler.

use vstd::prelude::*;
use crate::address::AddressSet;

verus! {

/// Why a gate could not reach a decision. Distinct from a deny: a deny is an
/// answer, an error is the absence of one, and dispatch treats it fail-closed.
#[derive(Clone, Copy, PartialEq, Eq, Structural, Debug)]
pub enum PolicyError {
    /// The policy could not be evaluated, e.g. a backing store was
    /// unreachable.
    EvaluationFailure,
}

/// The per-message record a gate reads at the delivery boundary: the
/// destination, the route a reply would take, and the opaque payload.
/// A gate reads the message; it never changes it.
pub struct Message {
    /// The address set the message is destined for.
    pub destination: AddressSet,
    /// The route back to the sender.
    pub return_route: AddressSet,
    /// The opaque payload bytes.
    pub payload: Vec<u8>,
}

impl View for Message {
    type V = (Seq<Seq<u8>>, Seq<Seq<u8>>, Seq<u8>);

    open spec fn view(&self) -> (Seq<Seq<u8>>, Seq<Seq<u8>>, Seq<u8>) {
        (self.destination@, self.return_route@, self.payload@)
    }
}

impl Clone for Message {
    fn clone(&self) -> (r: Message)
        ensures
            r@ == self@,
    {
        let mut payload: Vec<u8> = Vec::new();
        let mut i: usize = 0;
        while i < self.payload.len()
            invariant
                i <= self.payload@.len(),
                payload@ =~= self.payload@.take(i as int),
            decreases self.payload@.len() - i,
        {
            payload.push(self.payload[i]);
            i += 1;
        }
        proof {
            assert(payload@ =~= self.payload@);
        }
        Message {
            destination: self.destination.clone(),
            return_route: self.return_route.clone(),
            payload,
        }
    }
}

/// Whether a flow-restricted gate with allow-list `allowed` lets a message
/// with destination `dest` through: the destination must name at least one
/// address, and every address it names must be in the allow-list. An empty
/// destination has no member to check and is denied, never allowed.
pub open spec fn flow_allows(allowed: Set<Seq<u8>>, dest: Seq<Seq<u8>>) -> bool {
    &&& dest.len() > 0
    &&& forall|i: int| 0 <= i < dest.len() ==> allowed.contains(dest[i])
}

/// The flow-restricted gate: configured with an allowed `AddressSet`, it
/// allows a message exactly when the destination is within that set.
pub struct MessageFlowAuthorization {
    /// The allow-list this gate was configured with.
    pub address_set: AddressSet,
}

impl MessageFlowAuthorization {
    /// Configure a gate with the given allow-list.
    pub fn new(address_set: AddressSet) -> (r: MessageFlowAuthorization)
        ensures
            r.address_set@ == address_set@,
    {
        MessageFlowAuthorization { address_set }
    }

    /// Decide the message: `Ok(true)` iff every address the destination
    /// names is in the allow-list and there is at least one; `Ok(false)`
    /// otherwise. Evaluation is local and never fails.
    pub fn is_authorized(&self, local_msg: &Message) -> (r: Result<bool, PolicyError>)
        ensures
            r == Result::<bool, PolicyError>::Ok(
                flow_allows(self.address_set.as_set(), local_msg.destination@),
            ),
    {
        let n = local_msg.destination.len();
        if n == 0 {
            return Ok(false);
        }
        let mut i: usize = 0;
        while i < n
            invariant
                n == local_msg.destination@.len(),
                i <= n,
                forall|j: int|
                    0 <= j < i ==> self.address_set.as_set().contains(local_msg.destination@[j]),
            decreases n - i,
        {
            let addr = local_msg.destination.get(i);
            if !self.address_set.contains(addr) {
                return Ok(false);
            }
            i += 1;
        }
        Ok(true)
    }
}

/// The kind of gate that made a decision, recorded for auditing.
#[derive(Clone, Copy, PartialEq, Eq, Structural, Debug)]
pub enum GateKind {
    /// The diagnostic gate that allows everything.
    AllowAll,
    /// The policy that denies everything.
    DenyAll,
    /// A flow-restricted gate with an allow-list.
    FlowRestricted,
    /// A gate whose backing policy store cannot be reached.
    Unavailable,
}

/// A pluggable access-control policy. Exactly one gate is configured per
/// actor at any time; dispatch invokes it once per inbound message.
pub enum AccessControlGate {
    /// The default diagnostic policy: every message is allowed.
    AllowAll,
    /// Every message is denied.
    DenyAll,
    /// Only messages whose destination lies within the configured allow-list
    /// are allowed.
    FlowRestricted(MessageFlowAuthorization),
    /// The backing policy store is unreachable: every evaluation fails, and
    /// dispatch treats the failure fail-closed.
    Unavailable,
}

impl AccessControlGate {
    /// What this gate answers for a message with destination `dest`.
    pub open spec fn spec_decision(&self, dest: Seq<Seq<u8>>) -> Result<bool, PolicyError> {
        match self {
            AccessControlGate::AllowAll => Ok(true),
            AccessControlGate::DenyAll => Ok(false),
            AccessControlGate::FlowRestricted(g) => Ok(flow_allows(g.address_set.as_set(), dest)),
            AccessControlGate::Unavailable => Err(PolicyError::EvaluationFailure),
        }
    }

    /// The kind of this gate, for audit records.
    pub fn kind(&self) -> (r: GateKind)
        ensures
            r == self.spec_kind(),
    {
        match self {
            AccessControlGate::AllowAll => GateKind::AllowAll,
            AccessControlGate::DenyAll => GateKind::DenyAll,
            AccessControlGate::FlowRestricted(_) => GateKind::FlowRestricted,
            AccessControlGate::Unavailable => GateKind::Unavailable,
        }
    }

    /// The kind of this gate.
    pub open spec fn spec_kind(&self) -> GateKind {
        match self {
            AccessControlGate::AllowAll => GateKind::AllowAll,
            AccessControlGate::DenyAll => GateKind::DenyAll,
            AccessControlGate::FlowRestricted(_) => GateKind::FlowRestricted,
            AccessControlGate::Unavailable => GateKind::Unavailable,
        }
    }

    /// Evaluate this gate on one message: exactly `spec_decision` of the
    /// message's destination. The message is only read.
    pub fn is_authorized(&self, local_msg: &Message) -> (r: Result<bool, PolicyError>)
        ensures
            r == self.spec_decision(local_msg.destination@),
    {
        match self {
            AccessControlGate::AllowAll => Ok(true),
            AccessControlGate::DenyAll => Ok(false),
            AccessControlGate::FlowRestricted(g) => g.is_authorized(local_msg),
            AccessControlGate::Unavailable => Err(PolicyError::EvaluationFailure),
        }
    }
}

} // verus!
