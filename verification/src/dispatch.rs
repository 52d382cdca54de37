//! The delivery boundary: every inbound message passes its destination
//! actor's gate exactly once and reaches exactly one terminal state —
//! delivered into the mailbox, dropped, or faulted. A gate error is treated
//! fail-closed: the message is never delivered.

use vstd::prelude::*;
use crate::address::AddressSet;
use crate::gate::{AccessControlGate, GateKind, Message};

verus! {

/// The terminal state one message reaches at the delivery boundary.
#[derive(Clone, Copy, PartialEq, Eq, Structural, Debug)]
pub enum DeliveryOutcome {
    /// The policy answered allow: the message was pushed into the mailbox.
    Delivered,
    /// The policy answered deny: the message was discarded, the sender is not
    /// told.
    Dropped,
    /// The policy could not be evaluated: the message was discarded,
    /// fail-closed, and the fault recorded.
    Faulted,
}

/// One line of the injected observability sink: which destination was
/// decided by which policy, and how it ended.
pub struct AuditRecord {
    /// The destination of the message that was decided.
    pub destination: AddressSet,
    /// The kind of gate that decided.
    pub policy: GateKind,
    /// The terminal state the message reached.
    pub outcome: DeliveryOutcome,
}

/// The terminal state `gate` sends a message with destination `dest` to.
pub open spec fn spec_outcome(gate: &AccessControlGate, dest: Seq<Seq<u8>>) -> DeliveryOutcome {
    match gate.spec_decision(dest) {
        Ok(true) => DeliveryOutcome::Delivered,
        Ok(false) => DeliveryOutcome::Dropped,
        Err(_) => DeliveryOutcome::Faulted,
    }
}

/// The subsequence of `msgs` that `gate` delivers, in the order given:
/// what a batch dispatch appends to the mailbox.
pub open spec fn delivered_of(gate: &AccessControlGate, msgs: Seq<Message>) -> Seq<Message>
    decreases msgs.len(),
{
    if msgs.len() == 0 {
        Seq::empty()
    } else {
        delivered_of(gate, msgs.drop_last()) + (if spec_outcome(gate, msgs.last().destination@)
            == DeliveryOutcome::Delivered {
            seq![msgs.last()]
        } else {
            Seq::empty()
        })
    }
}

/// Pass one message through `gate` at the delivery boundary.
///
/// Exactly one terminal state is reached: the message is appended to
/// `mailbox` iff the policy answers allow; on deny or on an evaluation error
/// the mailbox is untouched. One audit record is appended either way, naming
/// the destination, the policy and the outcome.
pub fn dispatch_message(
    gate: &AccessControlGate,
    msg: Message,
    mailbox: &mut Vec<Message>,
    audit: &mut Vec<AuditRecord>,
) -> (outcome: DeliveryOutcome)
    ensures
        outcome == spec_outcome(gate, msg.destination@),
        final(mailbox)@ == (if outcome == DeliveryOutcome::Delivered {
            old(mailbox)@.push(msg)
        } else {
            old(mailbox)@
        }),
        final(audit)@.len() == old(audit)@.len() + 1,
        forall|i: int| 0 <= i < old(audit)@.len() ==> final(audit)@[i] == old(audit)@[i],
        final(audit)@.last().destination@ == msg.destination@,
        final(audit)@.last().policy == gate.spec_kind(),
        final(audit)@.last().outcome == outcome,
{
    let destination = msg.destination.clone();
    let policy = gate.kind();
    let outcome = match gate.is_authorized(&msg) {
        Ok(true) => {
            mailbox.push(msg);
            DeliveryOutcome::Delivered
        },
        Ok(false) => DeliveryOutcome::Dropped,
        Err(_) => DeliveryOutcome::Faulted,
    };
    audit.push(AuditRecord { destination, policy, outcome });
    outcome
}

/// Pass a batch of messages destined to one actor through its gate, first
/// to last: messages are evaluated and, when allowed, delivered in the order
/// received (FIFO per destination actor).
///
/// The mailbox grows by exactly the allowed messages, in order; every
/// message gets its outcome and its audit record.
pub fn dispatch_batch(
    gate: &AccessControlGate,
    msgs: Vec<Message>,
    mailbox: &mut Vec<Message>,
    audit: &mut Vec<AuditRecord>,
) -> (outcomes: Vec<DeliveryOutcome>)
    ensures
        outcomes@.len() == msgs@.len(),
        forall|i: int|
            0 <= i < msgs@.len() ==> outcomes@[i] == spec_outcome(gate, msgs@[i].destination@),
        final(mailbox)@ == old(mailbox)@ + delivered_of(gate, msgs@),
        final(audit)@.len() == old(audit)@.len() + msgs@.len(),
        forall|i: int| 0 <= i < old(audit)@.len() ==> final(audit)@[i] == old(audit)@[i],
        forall|i: int|
            0 <= i < msgs@.len() ==> {
                &&& final(audit)@[old(audit)@.len() + i].destination@ == msgs@[i].destination@
                &&& final(audit)@[old(audit)@.len() + i].policy == gate.spec_kind()
                &&& final(audit)@[old(audit)@.len() + i].outcome == spec_outcome(
                    gate,
                    msgs@[i].destination@,
                )
            },
{
    let ghost orig = msgs@;
    let ghost mailbox0 = old(mailbox)@;
    let ghost audit0 = old(audit)@;
    let mut rest = msgs;
    let mut outcomes: Vec<DeliveryOutcome> = Vec::new();
    let mut i: usize = 0;
    let total = rest.len();
    proof {
        assert(orig.len() == total);
    }
    while rest.len() > 0
        invariant
            orig.len() <= usize::MAX,
            i + rest@.len() == orig.len(),
            rest@ == orig.subrange(i as int, orig.len() as int),
            outcomes@.len() == i,
            forall|j: int| 0 <= j < i ==> outcomes@[j] == spec_outcome(gate, orig[j].destination@),
            mailbox@ == mailbox0 + delivered_of(gate, orig.take(i as int)),
            audit@.len() == audit0.len() + i,
            forall|j: int| 0 <= j < audit0.len() ==> audit@[j] == audit0[j],
            forall|j: int|
                0 <= j < i ==> {
                    &&& audit@[audit0.len() + j].destination@ == orig[j].destination@
                    &&& audit@[audit0.len() + j].policy == gate.spec_kind()
                    &&& audit@[audit0.len() + j].outcome == spec_outcome(
                        gate,
                        orig[j].destination@,
                    )
                },
        decreases rest@.len(),
    {
        let msg = rest.remove(0);
        proof {
            assert(msg == orig[i as int]);
            assert(rest@ =~= orig.subrange(i as int + 1, orig.len() as int));
        }
        let outcome = dispatch_message(gate, msg, mailbox, audit);
        outcomes.push(outcome);
        proof {
            let taken = orig.take(i as int + 1);
            assert(taken.drop_last() =~= orig.take(i as int));
            assert(taken.last() == orig[i as int]);
            assert(mailbox@ =~= mailbox0 + delivered_of(gate, taken));
        }
        i += 1;
    }
    proof {
        assert(orig.take(orig.len() as int) =~= orig);
    }
    outcomes
}

/// A deny-all gate delivers nothing: for any batch of messages, the
/// subsequence let into a mailbox is empty, so the destination
/// actor's handler is never invoked.
pub proof fn lemma_deny_all_delivers_nothing(msgs: Seq<Message>)
    ensures
        delivered_of(&AccessControlGate::DenyAll, msgs).len() == 0,
    decreases msgs.len(),
{
    if msgs.len() > 0 {
        lemma_deny_all_delivers_nothing(msgs.drop_last());
    }
}

/// Fail-closed under fault: when the policy answers an evaluation error for
/// every message of a batch, every message faults and none is delivered —
/// ambiguity about authorization never resolves to delivery.
pub proof fn lemma_fail_closed(gate: &AccessControlGate, msgs: Seq<Message>)
    requires
        forall|i: int| 0 <= i < msgs.len() ==> gate.spec_decision(msgs[i].destination@) is Err,
    ensures
        delivered_of(gate, msgs).len() == 0,
        forall|i: int|
            0 <= i < msgs.len() ==> spec_outcome(gate, msgs[i].destination@)
                == DeliveryOutcome::Faulted,
    decreases msgs.len(),
{
    if msgs.len() > 0 {
        lemma_fail_closed(gate, msgs.drop_last());
        assert(msgs.drop_last() =~= msgs.subrange(0, msgs.len() - 1));
    }
}

/// One actor's end of the runtime: the single gate configured for it and the
/// mailbox its handler reads. Exactly one gate is configured at any time.
pub struct ActorEndpoint {
    /// The policy currently configured; dispatch consults it per message.
    pub gate: AccessControlGate,
    /// Messages that were allowed through, in arrival order, awaiting the
    /// handler.
    pub mailbox: Vec<Message>,
}

impl ActorEndpoint {
    /// An endpoint with the given initial gate and an empty mailbox.
    pub fn new(gate: AccessControlGate) -> (r: ActorEndpoint)
        ensures
            r.gate == gate,
            r.mailbox@ =~= Seq::<Message>::empty(),
    {
        ActorEndpoint { gate, mailbox: Vec::new() }
    }

    /// Replace the configured gate: last set wins, no stacking. The mailbox
    /// is untouched.
    pub fn set_access_control(&mut self, gate: AccessControlGate)
        ensures
            final(self).gate == gate,
            final(self).mailbox == old(self).mailbox,
    {
        self.gate = gate;
    }

    /// Pass one inbound message through this actor's configured gate,
    /// as `dispatch_message` does.
    pub fn deliver(&mut self, msg: Message, audit: &mut Vec<AuditRecord>) -> (outcome:
        DeliveryOutcome)
        ensures
            final(self).gate == old(self).gate,
            outcome == spec_outcome(&old(self).gate, msg.destination@),
            final(self).mailbox@ == (if outcome == DeliveryOutcome::Delivered {
                old(self).mailbox@.push(msg)
            } else {
                old(self).mailbox@
            }),
            final(audit)@.len() == old(audit)@.len() + 1,
            forall|i: int| 0 <= i < old(audit)@.len() ==> final(audit)@[i] == old(audit)@[i],
            final(audit)@.last().destination@ == msg.destination@,
            final(audit)@.last().policy == old(self).gate.spec_kind(),
            final(audit)@.last().outcome == outcome,
    {
        dispatch_message(&self.gate, msg, &mut self.mailbox, audit)
    }
}

} // verus!
