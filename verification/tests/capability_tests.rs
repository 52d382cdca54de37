use capability_core::address::{Address, AddressSet};
use capability_core::capability::{Action, Capability, UniqueUnforgeableReference};
use capability_core::codec::{decode_capability, encode_capability};
use capability_core::dispatch::{dispatch_batch, dispatch_message, ActorEndpoint, DeliveryOutcome};
use capability_core::gate::{AccessControlGate, GateKind, Message, MessageFlowAuthorization, PolicyError};
use capability_core::ledger::CapabilityAuthorization;

fn addr(name: &str) -> Address {
    Address::new(name.as_bytes().to_vec())
}

fn aset(names: &[&str]) -> AddressSet {
    let mut items = Vec::new();
    for n in names {
        items.push(addr(n));
    }
    AddressSet::new(items)
}

fn msg_to(names: &[&str]) -> Message {
    Message {
        destination: aset(names),
        return_route: aset(&["sender"]),
        payload: vec![1, 2, 3],
    }
}

#[test]
fn request_records_matching_entry() {
    let mut ledger = CapabilityAuthorization::new();
    let target = aset(&["app"]);
    let cap = ledger.request(Action::SendMessage, target.clone());
    assert_eq!(cap.action, Action::SendMessage);
    assert!(cap.address.equals(&target));
    let stored = ledger.issued_get(&target).expect("entry must exist");
    assert_eq!(stored.action, cap.action);
    assert!(stored.address.equals(&cap.address));
    assert_eq!(stored.uur, cap.uur);
}

#[test]
fn uur_generation_has_no_observed_collision() {
    let mut seen = std::collections::HashSet::new();
    for _ in 0..10_000 {
        let uur = UniqueUnforgeableReference::new();
        assert!(seen.insert(uur.0), "collision observed");
    }
}

#[test]
fn provision_records_equal_capability() {
    let mut alice = CapabilityAuthorization::new();
    let mut transport = CapabilityAuthorization::new();
    let target = aset(&["app"]);
    let cap = alice.request(Action::SendMessage, target.clone());
    transport.provision(cap.clone(), target.clone());
    let received = transport.received_get(&target).expect("entry must exist");
    assert_eq!(received.uur, cap.uur);
}

#[test]
fn reissue_overwrites_prior_entry() {
    let mut ledger = CapabilityAuthorization::new();
    let target = aset(&["app"]);
    let first = ledger.request(Action::SendMessage, target.clone());
    let second = ledger.request(Action::SendMessage, target.clone());
    let stored = ledger.issued_get(&target).expect("entry must exist");
    assert_eq!(stored.uur, second.uur);
    assert_ne!(stored.uur, first.uur);
}

#[test]
fn ledger_keys_ignore_element_order() {
    let mut ledger = CapabilityAuthorization::new();
    let key = aset(&["a", "b"]);
    let reordered = aset(&["b", "a"]);
    let cap = ledger.request(Action::SendMessage, key);
    let stored = ledger.issued_get(&reordered).expect("reordered key must match");
    assert_eq!(stored.uur, cap.uur);
}

#[test]
fn ledger_miss_yields_none() {
    let ledger = CapabilityAuthorization::new();
    assert!(ledger.issued_get(&aset(&["app"])).is_none());
    assert!(ledger.received_get(&aset(&["app"])).is_none());
}

#[test]
fn flow_gate_allows_member_denies_other() {
    let gate = MessageFlowAuthorization::new(aset(&["app"]));
    assert_eq!(gate.is_authorized(&msg_to(&["app"])), Ok(true));
    assert_eq!(gate.is_authorized(&msg_to(&["other"])), Ok(false));
}

#[test]
fn flow_gate_denies_empty_destination() {
    let gate = MessageFlowAuthorization::new(aset(&["app"]));
    assert_eq!(gate.is_authorized(&msg_to(&[])), Ok(false));
}

#[test]
fn flow_gate_requires_every_hop_allowed() {
    let gate = MessageFlowAuthorization::new(aset(&["app", "log"]));
    assert_eq!(gate.is_authorized(&msg_to(&["app", "log"])), Ok(true));
    assert_eq!(gate.is_authorized(&msg_to(&["app", "other"])), Ok(false));
}

#[test]
fn deny_all_gate_never_delivers() {
    let mut endpoint = ActorEndpoint::new(AccessControlGate::DenyAll);
    let mut audit = Vec::new();
    for _ in 0..100 {
        let outcome = endpoint.deliver(msg_to(&["app"]), &mut audit);
        assert_eq!(outcome, DeliveryOutcome::Dropped);
    }
    assert_eq!(endpoint.mailbox.len(), 0, "handler must never be invoked");
    assert_eq!(audit.len(), 100);
}

#[test]
fn faulted_batch_delivers_nothing() {
    let gate = AccessControlGate::Unavailable;
    let mut msgs = Vec::new();
    for _ in 0..20 {
        msgs.push(msg_to(&["app"]));
    }
    let mut mailbox = Vec::new();
    let mut audit = Vec::new();
    let outcomes = dispatch_batch(&gate, msgs, &mut mailbox, &mut audit);
    assert_eq!(outcomes.len(), 20);
    for o in outcomes {
        assert_eq!(o, DeliveryOutcome::Faulted);
    }
    assert_eq!(mailbox.len(), 0, "fail-closed: no delivery under fault");
    assert_eq!(audit.len(), 20);
}

#[test]
fn allow_all_gate_delivers_in_order() {
    let gate = AccessControlGate::AllowAll;
    let mut mailbox = Vec::new();
    let mut audit = Vec::new();
    let first = dispatch_message(&gate, msg_to(&["a"]), &mut mailbox, &mut audit);
    let second = dispatch_message(&gate, msg_to(&["b"]), &mut mailbox, &mut audit);
    assert_eq!(first, DeliveryOutcome::Delivered);
    assert_eq!(second, DeliveryOutcome::Delivered);
    assert_eq!(mailbox.len(), 2);
    assert!(mailbox[0].destination.equals(&aset(&["a"])));
    assert!(mailbox[1].destination.equals(&aset(&["b"])));
}

#[test]
fn flow_restricted_batch_filters_and_keeps_order() {
    let gate = AccessControlGate::FlowRestricted(MessageFlowAuthorization::new(aset(&["app"])));
    let msgs = vec![msg_to(&["app"]), msg_to(&["other"]), msg_to(&["app"])];
    let mut mailbox = Vec::new();
    let mut audit = Vec::new();
    let outcomes = dispatch_batch(&gate, msgs, &mut mailbox, &mut audit);
    assert_eq!(
        outcomes,
        vec![
            DeliveryOutcome::Delivered,
            DeliveryOutcome::Dropped,
            DeliveryOutcome::Delivered
        ]
    );
    assert_eq!(mailbox.len(), 2);
    assert_eq!(audit.len(), 3);
    assert_eq!(audit[1].policy, GateKind::FlowRestricted);
    assert_eq!(audit[1].outcome, DeliveryOutcome::Dropped);
    assert!(audit[1].destination.equals(&aset(&["other"])));
}

#[test]
fn set_access_control_replaces_gate() {
    let mut endpoint = ActorEndpoint::new(AccessControlGate::AllowAll);
    let mut audit = Vec::new();
    endpoint.deliver(msg_to(&["app"]), &mut audit);
    assert_eq!(endpoint.mailbox.len(), 1);
    endpoint.set_access_control(AccessControlGate::DenyAll);
    let outcome = endpoint.deliver(msg_to(&["app"]), &mut audit);
    assert_eq!(outcome, DeliveryOutcome::Dropped);
    assert_eq!(endpoint.mailbox.len(), 1, "the new gate decides");
}

#[test]
fn codec_round_trip_preserves_capability() {
    let cap = Capability {
        action: Action::SendMessage,
        address: aset(&["app", "log"]),
        uur: UniqueUnforgeableReference(0x0123_4567_89ab_cdef_fedc_ba98_7654_3210),
    };
    let bytes = encode_capability(&cap);
    let back = decode_capability(&bytes).expect("a fresh encoding must decode");
    assert_eq!(back.action, cap.action);
    assert!(back.address.equals(&cap.address));
    assert_eq!(back.uur, cap.uur);
}

#[test]
fn codec_round_trip_empty_address_set() {
    let cap = Capability {
        action: Action::SendMessage,
        address: aset(&[]),
        uur: UniqueUnforgeableReference(u128::MAX),
    };
    let bytes = encode_capability(&cap);
    assert_eq!(bytes.len(), 25);
    let back = decode_capability(&bytes).expect("a fresh encoding must decode");
    assert_eq!(back.uur.0, u128::MAX);
    assert_eq!(back.address.len(), 0);
}

#[test]
fn decode_rejects_malformed_bytes() {
    assert!(decode_capability(&vec![]).is_none());
    assert!(decode_capability(&vec![0u8; 24]).is_none());
    let mut bad_tag = encode_capability(&Capability {
        action: Action::SendMessage,
        address: aset(&["app"]),
        uur: UniqueUnforgeableReference(7),
    });
    bad_tag[0] = 9;
    assert!(decode_capability(&bad_tag).is_none());
    let mut truncated = encode_capability(&Capability {
        action: Action::SendMessage,
        address: aset(&["app"]),
        uur: UniqueUnforgeableReference(7),
    });
    truncated.pop();
    assert!(decode_capability(&truncated).is_none());
    let mut padded = encode_capability(&Capability {
        action: Action::SendMessage,
        address: aset(&["app"]),
        uur: UniqueUnforgeableReference(7),
    });
    padded.push(0);
    assert!(decode_capability(&padded).is_none());
}

#[test]
fn encoding_is_the_documented_layout() {
    let cap = Capability {
        action: Action::SendMessage,
        address: aset(&["ab"]),
        uur: UniqueUnforgeableReference(0x0102),
    };
    let bytes = encode_capability(&cap);
    assert_eq!(bytes.len(), 1 + 16 + 8 + 8 + 2);
    assert_eq!(bytes[0], 0);
    assert_eq!(&bytes[1..15], &[0u8; 14]);
    assert_eq!(bytes[15], 1);
    assert_eq!(bytes[16], 2);
    assert_eq!(&bytes[17..25], &[0, 0, 0, 0, 0, 0, 0, 1]);
    assert_eq!(&bytes[25..33], &[0, 0, 0, 0, 0, 0, 0, 2]);
    assert_eq!(&bytes[33..35], b"ab");
}

#[test]
fn address_set_equality_is_order_insensitive() {
    let a = aset(&["x", "y"]);
    let b = aset(&["y", "x"]);
    let c = aset(&["x", "z"]);
    assert!(a.same_set(&b));
    assert!(!a.same_set(&c));
    assert!(!a.equals(&b), "order-sensitive comparison still sees the order");
    assert!(a.contains(&addr("y")));
    assert!(!a.contains(&addr("z")));
}

#[test]
fn unavailable_gate_reports_evaluation_failure() {
    let gate = AccessControlGate::Unavailable;
    assert_eq!(
        gate.is_authorized(&msg_to(&["app"])),
        Err(PolicyError::EvaluationFailure)
    );
}
