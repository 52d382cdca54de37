//! The per-actor capability ledger: two maps, `issued` and `received`, both
//! keyed by the order-independent reading of an `AddressSet`, each holding at
//! most one capability per key (last write wins).

use vstd::prelude::*;
use crate::address::AddressSet;
use crate::capability::{Action, Capability, CapabilityView, UniqueUnforgeableReference};

verus! {

/// One ledger entry: the address set a capability was recorded under,
/// and the capability itself.
pub type LedgerEntry = (AddressSet, Capability);

/// The key an entry is filed under: the order-independent reading of its
/// address set.
pub open spec fn entry_key(e: LedgerEntry) -> Set<Seq<u8>> {
    e.0.as_set()
}

/// What a sequence of entries maps `key` to: the value of the first entry
/// whose key matches, or nothing. The ledger keeps keys distinct, so at most
/// one entry can match.
pub open spec fn lookup(entries: Seq<LedgerEntry>, key: Set<Seq<u8>>) -> Option<CapabilityView>
    decreases entries.len(),
{
    if entries.len() == 0 {
        None
    } else if entry_key(entries[0]) == key {
        Some(entries[0].1@)
    } else {
        lookup(entries.subrange(1, entries.len() as int), key)
    }
}

/// No two entries are filed under the same key.
pub open spec fn distinct_keys(entries: Seq<LedgerEntry>) -> bool {
    forall|i: int, j: int|
        0 <= i < j < entries.len() ==> entry_key(entries[i]) != entry_key(entries[j])
}

proof fn lemma_lookup_skip(entries: Seq<LedgerEntry>, key: Set<Seq<u8>>, i: int)
    requires
        0 <= i <= entries.len(),
        forall|j: int| 0 <= j < i ==> entry_key(entries[j]) != key,
    ensures
        lookup(entries, key) == lookup(entries.subrange(i, entries.len() as int), key),
    decreases i,
{
    if i > 0 {
        let tail = entries.subrange(1, entries.len() as int);
        lemma_lookup_skip(tail, key, i - 1);
        assert(tail.subrange(i - 1, tail.len() as int) =~= entries.subrange(
            i,
            entries.len() as int,
        ));
    } else {
        assert(entries.subrange(0, entries.len() as int) =~= entries);
    }
}

proof fn lemma_lookup_none(entries: Seq<LedgerEntry>, key: Set<Seq<u8>>)
    requires
        forall|j: int| 0 <= j < entries.len() ==> entry_key(entries[j]) != key,
    ensures
        lookup(entries, key) is None,
{
    lemma_lookup_skip(entries, key, entries.len() as int);
    assert(entries.subrange(entries.len() as int, entries.len() as int) =~= Seq::<
        LedgerEntry,
    >::empty());
}

proof fn lemma_lookup_push(entries: Seq<LedgerEntry>, e: LedgerEntry, key: Set<Seq<u8>>)
    ensures
        lookup(entries.push(e), key) == (if lookup(entries, key) is Some {
            lookup(entries, key)
        } else if entry_key(e) == key {
            Some(e.1@)
        } else {
            None
        }),
    decreases entries.len(),
{
    let pushed = entries.push(e);
    if entries.len() == 0 {
        assert(pushed[0] == e);
        assert(lookup(entries, key) is None);
        if entry_key(e) == key {
            assert(lookup(pushed, key) == Some(e.1@));
        } else {
            assert(pushed.subrange(1, pushed.len() as int) =~= Seq::<LedgerEntry>::empty());
            assert(lookup(Seq::<LedgerEntry>::empty(), key) is None);
            assert(lookup(pushed, key) is None);
        }
    } else {
        assert(pushed[0] == entries[0]);
        if entry_key(entries[0]) == key {
            assert(lookup(pushed, key) == Some(entries[0].1@));
            assert(lookup(entries, key) == Some(entries[0].1@));
        } else {
            let tail = entries.subrange(1, entries.len() as int);
            lemma_lookup_push(tail, e, key);
            assert(pushed.subrange(1, pushed.len() as int) =~= tail.push(e));
            assert(lookup(pushed, key) == lookup(tail.push(e), key));
            assert(lookup(entries, key) == lookup(tail, key));
        }
    }
}

proof fn lemma_lookup_update_hit(entries: Seq<LedgerEntry>, i: int, e: LedgerEntry)
    requires
        0 <= i < entries.len(),
        entry_key(entries[i]) == entry_key(e),
        forall|j: int| 0 <= j < i ==> entry_key(entries[j]) != entry_key(e),
    ensures
        lookup(entries.update(i, e), entry_key(e)) == Some(e.1@),
    decreases i,
{
    let updated = entries.update(i, e);
    if i == 0 {
        assert(updated[0] == e);
    } else {
        assert(updated[0] == entries[0]);
        let tail = entries.subrange(1, entries.len() as int);
        assert(updated.subrange(1, updated.len() as int) =~= tail.update(i - 1, e));
        lemma_lookup_update_hit(tail, i - 1, e);
    }
}

proof fn lemma_lookup_update_other(
    entries: Seq<LedgerEntry>,
    i: int,
    e: LedgerEntry,
    key: Set<Seq<u8>>,
)
    requires
        0 <= i < entries.len(),
        entry_key(entries[i]) == entry_key(e),
        key != entry_key(e),
    ensures
        lookup(entries.update(i, e), key) == lookup(entries, key),
    decreases entries.len(),
{
    let updated = entries.update(i, e);
    let tail = entries.subrange(1, entries.len() as int);
    if i == 0 {
        assert(updated[0] == e);
        assert(updated.subrange(1, updated.len() as int) =~= tail);
    } else {
        assert(updated[0] == entries[0]);
        assert(updated.subrange(1, updated.len() as int) =~= tail.update(i - 1, e));
        if entry_key(entries[0]) != key {
            lemma_lookup_update_other(tail, i - 1, e, key);
        }
    }
}

/// Record `cap` under the key of `address` in `entries`: replace the one
/// matching entry, or append a new one. Keys stay distinct; the mapping for
/// every other key is untouched.
fn upsert(entries: &mut Vec<LedgerEntry>, address: AddressSet, cap: Capability)
    requires
        distinct_keys(old(entries)@),
    ensures
        distinct_keys(final(entries)@),
        lookup(final(entries)@, address.as_set()) == Some(cap@),
        forall|k: Set<Seq<u8>>|
            k != address.as_set() ==> lookup(final(entries)@, k) == lookup(old(entries)@, k),
{
    let ghost orig = entries@;
    let mut i: usize = 0;
    while i < entries.len()
        invariant
            entries@ == orig,
            orig == old(entries)@,
            distinct_keys(orig),
            i <= orig.len(),
            forall|j: int| 0 <= j < i ==> entry_key(orig[j]) != address.as_set(),
        decreases orig.len() - i,
    {
        if entries[i].0.same_set(&address) {
            let e = (address, cap);
            proof {
                assert(entry_key(e) == entry_key(orig[i as int]));
            }
            entries[i] = e;
            proof {
                assert(e.0 == address);
                assert(entry_key(e) == address.as_set());
                assert(entries@ =~= orig.update(i as int, e));
                lemma_lookup_update_hit(orig, i as int, e);
                assert forall|k: Set<Seq<u8>>| k != address.as_set() implies lookup(entries@, k)
                    == lookup(orig, k) by {
                    lemma_lookup_update_other(orig, i as int, e, k);
                }
                assert forall|p: int, q: int|
                    0 <= p < q < entries@.len() implies entry_key(entries@[p]) != entry_key(
                    entries@[q],
                ) by {
                    assert(entry_key(entries@[p]) == entry_key(orig[p]));
                    assert(entry_key(entries@[q]) == entry_key(orig[q]));
                }
            }
            return;
        }
        i += 1;
    }
    let e = (address, cap);
    entries.push(e);
    proof {
        lemma_lookup_none(orig, entry_key(e));
        lemma_lookup_push(orig, e, entry_key(e));
        assert forall|k: Set<Seq<u8>>| k != entry_key(e) implies lookup(entries@, k) == lookup(
            orig,
            k,
        ) by {
            lemma_lookup_push(orig, e, k);
        }
        assert forall|p: int, q: int|
            0 <= p < q < entries@.len() implies entry_key(entries@[p]) != entry_key(
            entries@[q],
        ) by {
            if q < orig.len() {
            } else {
                assert(entries@[q] == e);
                assert(entry_key(orig[p]) != entry_key(e));
            }
        }
    }
}

/// Find what `entries` maps the key of `address` to, handing back a copy of
/// the capability.
fn find(entries: &Vec<LedgerEntry>, address: &AddressSet) -> (r: Option<Capability>)
    ensures
        match r {
            Some(c) => lookup(entries@, address.as_set()) == Some(c@),
            None => lookup(entries@, address.as_set()) is None,
        },
{
    let mut i: usize = 0;
    while i < entries.len()
        invariant
            i <= entries@.len(),
            forall|j: int| 0 <= j < i ==> entry_key(entries@[j]) != address.as_set(),
        decreases entries@.len() - i,
    {
        if entries[i].0.same_set(address) {
            let c = entries[i].1.clone();
            proof {
                lemma_lookup_skip(entries@, address.as_set(), i as int);
                assert(entries@.subrange(i as int, entries@.len() as int)[0] == entries@[i as int]);
            }
            return Some(c);
        }
        i += 1;
    }
    proof {
        lemma_lookup_none(entries@, address.as_set());
    }
    None
}

/// The per-actor delegation bookkeeping: capabilities this context has
/// issued, and capabilities it has received, each keyed by address set.
///
/// A ledger is exclusively owned by the actor it belongs to and lives exactly
/// as long as that actor; nothing is persisted.
pub struct CapabilityAuthorization {
    issued: Vec<LedgerEntry>,
    received: Vec<LedgerEntry>,
}

impl CapabilityAuthorization {
    /// Both maps hold at most one capability per key.
    pub closed spec fn wf(&self) -> bool {
        distinct_keys(self.issued@) && distinct_keys(self.received@)
    }

    /// What the `issued` map holds for `key`.
    pub closed spec fn spec_issued(&self, key: Set<Seq<u8>>) -> Option<CapabilityView> {
        lookup(self.issued@, key)
    }

    /// What the `received` map holds for `key`.
    pub closed spec fn spec_received(&self, key: Set<Seq<u8>>) -> Option<CapabilityView> {
        lookup(self.received@, key)
    }

    /// A fresh ledger: both maps empty.
    pub fn new() -> (r: CapabilityAuthorization)
        ensures
            r.wf(),
            forall|k: Set<Seq<u8>>| r.spec_issued(k) is None,
            forall|k: Set<Seq<u8>>| r.spec_received(k) is None,
    {
        CapabilityAuthorization { issued: Vec::new(), received: Vec::new() }
    }

    /// Mint a fresh unforgeable reference, build a capability for `action`
    /// toward `address`, record it under `address` in the `issued` map
    /// (overwriting any prior entry for that key), and return a copy.
    ///
    /// The entry read back under `address` carries exactly the action, the
    /// address and the token of the returned capability; every other issued
    /// entry, and the whole `received` map, are untouched.
    pub fn request(&mut self, action: Action, address: AddressSet) -> (cap: Capability)
        requires
            old(self).wf(),
        ensures
            final(self).wf(),
            cap.action == action,
            cap.address@ == address@,
            cap@ == (action, address@, cap.uur.0),
            final(self).spec_issued(address.as_set()) == Some(cap@),
            forall|k: Set<Seq<u8>>|
                k != address.as_set() ==> final(self).spec_issued(k) == old(self).spec_issued(k),
            forall|k: Set<Seq<u8>>| final(self).spec_received(k) == old(self).spec_received(k),
    {
        let uur = UniqueUnforgeableReference::new();
        let cap = Capability { action, address: address.clone(), uur };
        let stored = cap.clone();
        upsert(&mut self.issued, address, stored);
        cap
    }

    /// Record `capability` under `address` in the `received` map, overwriting
    /// any prior entry for that key. This is how a collaborator is handed
    /// delegated authority; no check is made that the caller possesses
    /// matching authority.
    ///
    /// The entry read back under `address` is exactly `capability`; every
    /// other received entry, and the whole `issued` map, are untouched.
    pub fn provision(&mut self, capability: Capability, address: AddressSet)
        requires
            old(self).wf(),
        ensures
            final(self).wf(),
            final(self).spec_received(address.as_set()) == Some(capability@),
            forall|k: Set<Seq<u8>>|
                k != address.as_set() ==> final(self).spec_received(k) == old(self).spec_received(
                    k,
                ),
            forall|k: Set<Seq<u8>>| final(self).spec_issued(k) == old(self).spec_issued(k),
    {
        upsert(&mut self.received, address, capability);
    }

    /// Read the `issued` map: a copy of the capability recorded under the
    /// key of `address`, if any.
    pub fn issued_get(&self, address: &AddressSet) -> (r: Option<Capability>)
        ensures
            match r {
                Some(c) => self.spec_issued(address.as_set()) == Some(c@),
                None => self.spec_issued(address.as_set()) is None,
            },
    {
        find(&self.issued, address)
    }

    /// Read the `received` map: a copy of the capability recorded under the
    /// key of `address`, if any.
    pub fn received_get(&self, address: &AddressSet) -> (r: Option<Capability>)
        ensures
            match r {
                Some(c) => self.spec_received(address.as_set()) == Some(c@),
                None => self.spec_received(address.as_set()) is None,
            },
    {
        find(&self.received, address)
    }
}

} // verus!
