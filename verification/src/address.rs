//! Addresses naming actors, and sets of addresses used as ledger keys and
//! gate allow-lists.
//!
//! An `AddressSet` keeps the order in which its elements were given, but two
//! sets holding the same elements in any order denote the same key: every
//! contract that treats an `AddressSet` as a key speaks of `as_set()`, the
//! order-independent view.

use vstd::prelude::*;

verus! {

/// An opaque, comparable identifier naming an actor or one hop of a route.
///
/// Equality is value-based: two addresses are the same exactly when their
/// bytes are the same.
pub struct Address {
    bytes: Vec<u8>,
}

impl View for Address {
    type V = Seq<u8>;

    closed spec fn view(&self) -> Seq<u8> {
        self.bytes@
    }
}

impl Address {
    /// Build an address from its raw bytes.
    pub fn new(bytes: Vec<u8>) -> (r: Address)
        ensures
            r@ == bytes@,
    {
        Address { bytes }
    }

    /// The raw bytes of this address.
    pub fn as_bytes(&self) -> (r: &Vec<u8>)
        ensures
            r@ == self@,
    {
        &self.bytes
    }

    /// Value-based equality on the underlying bytes.
    pub fn equals(&self, other: &Address) -> (r: bool)
        ensures
            r == (self@ == other@),
    {
        if self.bytes.len() != other.bytes.len() {
            return false;
        }
        let mut i: usize = 0;
        while i < self.bytes.len()
            invariant
                i <= self.bytes@.len(),
                self.bytes@.len() == other.bytes@.len(),
                forall|j: int| 0 <= j < i ==> self.bytes@[j] == other.bytes@[j],
            decreases self.bytes@.len() - i,
        {
            if self.bytes[i] != other.bytes[i] {
                return false;
            }
            i += 1;
        }
        proof {
            assert(self@ =~= other@);
        }
        true
    }
}

impl Clone for Address {
    fn clone(&self) -> (r: Address)
        ensures
            r@ == self@,
    {
        let mut bytes: Vec<u8> = Vec::new();
        let mut i: usize = 0;
        while i < self.bytes.len()
            invariant
                i <= self.bytes@.len(),
                bytes@ =~= self.bytes@.take(i as int),
            decreases self.bytes@.len() - i,
        {
            bytes.push(self.bytes[i]);
            i += 1;
        }
        proof {
            assert(bytes@ =~= self.bytes@);
        }
        Address { bytes }
    }
}

/// An ordered sequence of addresses that is also read as a set: contracts
/// that key on an `AddressSet` use `as_set()`, so two sets with the same
/// elements in different orders act as the same key.
pub struct AddressSet {
    items: Vec<Address>,
}

impl View for AddressSet {
    type V = Seq<Seq<u8>>;

    closed spec fn view(&self) -> Seq<Seq<u8>> {
        Seq::new(self.items@.len(), |i: int| self.items@[i]@)
    }
}

impl AddressSet {
    /// The order-independent reading of this set of addresses.
    pub open spec fn as_set(&self) -> Set<Seq<u8>> {
        Set::new(|a: Seq<u8>| self@.contains(a))
    }

    /// Build a set from the given addresses, kept in the given order.
    pub fn new(items: Vec<Address>) -> (r: AddressSet)
        ensures
            r@.len() == items@.len(),
            forall|i: int| 0 <= i < items@.len() ==> r@[i] == items@[i]@,
    {
        AddressSet { items }
    }

    /// The empty set of addresses.
    pub fn empty() -> (r: AddressSet)
        ensures
            r@ =~= Seq::<Seq<u8>>::empty(),
    {
        AddressSet { items: Vec::new() }
    }

    /// A set holding one address.
    pub fn single(address: Address) -> (r: AddressSet)
        ensures
            r@ =~= seq![address@],
    {
        let mut items: Vec<Address> = Vec::new();
        items.push(address);
        AddressSet { items }
    }

    /// Append one more address to the sequence.
    pub fn push(&mut self, address: Address)
        ensures
            final(self)@ =~= old(self)@.push(address@),
    {
        self.items.push(address);
    }

    /// How many addresses the sequence holds (repetitions counted).
    pub fn len(&self) -> (r: usize)
        ensures
            r == self@.len(),
    {
        self.items.len()
    }

    /// The address at position `i` of the sequence.
    pub fn get(&self, i: usize) -> (r: &Address)
        requires
            i < self@.len(),
        ensures
            r@ == self@[i as int],
    {
        &self.items[i]
    }

    /// Whether the given address is an element of this set.
    pub fn contains(&self, address: &Address) -> (r: bool)
        ensures
            r == self.as_set().contains(address@),
    {
        let mut i: usize = 0;
        while i < self.items.len()
            invariant
                i <= self.items@.len(),
                forall|j: int| 0 <= j < i ==> self.items@[j]@ != address@,
            decreases self.items@.len() - i,
        {
            if self.items[i].equals(address) {
                proof {
                    assert(self@[i as int] == address@);
                }
                return true;
            }
            i += 1;
        }
        proof {
            assert(forall|j: int| 0 <= j < self@.len() ==> self@[j] != address@);
        }
        false
    }

    /// Whether every element of this set is an element of `other`.
    pub fn subset_of(&self, other: &AddressSet) -> (r: bool)
        ensures
            r == self.as_set().subset_of(other.as_set()),
    {
        let mut i: usize = 0;
        while i < self.items.len()
            invariant
                i <= self.items@.len(),
                forall|j: int| 0 <= j < i ==> other.as_set().contains(self.items@[j]@),
            decreases self.items@.len() - i,
        {
            if !other.contains(&self.items[i]) {
                proof {
                    assert(self@[i as int] == self.items@[i as int]@);
                    assert(self@.contains(self.items@[i as int]@));
                }
                return false;
            }
            i += 1;
        }
        proof {
            assert forall|a: Seq<u8>| self.as_set().contains(a) implies other.as_set().contains(
                a,
            ) by {
                let j = choose|j: int| 0 <= j < self@.len() && self@[j] == a;
                assert(other.as_set().contains(self.items@[j]@));
            }
        }
        true
    }

    /// Whether this set and `other` hold exactly the same elements,
    /// in any order.
    pub fn same_set(&self, other: &AddressSet) -> (r: bool)
        ensures
            r == (self.as_set() == other.as_set()),
    {
        let fwd = self.subset_of(other);
        let bwd = other.subset_of(self);
        proof {
            if fwd && bwd {
                assert(self.as_set() =~= other.as_set());
            }
        }
        fwd && bwd
    }

    /// Order-sensitive equality: the same addresses in the same order.
    pub fn equals(&self, other: &AddressSet) -> (r: bool)
        ensures
            r == (self@ == other@),
    {
        proof {
            assert(self@.len() == self.items@.len());
            assert(other@.len() == other.items@.len());
        }
        if self.items.len() != other.items.len() {
            return false;
        }
        let mut i: usize = 0;
        while i < self.items.len()
            invariant
                i <= self.items@.len(),
                self.items@.len() == other.items@.len(),
                self@.len() == self.items@.len(),
                other@.len() == other.items@.len(),
                forall|j: int| 0 <= j < i ==> self@[j] == other@[j],
            decreases self.items@.len() - i,
        {
            if !self.items[i].equals(&other.items[i]) {
                proof {
                    assert(self@[i as int] == self.items@[i as int]@);
                    assert(other@[i as int] == other.items@[i as int]@);
                }
                return false;
            }
            i += 1;
        }
        proof {
            assert(self@ =~= other@);
        }
        true
    }
}

impl Clone for AddressSet {
    fn clone(&self) -> (r: AddressSet)
        ensures
            r@ == self@,
    {
        let mut items: Vec<Address> = Vec::new();
        let mut i: usize = 0;
        while i < self.items.len()
            invariant
                i <= self.items@.len(),
                items@.len() == i,
                forall|j: int| 0 <= j < i ==> items@[j]@ == self.items@[j]@,
            decreases self.items@.len() - i,
        {
            items.push(self.items[i].clone());
            i += 1;
        }
        let r = AddressSet { items };
        proof {
            assert(r@ =~= self@);
        }
        r
    }
}

} // verus!
