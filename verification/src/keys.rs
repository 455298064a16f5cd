use vstd::prelude::*;

verus! {

/// A key type with a successor operation and decidable equality.
///
/// `next` yields the key that follows `self` in the expected emission
/// sequence; it is total and deterministic, so the chain of keys reachable
/// from a starting key is fully determined by `next_spec`.
pub trait Successor: Sized {
    /// The mathematical successor of this key.
    spec fn next_spec(&self) -> Self;

    /// Produces the key that follows `self`.
    fn next(&self) -> (r: Self)
        ensures
            r == self.next_spec(),
    ;

    /// Decides whether two keys are equal.
    fn key_eq(&self, other: &Self) -> (r: bool)
        ensures
            r == (self == other),
    ;

    /// A key's successor is distinct from the key itself.
    proof fn next_distinct(&self)
        ensures
            self.next_spec() != *self,
    ;
}

/// The key reached from `zero` after `n` successor steps.
pub open spec fn nth_key<K: Successor>(zero: K, n: nat) -> K
    decreases n,
{
    if n == 0 {
        zero
    } else {
        nth_key(zero, (n - 1) as nat).next_spec()
    }
}

impl Successor for u64 {
    open spec fn next_spec(&self) -> u64 {
        if *self == u64::MAX {
            0
        } else {
            (*self + 1) as u64
        }
    }

    fn next(&self) -> (r: u64) {
        if *self == u64::MAX {
            0
        } else {
            *self + 1
        }
    }

    fn key_eq(&self, other: &u64) -> (r: bool) {
        *self == *other
    }

    proof fn next_distinct(&self) {
    }
}

impl Successor for u8 {
    open spec fn next_spec(&self) -> u8 {
        if *self == u8::MAX {
            0
        } else {
            (*self + 1) as u8
        }
    }

    fn next(&self) -> (r: u8) {
        if *self == u8::MAX {
            0
        } else {
            *self + 1
        }
    }

    fn key_eq(&self, other: &u8) -> (r: bool) {
        *self == *other
    }

    proof fn next_distinct(&self) {
    }
}

/// As long as no step wraps around `u64::MAX`, the successor chain over `u64`
/// keys is plain addition.
pub proof fn lemma_nth_key_u64(zero: u64, n: nat)
    requires
        zero + n <= u64::MAX,
    ensures
        nth_key(zero, n) == zero + n,
    decreases n,
{
    if n > 0 {
        lemma_nth_key_u64(zero, (n - 1) as nat);
    }
}

/// An item from which the key that orders it can be derived; the derivation
/// plays the role of a pure, deterministic key-extraction function.
pub trait HasKey<K>: Sized {
    /// The key of this item.
    spec fn key_spec(&self) -> K;

    /// Extracts the key of this item.
    fn key(&self) -> (k: K)
        ensures
            k == self.key_spec(),
    ;
}

impl HasKey<u8> for u8 {
    open spec fn key_spec(&self) -> u8 {
        *self
    }

    fn key(&self) -> u8 {
        *self
    }
}

impl HasKey<u64> for u64 {
    open spec fn key_spec(&self) -> u64 {
        *self
    }

    fn key(&self) -> u64 {
        *self
    }
}

/// An arbitrary payload paired with the key that orders it, for sources whose
/// items do not themselves carry a key.
pub struct Keyed<K, V> {
    /// The key under which the payload is ordered.
    pub key: K,
    /// The payload carried through unchanged.
    pub val: V,
}

impl<K: Copy, V> HasKey<K> for Keyed<K, V> {
    open spec fn key_spec(&self) -> K {
        self.key
    }

    fn key(&self) -> K {
        self.key
    }
}

} // verus!
