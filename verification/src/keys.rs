//! Keys of the staking tables and the strict total order each of them carries.

use vstd::prelude::*;

verus! {

/// A key that the staking tables can be ordered by.
///
/// `before` is a strict total order that agrees with equality of values: of
/// two keys exactly one comes before the other, unless they are the same key.
pub trait TableKey: Copy {
    spec fn before(self, other: Self) -> bool;

    proof fn lemma_strict_total_order(a: Self, b: Self, c: Self)
        ensures
            !a.before(a),
            a.before(b) && b.before(c) ==> a.before(c),
            a.before(b) || b.before(a) || a == b,
    ;

    fn comes_before(&self, other: &Self) -> (r: bool)
        ensures
            r == self.before(*other),
    ;

    fn same_as(&self, other: &Self) -> (r: bool)
        ensures
            r == (*self == *other),
    ;
}

/// Lexicographic order on two byte strings of one length, decided from
/// position `from` on: the first position at which they differ decides.
pub open spec fn bytes_before(a: Seq<u8>, b: Seq<u8>, from: int) -> bool
    decreases a.len() - from,
{
    if from < 0 || from >= a.len() || from >= b.len() {
        false
    } else if a[from] != b[from] {
        a[from] < b[from]
    } else {
        bytes_before(a, b, from + 1)
    }
}

/// No byte string comes before itself.
pub proof fn lemma_bytes_before_irreflexive(a: Seq<u8>, from: int)
    ensures
        !bytes_before(a, a, from),
    decreases a.len() - from,
{
    if 0 <= from < a.len() {
        lemma_bytes_before_irreflexive(a, from + 1);
    }
}

/// The lexicographic order is transitive.
pub proof fn lemma_bytes_before_transitive(a: Seq<u8>, b: Seq<u8>, c: Seq<u8>, from: int)
    requires
        bytes_before(a, b, from),
        bytes_before(b, c, from),
    ensures
        bytes_before(a, c, from),
    decreases a.len() - from,
{
    if a[from] == b[from] && b[from] == c[from] {
        lemma_bytes_before_transitive(a, b, c, from + 1);
    }
}

/// Two byte strings of one length of which neither comes before the other
/// agree at every position from `from` on.
pub proof fn lemma_bytes_before_total(a: Seq<u8>, b: Seq<u8>, from: int)
    requires
        a.len() == b.len(),
        0 <= from,
        !bytes_before(a, b, from),
        !bytes_before(b, a, from),
    ensures
        forall|j: int| from <= j < a.len() ==> a[j] == b[j],
    decreases a.len() - from,
{
    if from < a.len() {
        lemma_bytes_before_total(a, b, from + 1);
    }
}

/// Decides the lexicographic order of two byte arrays.
pub fn array_before<const N: usize>(a: &[u8; N], b: &[u8; N]) -> (r: bool)
    ensures
        r == bytes_before(a@, b@, 0),
{
    let mut i: usize = 0;
    while i < N
        invariant
            i <= N,
            a@.len() == N,
            b@.len() == N,
            bytes_before(a@, b@, 0) == bytes_before(a@, b@, i as int),
        decreases N - i,
    {
        if a[i] != b[i] {
            return a[i] < b[i];
        }
        i = i + 1;
    }
    false
}

/// Decides whether two byte arrays hold the same bytes.
pub fn array_same<const N: usize>(a: &[u8; N], b: &[u8; N]) -> (r: bool)
    ensures
        r == (*a == *b),
{
    let mut i: usize = 0;
    while i < N
        invariant
            i <= N,
            a@.len() == N,
            b@.len() == N,
            forall|j: int| 0 <= j < i ==> a@[j] == b@[j],
        decreases N - i,
    {
        if a[i] != b[i] {
            return false;
        }
        i = i + 1;
    }
    assert(*a =~= *b);
    true
}

/// The stable identifier of a validator: 32 bytes that never change.
#[derive(Clone, Copy, Debug)]
pub struct IdentityKey(pub [u8; 32]);

/// The key a validator signs consensus votes with: 32 bytes, rotatable.
#[derive(Clone, Copy, Debug)]
pub struct ConsensusKey(pub [u8; 32]);

/// The address by which the consensus engine names a validator in votes and
/// evidence: the first 20 bytes of a hash of its consensus key.
#[derive(Clone, Copy, Debug)]
pub struct ConsensusAddress(pub [u8; 20]);

impl TableKey for IdentityKey {
    open spec fn before(self, other: Self) -> bool {
        bytes_before(self.0@, other.0@, 0)
    }

    proof fn lemma_strict_total_order(a: Self, b: Self, c: Self) {
        lemma_bytes_before_irreflexive(a.0@, 0);
        if a.before(b) && b.before(c) {
            lemma_bytes_before_transitive(a.0@, b.0@, c.0@, 0);
        }
        if !a.before(b) && !b.before(a) {
            lemma_bytes_before_total(a.0@, b.0@, 0);
            assert(a.0 =~= b.0);
        }
    }

    fn comes_before(&self, other: &Self) -> (r: bool) {
        array_before(&self.0, &other.0)
    }

    fn same_as(&self, other: &Self) -> (r: bool) {
        array_same(&self.0, &other.0)
    }
}

impl TableKey for ConsensusKey {
    open spec fn before(self, other: Self) -> bool {
        bytes_before(self.0@, other.0@, 0)
    }

    proof fn lemma_strict_total_order(a: Self, b: Self, c: Self) {
        lemma_bytes_before_irreflexive(a.0@, 0);
        if a.before(b) && b.before(c) {
            lemma_bytes_before_transitive(a.0@, b.0@, c.0@, 0);
        }
        if !a.before(b) && !b.before(a) {
            lemma_bytes_before_total(a.0@, b.0@, 0);
            assert(a.0 =~= b.0);
        }
    }

    fn comes_before(&self, other: &Self) -> (r: bool) {
        array_before(&self.0, &other.0)
    }

    fn same_as(&self, other: &Self) -> (r: bool) {
        array_same(&self.0, &other.0)
    }
}

impl TableKey for ConsensusAddress {
    open spec fn before(self, other: Self) -> bool {
        bytes_before(self.0@, other.0@, 0)
    }

    proof fn lemma_strict_total_order(a: Self, b: Self, c: Self) {
        lemma_bytes_before_irreflexive(a.0@, 0);
        if a.before(b) && b.before(c) {
            lemma_bytes_before_transitive(a.0@, b.0@, c.0@, 0);
        }
        if !a.before(b) && !b.before(a) {
            lemma_bytes_before_total(a.0@, b.0@, 0);
            assert(a.0 =~= b.0);
        }
    }

    fn comes_before(&self, other: &Self) -> (r: bool) {
        array_before(&self.0, &other.0)
    }

    fn same_as(&self, other: &Self) -> (r: bool) {
        array_same(&self.0, &other.0)
    }
}

impl TableKey for u64 {
    open spec fn before(self, other: Self) -> bool {
        self < other
    }

    proof fn lemma_strict_total_order(a: Self, b: Self, c: Self) {
    }

    fn comes_before(&self, other: &Self) -> (r: bool) {
        *self < *other
    }

    fn same_as(&self, other: &Self) -> (r: bool) {
        *self == *other
    }
}

/// Names the penalty bucket of one validator in one epoch. Buckets are
/// ordered by validator first and by epoch index within a validator.
#[derive(Clone, Copy, Debug)]
pub struct PenaltyKey {
    pub validator: IdentityKey,
    pub epoch_index: u64,
}

impl TableKey for PenaltyKey {
    open spec fn before(self, other: Self) -> bool {
        self.validator.before(other.validator) || (self.validator == other.validator
            && self.epoch_index < other.epoch_index)
    }

    proof fn lemma_strict_total_order(a: Self, b: Self, c: Self) {
        IdentityKey::lemma_strict_total_order(a.validator, b.validator, c.validator);
        IdentityKey::lemma_strict_total_order(b.validator, a.validator, c.validator);
        IdentityKey::lemma_strict_total_order(b.validator, c.validator, a.validator);
    }

    fn comes_before(&self, other: &Self) -> (r: bool) {
        if self.validator.comes_before(&other.validator) {
            true
        } else if self.validator.same_as(&other.validator) {
            self.epoch_index < other.epoch_index
        } else {
            false
        }
    }

    fn same_as(&self, other: &Self) -> (r: bool) {
        self.validator.same_as(&other.validator) && self.epoch_index == other.epoch_index
    }
}

} // verus!
