//! Identities, hashes and signatures as they travel on the wire.
use vstd::prelude::*;

verus! {

/// A 32-byte block hash.
#[derive(Clone, Copy, Debug)]
pub struct Hash(pub [u8; 32]);

impl View for Hash {
    type V = Seq<u8>;

    open spec fn view(&self) -> Seq<u8> {
        self.0@
    }
}

/// A 32-byte public key. Identity is byte equality.
#[derive(Clone, Copy, Debug, Eq)]
pub struct AccountId(pub [u8; 32]);

impl View for AccountId {
    type V = Seq<u8>;

    open spec fn view(&self) -> Seq<u8> {
        self.0@
    }
}

impl PartialEq for AccountId {
    fn eq(&self, o: &AccountId) -> (r: bool) {
        let mut i: usize = 0;
        while i < 32
            invariant
                i <= 32,
                forall|j: int| 0 <= j < i ==> self.0@[j] == o.0@[j],
            decreases 32 - i,
        {
            if self.0[i] != o.0[i] {
                return false;
            }
            i = i + 1;
        }
        assert(self.0@ =~= o.0@);
        true
    }
}

impl vstd::std_specs::cmp::PartialEqSpecImpl for AccountId {
    open spec fn obeys_eq_spec() -> bool {
        true
    }

    open spec fn eq_spec(&self, o: &AccountId) -> bool {
        self@ == o@
    }
}

impl AccountId {
    /// Byte equality, as a plain method.
    pub fn same_as(&self, o: &AccountId) -> (r: bool)
        ensures
            r == (self@ == o@),
    {
        *self == *o
    }
}

/// A 64-byte signature; carried, never inspected.
#[derive(Clone, Copy, Debug)]
pub struct Signature(pub [u8; 64]);

impl View for Signature {
    type V = Seq<u8>;

    open spec fn view(&self) -> Seq<u8> {
        self.0@
    }
}

/// A binary payload was truncated or malformed.
#[derive(Clone, Copy, Debug, PartialEq, Eq, Structural)]
pub enum DecodeError {
    /// The buffer ended before the value was complete.
    Truncated,
    /// A length prefix was not a valid compact integer.
    BadLength,
    /// A text payload was not valid hex.
    BadHex,
}

/// An address string did not decode to a checksummed 32-byte key.
#[derive(Clone, Copy, Debug, PartialEq, Eq, Structural)]
pub enum AddressFormatError {
    /// Not valid base-58, or too long to be an address.
    BadEncoding,
    /// The decoded payload does not have the size of an address.
    BadLength,
    /// The checksum does not match the payload.
    BadChecksum,
}

/// The `result` of a storage-change notification: the block and the list of
/// changed `[key, value]` pairs, both hex strings.
pub struct StateStoreRpc {
    pub block: String,
    pub changes: Vec<Vec<String>>,
}

impl StateStoreRpc {
    /// The key of the `i`-th change.
    pub fn key_of(&self, i: usize) -> (r: &str)
        requires
            i < self.changes@.len(),
            self.changes@[i as int]@.len() >= 1,
        ensures
            r@ == self.changes@[i as int]@[0]@,
    {
        self.changes[i][0].as_str()
    }

    /// The value of the `i`-th change.
    pub fn value_of(&self, i: usize) -> (r: &str)
        requires
            i < self.changes@.len(),
            self.changes@[i as int]@.len() >= 2,
        ensures
            r@ == self.changes@[i as int]@[1]@,
    {
        self.changes[i][1].as_str()
    }

    /// The key and the value of the `i`-th change.
    pub fn item_of(&self, i: usize) -> (r: (&str, &str))
        requires
            i < self.changes@.len(),
            self.changes@[i as int]@.len() >= 2,
        ensures
            r.0@ == self.changes@[i as int]@[0]@,
            r.1@ == self.changes@[i as int]@[1]@,
    {
        (self.key_of(i), self.value_of(i))
    }
}

} // verus!
