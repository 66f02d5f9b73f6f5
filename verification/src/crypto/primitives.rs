use vstd::prelude::*;

verus! {

/// A 32-byte cryptographic digest (a hash), compared byte by byte.
#[derive(Clone, Copy, Debug)]
pub struct Digest {
    pub bytes: [u8; 32],
}

impl View for Digest {
    type V = Seq<u8>;

    open spec fn view(&self) -> Seq<u8> {
        self.bytes@
    }
}

/// Whether two byte strings of the same length are equal.
fn bytes_equal(left: &[u8; 32], right: &[u8; 32]) -> (result: bool)
    ensures
        result == (left@ == right@),
{
    let mut index: usize = 0;
    while index < 32
        invariant
            0 <= index <= 32,
            left@.len() == 32,
            right@.len() == 32,
            forall|j: int| 0 <= j < index ==> left@[j] == right@[j],
        decreases 32 - index,
    {
        if left[index] != right[index] {
            assert(left@[index as int] != right@[index as int]);
            return false;
        }
        index = index + 1;
    }
    assert(left@ =~= right@);
    true
}

impl Digest {
    pub fn new(bytes: [u8; 32]) -> (result: Digest)
        ensures
            result@ == bytes@,
    {
        Digest { bytes }
    }

    /// Whether `self` and `other` are the same digest.
    pub fn equals(&self, other: &Digest) -> (result: bool)
        ensures
            result == (self@ == other@),
    {
        bytes_equal(&self.bytes, &other.bytes)
    }
}

/// The identity of a key card: the digest of its public keys.
#[derive(Clone, Copy, Debug)]
pub struct Identity {
    pub hash: Digest,
}

impl View for Identity {
    type V = Seq<u8>;

    open spec fn view(&self) -> Seq<u8> {
        self.hash@
    }
}

impl Identity {
    pub fn new(bytes: [u8; 32]) -> (result: Identity)
        ensures
            result@ == bytes@,
    {
        Identity { hash: Digest::new(bytes) }
    }

    /// Whether `self` and `other` are the same identity.
    pub fn equals(&self, other: &Identity) -> (result: bool)
        ensures
            result == (self@ == other@),
    {
        self.hash.equals(&other.hash)
    }
}

} // verus!

verus! {

/// A multi-signature: the aggregate of the signatures of one or more signers
/// on the same statement, in its compressed encoding.
#[derive(Clone, Copy, Debug)]
pub struct MultiSignature {
    pub bytes: [u8; 96],
}

/// A signature by a single signer, in its compressed encoding.
#[derive(Clone, Copy, Debug)]
pub struct Signature {
    pub bytes: [u8; 64],
}

} // verus!
