//! Public keys of consensus participants.
use vstd::prelude::*;
use crate::util::{array_from_slice, array_of, leading_or_zero};

verus! {

/// Tag byte of an ECDSA key.
pub const ECDSA_TAG: u8 = 0x12;

/// Tag byte of an SM2 key.
pub const SM2_TAG: u8 = 0x13;

/// The family of curve arithmetic that a public key belongs to.
#[derive(Clone, Copy, Debug, PartialEq, Eq, Structural)]
pub enum EllipticCurveAlgorithm {
    ECDSA,
    SM2,
    Unknown,
}

/// The algorithm that a tag byte stands for.
pub open spec fn algorithm_of_tag(tag: u8) -> EllipticCurveAlgorithm {
    if tag == ECDSA_TAG {
        EllipticCurveAlgorithm::ECDSA
    } else if tag == SM2_TAG {
        EllipticCurveAlgorithm::SM2
    } else {
        EllipticCurveAlgorithm::Unknown
    }
}

/// A public key in its serialized form: one tag byte that names the algorithm, then the
/// algorithm's own payload.
#[derive(Clone, Copy, Debug, PartialEq, Eq)]
pub struct PublicKey(pub [u8; 67]);

impl PublicKey {
    /// The algorithm named by the key's tag byte.
    pub open spec fn spec_algorithm(self) -> EllipticCurveAlgorithm {
        algorithm_of_tag(self.0[0])
    }

    /// The payload: every byte after the tag.
    pub open spec fn spec_value(self) -> Seq<u8> {
        self.0@.skip(1)
    }

    /// The whole serialized key, tag included.
    pub fn as_slice(&self) -> (bytes: &[u8])
        ensures
            bytes@ == self.0@,
    {
        self.0.as_slice()
    }

    /// The algorithm named by the key's tag byte.
    pub fn algorithm(&self) -> (algorithm: EllipticCurveAlgorithm)
        ensures
            algorithm == self.spec_algorithm(),
    {
        let tag: u8 = self.0[0];
        if tag == ECDSA_TAG {
            EllipticCurveAlgorithm::ECDSA
        } else if tag == SM2_TAG {
            EllipticCurveAlgorithm::SM2
        } else {
            EllipticCurveAlgorithm::Unknown
        }
    }

    /// The payload: every byte after the tag.
    pub fn value_as_slice(&self) -> (bytes: &[u8])
        ensures
            bytes@ == self.spec_value(),
    {
        let all = self.0.as_slice();
        vstd::slice::slice_subrange(all, 1, 67)
    }
}

impl<'a> From<&'a [u8]> for PublicKey {
    fn from(byte_slice: &'a [u8]) -> (key: Self) {
        PublicKey(array_from_slice::<67>(byte_slice))
    }
}

impl<'a> vstd::std_specs::convert::FromSpecImpl<&'a [u8]> for PublicKey {
    open spec fn obeys_from_spec() -> bool {
        true
    }

    open spec fn from_spec(byte_slice: &'a [u8]) -> Self {
        PublicKey(array_of::<67>(leading_or_zero::<67>(byte_slice@)))
    }
}

} // verus!
