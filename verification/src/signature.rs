//! Signatures over header digests.
use vstd::prelude::*;
use crate::util::{array_from_slice, array_of, leading_or_zero};

verus! {

/// The hash and signing algorithm pair that produced a signature.
#[allow(non_camel_case_types)]
#[derive(Clone, Copy, Debug, PartialEq, Eq, Structural)]
pub enum SignatureScheme {
    SHA224withECDSA,
    SHA256withECDSA,
    SHA384withECDSA,
    SHA512withECDSA,
    SHA3_224withECDSA,
    SHA3_256withECDSA,
    SHA3_384withECDSA,
    SHA3_512withECDSA,
    RIPEMD160withECDSA,
    SM3withSM2,
    SHA512withEDDSA,
    Unknown,
}

/// The scheme that a tag byte stands for.
pub open spec fn scheme_of_tag(tag: u8) -> SignatureScheme {
    if tag == 0 {
        SignatureScheme::SHA224withECDSA
    } else if tag == 1 {
        SignatureScheme::SHA256withECDSA
    } else if tag == 2 {
        SignatureScheme::SHA384withECDSA
    } else if tag == 3 {
        SignatureScheme::SHA512withECDSA
    } else if tag == 4 {
        SignatureScheme::SHA3_224withECDSA
    } else if tag == 5 {
        SignatureScheme::SHA3_256withECDSA
    } else if tag == 6 {
        SignatureScheme::SHA3_384withECDSA
    } else if tag == 7 {
        SignatureScheme::SHA3_512withECDSA
    } else if tag == 8 {
        SignatureScheme::RIPEMD160withECDSA
    } else if tag == 9 {
        SignatureScheme::SM3withSM2
    } else if tag == 10 {
        SignatureScheme::SHA512withEDDSA
    } else {
        SignatureScheme::Unknown
    }
}

/// A signature in its serialized form: one tag byte that names the scheme, then the scheme's
/// own payload.
#[derive(Clone, Copy, Debug, PartialEq, Eq)]
pub struct Signature(pub [u8; 65]);

impl Signature {
    /// The scheme named by the signature's tag byte.
    pub open spec fn spec_scheme(self) -> SignatureScheme {
        scheme_of_tag(self.0[0])
    }

    /// The payload: every byte after the tag.
    pub open spec fn spec_value(self) -> Seq<u8> {
        self.0@.skip(1)
    }

    /// The whole serialized signature, tag included.
    pub fn as_slice(&self) -> (bytes: &[u8])
        ensures
            bytes@ == self.0@,
    {
        self.0.as_slice()
    }

    /// The scheme named by the signature's tag byte.
    pub fn scheme(&self) -> (scheme: SignatureScheme)
        ensures
            scheme == self.spec_scheme(),
    {
        let tag: u8 = self.0[0];
        if tag == 0 {
            SignatureScheme::SHA224withECDSA
        } else if tag == 1 {
            SignatureScheme::SHA256withECDSA
        } else if tag == 2 {
            SignatureScheme::SHA384withECDSA
        } else if tag == 3 {
            SignatureScheme::SHA512withECDSA
        } else if tag == 4 {
            SignatureScheme::SHA3_224withECDSA
        } else if tag == 5 {
            SignatureScheme::SHA3_256withECDSA
        } else if tag == 6 {
            SignatureScheme::SHA3_384withECDSA
        } else if tag == 7 {
            SignatureScheme::SHA3_512withECDSA
        } else if tag == 8 {
            SignatureScheme::RIPEMD160withECDSA
        } else if tag == 9 {
            SignatureScheme::SM3withSM2
        } else if tag == 10 {
            SignatureScheme::SHA512withEDDSA
        } else {
            SignatureScheme::Unknown
        }
    }

    /// The payload: every byte after the tag.
    pub fn value_as_slice(&self) -> (bytes: &[u8])
        ensures
            bytes@ == self.spec_value(),
    {
        let all = self.0.as_slice();
        vstd::slice::slice_subrange(all, 1, 65)
    }
}

impl<'a> From<&'a [u8]> for Signature {
    fn from(byte_slice: &'a [u8]) -> (signature: Self) {
        Signature(array_from_slice::<65>(byte_slice))
    }
}

impl<'a> vstd::std_specs::convert::FromSpecImpl<&'a [u8]> for Signature {
    open spec fn obeys_from_spec() -> bool {
        true
    }

    open spec fn from_spec(byte_slice: &'a [u8]) -> Self {
        Signature(array_of::<65>(leading_or_zero::<65>(byte_slice@)))
    }
}

} // verus!
