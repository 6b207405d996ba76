//! Fixed-size byte strings of the wire format.
use vstd::prelude::*;

verus! {

/// Length in bytes of an account address.
pub const ETH_ADDRESS_LEN: usize = 20;

/// Length in bytes of a digest.
pub const HASH_LEN: usize = 32;

/// Length in bytes of a serialized public key: the algorithm tag and its payload.
pub const POLYCHAIN_PUBKEY_LEN: usize = 67;

/// Length in bytes of a serialized signature: the scheme tag and its payload.
pub const POLYCHAIN_SIGNATURE_LEN: usize = 65;

/// Number of blocks in one consensus epoch of the remote chain.
pub const POLYCHAIN_EPOCH_HEIGHT: u32 = 60000;

/// The first `N` bytes of `bytes`, or `N` zero bytes where `bytes` is shorter than that.
pub open spec fn leading_or_zero<const N: usize>(bytes: Seq<u8>) -> Seq<u8> {
    if bytes.len() >= N {
        bytes.take(N as int)
    } else {
        Seq::new(N as nat, |i: int| 0u8)
    }
}

/// The array that holds the `N` bytes of `bytes`.
pub open spec fn array_of<const N: usize>(bytes: Seq<u8>) -> [u8; N] {
    choose|a: [u8; N]| a@ == bytes
}

/// An array is the array of its own bytes.
pub proof fn lemma_array_of<const N: usize>(a: [u8; N])
    ensures
        array_of::<N>(a@) == a,
{
    assert(array_of::<N>(a@)@ == a@);
    assert(array_of::<N>(a@) =~= a);
}

/// Copies the first `N` bytes of `bytes`; the result is all zero where `bytes` is too short.
pub fn array_from_slice<const N: usize>(bytes: &[u8]) -> (data: [u8; N])
    ensures
        data@ == leading_or_zero::<N>(bytes@),
        data == array_of::<N>(leading_or_zero::<N>(bytes@)),
{
    let mut data = [0u8; N];
    if bytes.len() >= N {
        let mut i: usize = 0;
        while i < N
            invariant
                i <= N <= bytes.len(),
                forall|j: int| 0 <= j < i ==> data[j] == bytes[j],
            decreases N - i,
        {
            data[i] = bytes[i];
            i += 1;
        }
    }
    assert(data@ =~= leading_or_zero::<N>(bytes@));
    proof {
        lemma_array_of(data);
    }
    data
}

/// A new vector with the items of `items`.
pub fn copy_vec<T: Copy>(items: &Vec<T>) -> (copy: Vec<T>)
    ensures
        copy@ == items@,
{
    let mut copy: Vec<T> = Vec::new();
    let mut i: usize = 0;
    while i < items.len()
        invariant
            i <= items.len(),
            copy@ == items@.take(i as int),
        decreases items.len() - i,
    {
        copy.push(items[i]);
        assert(copy@ =~= items@.take(i + 1));
        i += 1;
    }
    assert(items@.take(i as int) =~= items@);
    copy
}

/// Whether the two byte strings hold the same bytes.
pub fn bytes_eq(a: &[u8], b: &[u8]) -> (same: bool)
    ensures
        same == (a@ == b@),
{
    if a.len() != b.len() {
        return false;
    }
    let mut i: usize = 0;
    while i < a.len()
        invariant
            i <= a.len() == b.len(),
            forall|j: int| 0 <= j < i ==> a[j] == b[j],
        decreases a.len() - i,
    {
        if a[i] != b[i] {
            return false;
        }
        i += 1;
    }
    assert(a@ =~= b@);
    true
}

/// An account address of the remote chain.
#[derive(Clone, Copy, Debug, PartialEq, Eq)]
pub struct EthAddress(pub [u8; 20]);

impl EthAddress {
    /// The twenty bytes of the address.
    pub fn as_slice(&self) -> (bytes: &[u8])
        ensures
            bytes@ == self.0@,
    {
        self.0.as_slice()
    }
}

impl<'a> From<&'a [u8]> for EthAddress {
    fn from(byte_slice: &'a [u8]) -> (address: Self) {
        EthAddress(array_from_slice::<20>(byte_slice))
    }
}

impl<'a> vstd::std_specs::convert::FromSpecImpl<&'a [u8]> for EthAddress {
    open spec fn obeys_from_spec() -> bool {
        true
    }

    open spec fn from_spec(byte_slice: &'a [u8]) -> Self {
        EthAddress(array_of::<20>(leading_or_zero::<20>(byte_slice@)))
    }
}

/// A 32-byte digest.
#[derive(Clone, Copy, Debug, PartialEq, Eq)]
pub struct H256(pub [u8; 32]);

impl H256 {
    /// The thirty-two bytes of the digest.
    pub fn as_slice(&self) -> (bytes: &[u8])
        ensures
            bytes@ == self.0@,
    {
        self.0.as_slice()
    }
}

impl<'a> From<&'a [u8]> for H256 {
    fn from(byte_slice: &'a [u8]) -> (hash: Self) {
        H256(array_from_slice::<32>(byte_slice))
    }
}

impl<'a> vstd::std_specs::convert::FromSpecImpl<&'a [u8]> for H256 {
    open spec fn obeys_from_spec() -> bool {
        true
    }

    open spec fn from_spec(byte_slice: &'a [u8]) -> Self {
        H256(array_of::<32>(leading_or_zero::<32>(byte_slice@)))
    }
}

} // verus!
