//! The reader half of the binary codec.
use vstd::prelude::*;
use vstd::slice::slice_subrange;
use crate::public_key::PublicKey;
use crate::signature::Signature;
use crate::util::{array_from_slice, EthAddress, H256};
use crate::wire::{le_u16, le_u32, le_u64, parse_var_bytes, parse_var_uint};

verus! {

/// A cursor over a byte string. Each read either takes a whole value and moves the cursor
/// past it, or takes nothing and leaves the cursor where it was.
pub struct ZeroCopySource<'a> {
    data: &'a [u8],
    pos: usize,
}

impl<'a> ZeroCopySource<'a> {
    #[verifier::type_invariant]
    spec fn in_bounds(self) -> bool {
        self.pos <= self.data@.len()
    }

    /// All the bytes that the source was made over.
    pub closed spec fn bytes(self) -> Seq<u8> {
        self.data@
    }

    /// How many bytes have been read.
    pub closed spec fn offset(self) -> int {
        self.pos as int
    }

    /// The bytes not yet read.
    pub open spec fn remaining(self) -> Seq<u8> {
        self.bytes().skip(self.offset())
    }

    /// A source at the start of `data`.
    pub fn new(data: &'a [u8]) -> (source: Self)
        ensures
            source.bytes() == data@,
            source.offset() == 0,
    {
        ZeroCopySource { data, pos: 0 }
    }

    /// How many bytes have been read.
    pub fn pos(&self) -> (pos: usize)
        ensures
            pos == self.offset(),
    {
        self.pos
    }

    /// How many bytes are left to read.
    pub fn len(&self) -> (n: usize)
        ensures
            n == self.remaining().len(),
            n == self.bytes().len() - self.offset(),
            0 <= self.offset() <= self.bytes().len(),
    {
        proof {
            use_type_invariant(self);
        }
        self.data.len() - self.pos
    }

    /// Moves the cursor back to an earlier position.
    pub fn rewind(&mut self, pos: usize)
        requires
            pos <= old(self).offset(),
        ensures
            final(self).bytes() == old(self).bytes(),
            final(self).offset() == pos,
    {
        proof {
            use_type_invariant(&*self);
        }
        self.pos = pos;
    }

    /// Takes the next `n` bytes, if that many are left.
    pub fn next_bytes(&mut self, n: usize) -> (taken: Option<&'a [u8]>)
        ensures
            final(self).bytes() == old(self).bytes(),
            match taken {
                Some(bytes) => {
                    &&& old(self).remaining().len() >= n
                    &&& bytes@ == old(self).remaining().take(n as int)
                    &&& final(self).offset() == old(self).offset() + n
                },
                None => {
                    &&& old(self).remaining().len() < n
                    &&& final(self).offset() == old(self).offset()
                },
            },
    {
        proof {
            use_type_invariant(&*self);
        }
        if self.data.len() - self.pos < n {
            return None;
        }
        let start = self.pos;
        let bytes = slice_subrange(self.data, start, start + n);
        self.pos = start + n;
        assert(bytes@ =~= old(self).remaining().take(n as int));
        Some(bytes)
    }

    /// Takes the next byte.
    pub fn next_u8(&mut self) -> (taken: Option<u8>)
        ensures
            final(self).bytes() == old(self).bytes(),
            match taken {
                Some(value) => {
                    &&& old(self).remaining().len() >= 1
                    &&& value == old(self).remaining()[0]
                    &&& final(self).offset() == old(self).offset() + 1
                },
                None => {
                    &&& old(self).remaining().len() < 1
                    &&& final(self).offset() == old(self).offset()
                },
            },
    {
        match self.next_bytes(1) {
            Some(b) => Some(b[0]),
            None => None,
        }
    }

    /// Takes the next two bytes as a little-endian number.
    pub fn next_u16(&mut self) -> (taken: Option<u16>)
        ensures
            final(self).bytes() == old(self).bytes(),
            match taken {
                Some(value) => {
                    &&& old(self).remaining().len() >= 2
                    &&& value == le_u16(old(self).remaining())
                    &&& final(self).offset() == old(self).offset() + 2
                },
                None => {
                    &&& old(self).remaining().len() < 2
                    &&& final(self).offset() == old(self).offset()
                },
            },
    {
        match self.next_bytes(2) {
            Some(b) => {
                let value: u16 = b[0] as u16 + 256 * (b[1] as u16);
                Some(value)
            },
            None => None,
        }
    }

    /// Takes the next four bytes as a little-endian number.
    pub fn next_u32(&mut self) -> (taken: Option<u32>)
        ensures
            final(self).bytes() == old(self).bytes(),
            match taken {
                Some(value) => {
                    &&& old(self).remaining().len() >= 4
                    &&& value == le_u32(old(self).remaining())
                    &&& final(self).offset() == old(self).offset() + 4
                },
                None => {
                    &&& old(self).remaining().len() < 4
                    &&& final(self).offset() == old(self).offset()
                },
            },
    {
        match self.next_bytes(4) {
            Some(b) => {
                let value: u32 = b[0] as u32 + 256 * (b[1] as u32) + 65536 * (b[2] as u32)
                    + 16777216 * (b[3] as u32);
                Some(value)
            },
            None => None,
        }
    }

    /// Takes the next eight bytes as a little-endian number.
    pub fn next_u64(&mut self) -> (taken: Option<u64>)
        ensures
            final(self).bytes() == old(self).bytes(),
            match taken {
                Some(value) => {
                    &&& old(self).remaining().len() >= 8
                    &&& value == le_u64(old(self).remaining())
                    &&& final(self).offset() == old(self).offset() + 8
                },
                None => {
                    &&& old(self).remaining().len() < 8
                    &&& final(self).offset() == old(self).offset()
                },
            },
    {
        match self.next_bytes(8) {
            Some(b) => {
                let value: u64 = b[0] as u64 + 256 * (b[1] as u64) + 65536 * (b[2] as u64)
                    + 16777216 * (b[3] as u64) + 4294967296 * (b[4] as u64) + 1099511627776 * (
                b[5] as u64) + 281474976710656 * (b[6] as u64) + 72057594037927936 * (
                b[7] as u64);
                Some(value)
            },
            None => None,
        }
    }

    /// Takes the next thirty-two bytes as a digest.
    pub fn next_hash(&mut self) -> (taken: Option<H256>)
        ensures
            final(self).bytes() == old(self).bytes(),
            match taken {
                Some(hash) => {
                    &&& old(self).remaining().len() >= 32
                    &&& hash.0@ == old(self).remaining().take(32)
                    &&& final(self).offset() == old(self).offset() + 32
                },
                None => {
                    &&& old(self).remaining().len() < 32
                    &&& final(self).offset() == old(self).offset()
                },
            },
    {
        match self.next_bytes(32) {
            Some(b) => {
                let data = array_from_slice::<32>(b);
                assert(b@.take(32) =~= b@);
                Some(H256(data))
            },
            None => None,
        }
    }

    /// Takes the next twenty bytes as an address.
    pub fn next_address(&mut self) -> (taken: Option<EthAddress>)
        ensures
            final(self).bytes() == old(self).bytes(),
            match taken {
                Some(address) => {
                    &&& old(self).remaining().len() >= 20
                    &&& address.0@ == old(self).remaining().take(20)
                    &&& final(self).offset() == old(self).offset() + 20
                },
                None => {
                    &&& old(self).remaining().len() < 20
                    &&& final(self).offset() == old(self).offset()
                },
            },
    {
        match self.next_bytes(20) {
            Some(b) => {
                let data = array_from_slice::<20>(b);
                assert(b@.take(20) =~= b@);
                Some(EthAddress(data))
            },
            None => None,
        }
    }

    /// Takes the next sixty-seven bytes as a serialized public key.
    pub fn next_public_key(&mut self) -> (taken: Option<PublicKey>)
        ensures
            final(self).bytes() == old(self).bytes(),
            match taken {
                Some(key) => {
                    &&& old(self).remaining().len() >= 67
                    &&& key.0@ == old(self).remaining().take(67)
                    &&& final(self).offset() == old(self).offset() + 67
                },
                None => {
                    &&& old(self).remaining().len() < 67
                    &&& final(self).offset() == old(self).offset()
                },
            },
    {
        match self.next_bytes(67) {
            Some(b) => {
                let data = array_from_slice::<67>(b);
                assert(b@.take(67) =~= b@);
                Some(PublicKey(data))
            },
            None => None,
        }
    }

    /// Takes the next sixty-five bytes as a serialized signature.
    pub fn next_signature(&mut self) -> (taken: Option<Signature>)
        ensures
            final(self).bytes() == old(self).bytes(),
            match taken {
                Some(signature) => {
                    &&& old(self).remaining().len() >= 65
                    &&& signature.0@ == old(self).remaining().take(65)
                    &&& final(self).offset() == old(self).offset() + 65
                },
                None => {
                    &&& old(self).remaining().len() < 65
                    &&& final(self).offset() == old(self).offset()
                },
            },
    {
        match self.next_bytes(65) {
            Some(b) => {
                let data = array_from_slice::<65>(b);
                assert(b@.take(65) =~= b@);
                Some(Signature(data))
            },
            None => None,
        }
    }

    /// Takes a variable-length integer.
    pub fn next_var_uint(&mut self) -> (taken: Option<u64>)
        ensures
            final(self).bytes() == old(self).bytes(),
            match parse_var_uint(old(self).remaining()) {
                Ok((value, n)) => {
                    &&& taken == Some(value)
                    &&& final(self).offset() == old(self).offset() + n
                },
                Err(_) => {
                    &&& taken is None
                    &&& final(self).offset() == old(self).offset()
                },
            },
    {
        let start = self.pos;
        let marker = match self.next_u8() {
            Some(m) => m,
            None => {
                return None;
            },
        };
        proof {
            use_type_invariant(&*self);
        }
        assert(old(self).remaining().skip(1) =~= self.remaining());
        if marker < 0xFD {
            Some(marker as u64)
        } else if marker == 0xFD {
            match self.next_u16() {
                Some(v) => Some(v as u64),
                None => {
                    self.rewind(start);
                    None
                },
            }
        } else if marker == 0xFE {
            match self.next_u32() {
                Some(v) => Some(v as u64),
                None => {
                    self.rewind(start);
                    None
                },
            }
        } else {
            match self.next_u64() {
                Some(v) => Some(v),
                None => {
                    self.rewind(start);
                    None
                },
            }
        }
    }

    /// Takes a length-prefixed byte string.
    pub fn next_var_bytes(&mut self) -> (taken: Option<Vec<u8>>)
        ensures
            final(self).bytes() == old(self).bytes(),
            match parse_var_bytes(old(self).remaining()) {
                Ok((bytes, n)) => {
                    &&& taken is Some
                    &&& taken->Some_0@ == bytes
                    &&& final(self).offset() == old(self).offset() + n
                },
                Err(_) => {
                    &&& taken is None
                    &&& final(self).offset() == old(self).offset()
                },
            },
    {
        let start = self.pos;
        let len = match self.next_var_uint() {
            Some(len) => len,
            None => {
                return None;
            },
        };
        let ghost n = self.offset() - old(self).offset();
        proof {
            use_type_invariant(&*self);
        }
        assert(old(self).remaining().skip(n) =~= self.remaining());
        let left = self.len();
        if len > left as u64 {
            self.rewind(start);
            return None;
        }
        match self.next_bytes(len as usize) {
            Some(b) => {
                assert(b@ =~= old(self).remaining().subrange(n, n + len));
                Some(vstd::slice::slice_to_vec(b))
            },
            None => {
                self.rewind(start);
                None
            },
        }
    }
}

} // verus!
