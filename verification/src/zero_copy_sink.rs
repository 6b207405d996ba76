//! The writer half of the binary codec.
use vstd::prelude::*;
use crate::public_key::PublicKey;
use crate::signature::Signature;
use crate::util::{EthAddress, H256};
use crate::wire::{u16_le, u32_le, u64_le, var_bytes, var_uint};

verus! {

/// A growing byte buffer that values are appended to in wire format.
pub struct ZeroCopySink {
    buf: Vec<u8>,
}

impl View for ZeroCopySink {
    type V = Seq<u8>;

    /// The bytes written so far.
    closed spec fn view(&self) -> Seq<u8> {
        self.buf@
    }
}

impl ZeroCopySink {
    /// An empty sink.
    pub fn new() -> (sink: Self)
        ensures
            sink@ == Seq::<u8>::empty(),
    {
        ZeroCopySink { buf: Vec::new() }
    }

    /// The number of bytes written so far.
    pub fn len(&self) -> (n: usize)
        ensures
            n == self@.len(),
    {
        self.buf.len()
    }

    /// Appends one byte.
    pub fn write_u8(&mut self, value: u8)
        ensures
            final(self)@ == old(self)@.push(value),
    {
        self.buf.push(value);
    }

    /// Appends `value` in two bytes, least significant first.
    pub fn write_u16(&mut self, value: u16)
        ensures
            final(self)@ == old(self)@ + u16_le(value),
    {
        self.buf.push((value % 256) as u8);
        self.buf.push((value / 256) as u8);
        assert(self.buf@ =~= old(self)@ + u16_le(value));
    }

    /// Appends `value` in four bytes, least significant first.
    pub fn write_u32(&mut self, value: u32)
        ensures
            final(self)@ == old(self)@ + u32_le(value),
    {
        let q1: u32 = value / 256;
        let q2: u32 = q1 / 256;
        let q3: u32 = q2 / 256;
        self.buf.push((value % 256) as u8);
        self.buf.push((q1 % 256) as u8);
        self.buf.push((q2 % 256) as u8);
        self.buf.push(q3 as u8);
        assert(self.buf@ =~= old(self)@ + u32_le(value));
    }

    /// Appends `value` in eight bytes, least significant first.
    pub fn write_u64(&mut self, value: u64)
        ensures
            final(self)@ == old(self)@ + u64_le(value),
    {
        let q1: u64 = value / 256;
        let q2: u64 = q1 / 256;
        let q3: u64 = q2 / 256;
        let q4: u64 = q3 / 256;
        let q5: u64 = q4 / 256;
        let q6: u64 = q5 / 256;
        let q7: u64 = q6 / 256;
        self.buf.push((value % 256) as u8);
        self.buf.push((q1 % 256) as u8);
        self.buf.push((q2 % 256) as u8);
        self.buf.push((q3 % 256) as u8);
        self.buf.push((q4 % 256) as u8);
        self.buf.push((q5 % 256) as u8);
        self.buf.push((q6 % 256) as u8);
        self.buf.push(q7 as u8);
        assert(self.buf@ =~= old(self)@ + u64_le(value));
    }

    /// Appends `bytes` as they are, with no length in front.
    pub fn write_bytes(&mut self, bytes: &[u8])
        ensures
            final(self)@ == old(self)@ + bytes@,
    {
        let mut i: usize = 0;
        while i < bytes.len()
            invariant
                i <= bytes.len(),
                self.buf@ == old(self)@ + bytes@.take(i as int),
            decreases bytes.len() - i,
        {
            self.buf.push(bytes[i]);
            assert(bytes@.take(i + 1) =~= bytes@.take(i as int).push(bytes[i as int]));
            assert(self.buf@ =~= old(self)@ + bytes@.take(i + 1));
            i += 1;
        }
        assert(bytes@.take(bytes.len() as int) =~= bytes@);
    }

    /// Appends the thirty-two bytes of a digest.
    pub fn write_hash(&mut self, hash: &H256)
        ensures
            final(self)@ == old(self)@ + hash.0@,
    {
        self.write_bytes(hash.as_slice());
    }

    /// Appends the twenty bytes of an address.
    pub fn write_address(&mut self, address: &EthAddress)
        ensures
            final(self)@ == old(self)@ + address.0@,
    {
        self.write_bytes(address.as_slice());
    }

    /// Appends a serialized public key.
    pub fn write_public_key(&mut self, key: &PublicKey)
        ensures
            final(self)@ == old(self)@ + key.0@,
    {
        self.write_bytes(key.as_slice());
    }

    /// Appends a serialized signature.
    pub fn write_signature(&mut self, signature: &Signature)
        ensures
            final(self)@ == old(self)@ + signature.0@,
    {
        self.write_bytes(signature.as_slice());
    }

    /// Appends `value` as a variable-length integer.
    pub fn write_var_uint(&mut self, value: u64)
        ensures
            final(self)@ == old(self)@ + var_uint(value),
    {
        if value < 0xFD {
            self.write_u8(value as u8);
            assert(self.buf@ =~= old(self)@ + var_uint(value));
        } else if value <= 0xFFFF {
            self.write_u8(0xFD);
            self.write_u16(value as u16);
            assert(self.buf@ =~= old(self)@ + var_uint(value));
        } else if value <= 0xFFFF_FFFF {
            self.write_u8(0xFE);
            self.write_u32(value as u32);
            assert(self.buf@ =~= old(self)@ + var_uint(value));
        } else {
            self.write_u8(0xFF);
            self.write_u64(value);
            assert(self.buf@ =~= old(self)@ + var_uint(value));
        }
    }

    /// Appends the length of `bytes` as a variable-length integer, then `bytes`.
    pub fn write_var_bytes(&mut self, bytes: &[u8])
        ensures
            final(self)@ == old(self)@ + var_bytes(bytes@),
    {
        self.write_var_uint(bytes.len() as u64);
        self.write_bytes(bytes);
        assert(self.buf@ =~= old(self)@ + var_bytes(bytes@));
    }

    /// Hands out the bytes written.
    pub fn get_sink(self) -> (bytes: Vec<u8>)
        ensures
            bytes@ == self@,
    {
        self.buf
    }
}

} // verus!
