//! Block headers of the remote chain and their wire format.
use vstd::prelude::*;
use crate::consensus_payload::{ConsensusPayload, ConsensusPayloadView};
use crate::public_key::PublicKey;
use crate::signature::Signature;
use crate::util::{array_of, copy_vec, lemma_array_of, EthAddress, H256, POLYCHAIN_EPOCH_HEIGHT};
use crate::wire::{
    all_of_width, chunks, concat, counted, le_u32, le_u64, lemma_counted_prefix,
    lemma_counted_round_trip, lemma_u32_round_trip, lemma_u64_round_trip, parse_counted,
    parse_var_uint, prefix_outcome, u32_le, u64_le, DecodeError,
};
use crate::zero_copy_sink::ZeroCopySink;
use crate::zero_copy_source::ZeroCopySource;

verus! {

/// One block header of a remote chain.
#[derive(Debug, PartialEq, Eq)]
pub struct Header {
    pub version: u32,
    /// Which remote chain the block belongs to.
    pub chain_id: u64,
    pub prev_block_hash: H256,
    pub transactions_root: H256,
    pub cross_state_root: H256,
    pub block_root: H256,
    pub timestamp: u32,
    pub height: u32,
    pub consensus_data: u64,
    /// Present only on blocks that change the consensus epoch.
    pub consensus_payload: Option<ConsensusPayload>,
    pub next_book_keeper: EthAddress,
    /// The keys that are expected to have signed this header.
    pub book_keepers: Vec<PublicKey>,
    /// The signatures, in no particular order relative to `book_keepers`.
    pub sig_data: Vec<Signature>,
    /// The hash that the header declares for itself.
    pub block_hash: H256,
}

/// A [`Header`] as a mathematical value.
pub struct HeaderView {
    pub version: u32,
    pub chain_id: u64,
    pub prev_block_hash: H256,
    pub transactions_root: H256,
    pub cross_state_root: H256,
    pub block_root: H256,
    pub timestamp: u32,
    pub height: u32,
    pub consensus_data: u64,
    pub consensus_payload: Option<ConsensusPayloadView>,
    pub next_book_keeper: EthAddress,
    pub book_keepers: Seq<PublicKey>,
    pub sig_data: Seq<Signature>,
    pub block_hash: H256,
}

impl View for Header {
    type V = HeaderView;

    open spec fn view(&self) -> HeaderView {
        HeaderView {
            version: self.version,
            chain_id: self.chain_id,
            prev_block_hash: self.prev_block_hash,
            transactions_root: self.transactions_root,
            cross_state_root: self.cross_state_root,
            block_root: self.block_root,
            timestamp: self.timestamp,
            height: self.height,
            consensus_data: self.consensus_data,
            consensus_payload: payload_view(self.consensus_payload),
            next_book_keeper: self.next_book_keeper,
            book_keepers: self.book_keepers@,
            sig_data: self.sig_data@,
            block_hash: self.block_hash,
        }
    }
}

/// The serialized forms of `keys`, in order.
pub open spec fn key_items(keys: Seq<PublicKey>) -> Seq<Seq<u8>> {
    Seq::new(keys.len(), |i: int| keys[i].0@)
}

/// The keys whose serialized forms are `items`, in order.
pub open spec fn keys_of(items: Seq<Seq<u8>>) -> Seq<PublicKey> {
    Seq::new(items.len(), |i: int| PublicKey(array_of::<67>(items[i])))
}

/// The serialized forms of `signatures`, in order.
pub open spec fn signature_items(signatures: Seq<Signature>) -> Seq<Seq<u8>> {
    Seq::new(signatures.len(), |i: int| signatures[i].0@)
}

/// The signatures whose serialized forms are `items`, in order.
pub open spec fn signatures_of(items: Seq<Seq<u8>>) -> Seq<Signature> {
    Seq::new(items.len(), |i: int| Signature(array_of::<65>(items[i])))
}

/// An optional payload as a mathematical value.
pub open spec fn payload_view(payload: Option<ConsensusPayload>) -> Option<ConsensusPayloadView> {
    match payload {
        Some(payload) => Some(payload@),
        None => None,
    }
}

/// The wire form of an optional payload: the tag byte `0` for none, or `1` and the payload.
pub open spec fn optional_payload(payload: Option<ConsensusPayloadView>) -> Seq<u8> {
    match payload {
        None => seq![0u8],
        Some(payload) => seq![1u8] + payload.encoding(),
    }
}

/// Reads an optional payload from the front of `s`.
pub open spec fn parse_optional_payload(s: Seq<u8>) -> Result<
    (Option<ConsensusPayloadView>, int),
    DecodeError,
> {
    if s.len() < 1 {
        Err(DecodeError::InputTooShort)
    } else if s[0] == 0 {
        Ok((None, 1))
    } else if s[0] == 1 {
        match ConsensusPayloadView::parse(s.skip(1)) {
            Err(e) => Err(e),
            Ok((payload, n)) => Ok((Some(payload), 1 + n)),
        }
    } else {
        Err(DecodeError::InvalidValue)
    }
}

impl HeaderView {
    /// Whether the lengths of the header's lists can be written down.
    pub open spec fn valid(self) -> bool {
        &&& self.book_keepers.len() <= u64::MAX
        &&& self.sig_data.len() <= u64::MAX
        &&& self.consensus_payload matches Some(payload) ==> payload.valid()
    }

    /// The wire form of the fields before the consensus payload.
    #[verifier::opaque]
    pub open spec fn fixed_part(self) -> Seq<u8> {
        u32_le(self.version) + u64_le(self.chain_id) + self.prev_block_hash.0@
            + self.transactions_root.0@ + self.cross_state_root.0@ + self.block_root.0@ + u32_le(
            self.timestamp,
        ) + u32_le(self.height) + u64_le(self.consensus_data)
    }

    /// The signed part of the header: every field up to and including `next_book_keeper`.
    pub open spec fn partial_encoding(self) -> Seq<u8> {
        self.fixed_part() + optional_payload(self.consensus_payload) + self.next_book_keeper.0@
    }

    /// The wire form of what follows the signed part: the signer keys, the signatures and
    /// the declared hash.
    pub open spec fn witness_encoding(self) -> Seq<u8> {
        counted(key_items(self.book_keepers)) + counted(signature_items(self.sig_data))
            + self.block_hash.0@
    }

    /// The wire form of the whole header: the signed part, then the signer keys, the
    /// signatures and the declared hash.
    pub open spec fn encoding(self) -> Seq<u8> {
        self.partial_encoding() + self.witness_encoding()
    }

    /// Reads the signed part of a header from the front of `s`: the fields before the
    /// payload, the optional payload and the next book keeper.
    #[verifier::opaque]
    pub open spec fn parse_signed_part(s: Seq<u8>) -> Result<
        ((Preamble, Option<ConsensusPayloadView>, EthAddress), int),
        DecodeError,
    > {
        if s.len() < 156 {
            Err(DecodeError::InputTooShort)
        } else {
            match parse_optional_payload(s.skip(156)) {
                Err(e) => Err(e),
                Ok((payload, n)) => {
                    let a = 156 + n;
                    if s.len() - a < 20 {
                        Err(DecodeError::InputTooShort)
                    } else {
                        Ok(
                            (
                                (
                                    preamble_of(s),
                                    payload,
                                    EthAddress(array_of::<20>(s.subrange(a, a + 20))),
                                ),
                                a + 20,
                            ),
                        )
                    }
                },
            }
        }
    }

    /// Reads what follows the signed part from the front of `s`: the signer keys, the
    /// signatures and the declared hash.
    #[verifier::opaque]
    pub open spec fn parse_witness(s: Seq<u8>) -> Result<
        ((Seq<PublicKey>, Seq<Signature>, H256), int),
        DecodeError,
    > {
        match parse_counted(s, 67) {
            Err(e) => Err(e),
            Ok((keys, n)) => match parse_counted(s.skip(n), 65) {
                Err(e) => Err(e),
                Ok((signatures, k)) => {
                    let c = n + k;
                    if s.len() - c < 32 {
                        Err(DecodeError::InputTooShort)
                    } else {
                        Ok(
                            (
                                (
                                    keys_of(keys),
                                    signatures_of(signatures),
                                    H256(array_of::<32>(s.subrange(c, c + 32))),
                                ),
                                c + 32,
                            ),
                        )
                    }
                },
            },
        }
    }

    /// The header made of a signed part and what follows it.
    pub open spec fn assemble(
        signed: (Preamble, Option<ConsensusPayloadView>, EthAddress),
        witness: (Seq<PublicKey>, Seq<Signature>, H256),
    ) -> HeaderView {
        HeaderView {
            version: signed.0.version,
            chain_id: signed.0.chain_id,
            prev_block_hash: signed.0.prev_block_hash,
            transactions_root: signed.0.transactions_root,
            cross_state_root: signed.0.cross_state_root,
            block_root: signed.0.block_root,
            timestamp: signed.0.timestamp,
            height: signed.0.height,
            consensus_data: signed.0.consensus_data,
            consensus_payload: signed.1,
            next_book_keeper: signed.2,
            book_keepers: witness.0,
            sig_data: witness.1,
            block_hash: witness.2,
        }
    }

    /// Reads a header from the front of `s`: the header and the number of bytes it took, or
    /// the first thing that went wrong.
    pub open spec fn parse(s: Seq<u8>) -> Result<(HeaderView, int), DecodeError> {
        match Self::parse_signed_part(s) {
            Err(e) => Err(e),
            Ok((signed, a)) => match Self::parse_witness(s.skip(a)) {
                Err(e) => Err(e),
                Ok((witness, n)) => Ok((Self::assemble(signed, witness), a + n)),
            },
        }
    }
}

impl Clone for Header {
    fn clone(&self) -> (copy: Self)
        ensures
            copy@ == self@,
    {
        Header {
            version: self.version,
            chain_id: self.chain_id,
            prev_block_hash: self.prev_block_hash,
            transactions_root: self.transactions_root,
            cross_state_root: self.cross_state_root,
            block_root: self.block_root,
            timestamp: self.timestamp,
            height: self.height,
            consensus_data: self.consensus_data,
            consensus_payload: match &self.consensus_payload {
                Some(payload) => Some(payload.clone()),
                None => None,
            },
            next_book_keeper: self.next_book_keeper,
            book_keepers: copy_vec(&self.book_keepers),
            sig_data: copy_vec(&self.sig_data),
            block_hash: self.block_hash,
        }
    }
}

impl Header {
    /// Whether the block is the first of a consensus epoch of the remote chain.
    pub fn is_start_of_epoch(&self) -> (first: bool)
        ensures
            first == (self.height % POLYCHAIN_EPOCH_HEIGHT == 0),
    {
        self.height % POLYCHAIN_EPOCH_HEIGHT == 0
    }

    /// A sink that holds the signed part of the header.
    pub fn serialize_partial(&self) -> (sink: ZeroCopySink)
        ensures
            sink@ == self@.partial_encoding(),
    {
        let mut sink = ZeroCopySink::new();
        sink.write_u32(self.version);
        sink.write_u64(self.chain_id);
        sink.write_hash(&self.prev_block_hash);
        sink.write_hash(&self.transactions_root);
        sink.write_hash(&self.cross_state_root);
        sink.write_hash(&self.block_root);
        sink.write_u32(self.timestamp);
        sink.write_u32(self.height);
        sink.write_u64(self.consensus_data);
        assert(sink@ =~= self@.fixed_part()) by {
            reveal(HeaderView::fixed_part);
        }
        match &self.consensus_payload {
            Some(payload) => {
                sink.write_u8(1);
                payload.dep_encode(&mut sink);
                assert(sink@ =~= self@.fixed_part() + optional_payload(self@.consensus_payload));
            },
            None => {
                sink.write_u8(0);
                assert(sink@ =~= self@.fixed_part() + optional_payload(self@.consensus_payload));
            },
        }
        sink.write_address(&self.next_book_keeper);
        sink
    }

    /// The signed part of the header: every field up to and including `next_book_keeper`,
    /// without the signer keys, the signatures and the declared hash.
    pub fn get_partial_serialized(&self) -> (bytes: Vec<u8>)
        ensures
            bytes@ == self@.partial_encoding(),
    {
        self.serialize_partial().get_sink()
    }

    /// Appends the wire form of the whole header to `dest`.
    pub fn dep_encode(&self, dest: &mut Vec<u8>)
        ensures
            final(dest)@ == old(dest)@ + self@.encoding(),
    {
        let mut sink = self.serialize_partial();
        let n_keys = self.book_keepers.len();
        sink.write_var_uint(n_keys as u64);
        let ghost keys = key_items(self.book_keepers@);
        let ghost before_keys = sink@;
        let mut i: usize = 0;
        while i < n_keys
            invariant
                i <= n_keys == self.book_keepers.len(),
                keys == key_items(self.book_keepers@),
                sink@ == before_keys + concat(keys.take(i as int)),
            decreases n_keys - i,
        {
            sink.write_public_key(&self.book_keepers[i]);
            assert(keys.take(i + 1).drop_last() =~= keys.take(i as int));
            assert(sink@ =~= before_keys + concat(keys.take(i + 1)));
            i += 1;
        }
        assert(keys.take(n_keys as int) =~= keys);
        assert(sink@ =~= self@.partial_encoding() + counted(keys));

        let n_sigs = self.sig_data.len();
        sink.write_var_uint(n_sigs as u64);
        let ghost sigs = signature_items(self.sig_data@);
        let ghost before_sigs = sink@;
        let mut j: usize = 0;
        while j < n_sigs
            invariant
                j <= n_sigs == self.sig_data.len(),
                sigs == signature_items(self.sig_data@),
                sink@ == before_sigs + concat(sigs.take(j as int)),
            decreases n_sigs - j,
        {
            sink.write_signature(&self.sig_data[j]);
            assert(sigs.take(j + 1).drop_last() =~= sigs.take(j as int));
            assert(sink@ =~= before_sigs + concat(sigs.take(j + 1)));
            j += 1;
        }
        assert(sigs.take(n_sigs as int) =~= sigs);
        assert(sink@ =~= self@.partial_encoding() + counted(keys) + counted(sigs));

        sink.write_hash(&self.block_hash);
        assert(sink@ =~= self@.encoding());
        let mut bytes = sink.get_sink();
        dest.append(&mut bytes);
    }
}

/// Reads a counted list of public keys at the cursor. On failure the cursor stays where it
/// was.
pub fn read_public_keys(source: &mut ZeroCopySource) -> (decoded: Result<
    Vec<PublicKey>,
    DecodeError,
>)
    ensures
        final(source).bytes() == old(source).bytes(),
        match parse_counted(old(source).remaining(), 67) {
            Ok((items, n)) => {
                &&& decoded is Ok
                &&& decoded->Ok_0@ == keys_of(items)
                &&& final(source).offset() == old(source).offset() + n
            },
            Err(e) => {
                &&& decoded == Err::<Vec<PublicKey>, DecodeError>(e)
                &&& final(source).offset() == old(source).offset()
            },
        },
{
    let start = source.pos();
    let count = match source.next_var_uint() {
        Some(count) => count,
        None => {
            return Err(DecodeError::InputTooShort);
        },
    };
    let ghost c = source.offset() - old(source).offset();
    let ghost rest = source.remaining();
    let _ = source.len();
    assert(rest =~= old(source).remaining().skip(c));
    let mut keys: Vec<PublicKey> = Vec::new();
    let mut i: u64 = 0;
    while i < count
        invariant
            i <= count,
            source.bytes() == old(source).bytes(),
            source.offset() == old(source).offset() + c + 67 * i,
            0 <= old(source).offset() + c <= source.bytes().len(),
            rest == old(source).bytes().skip(old(source).offset() + c),
            67 * i <= rest.len(),
            start == old(source).offset(),
            c >= 0,
            parse_var_uint(old(source).remaining()) == Ok::<(u64, int), DecodeError>((count, c)),
            keys@ == keys_of(chunks(rest, 67, i as int)),
        decreases count - i,
    {
        match source.next_public_key() {
            Some(key) => {
                proof {
                    let at = old(source).offset() + c + 67 * i;
                    assert(old(source).bytes().skip(at).take(67) =~= rest.subrange(
                        i * 67,
                        i * 67 + 67,
                    ));
                    lemma_array_of(key.0);
                }
                keys.push(key);
                assert(keys@ =~= keys_of(chunks(rest, 67, i + 1)));
                i += 1;
            },
            None => {
                assert(source.remaining().len() == rest.len() - 67 * i);
                source.rewind(start);
                return Err(DecodeError::InputTooShort);
            },
        }
    }
    Ok(keys)
}

/// Reads a counted list of signatures at the cursor. On failure the cursor stays where it
/// was.
pub fn read_signatures(source: &mut ZeroCopySource) -> (decoded: Result<
    Vec<Signature>,
    DecodeError,
>)
    ensures
        final(source).bytes() == old(source).bytes(),
        match parse_counted(old(source).remaining(), 65) {
            Ok((items, n)) => {
                &&& decoded is Ok
                &&& decoded->Ok_0@ == signatures_of(items)
                &&& final(source).offset() == old(source).offset() + n
            },
            Err(e) => {
                &&& decoded == Err::<Vec<Signature>, DecodeError>(e)
                &&& final(source).offset() == old(source).offset()
            },
        },
{
    let start = source.pos();
    let count = match source.next_var_uint() {
        Some(count) => count,
        None => {
            return Err(DecodeError::InputTooShort);
        },
    };
    let ghost c = source.offset() - old(source).offset();
    let ghost rest = source.remaining();
    let _ = source.len();
    assert(rest =~= old(source).remaining().skip(c));
    let mut signatures: Vec<Signature> = Vec::new();
    let mut i: u64 = 0;
    while i < count
        invariant
            i <= count,
            source.bytes() == old(source).bytes(),
            source.offset() == old(source).offset() + c + 65 * i,
            0 <= old(source).offset() + c <= source.bytes().len(),
            rest == old(source).bytes().skip(old(source).offset() + c),
            65 * i <= rest.len(),
            start == old(source).offset(),
            c >= 0,
            parse_var_uint(old(source).remaining()) == Ok::<(u64, int), DecodeError>((count, c)),
            signatures@ == signatures_of(chunks(rest, 65, i as int)),
        decreases count - i,
    {
        match source.next_signature() {
            Some(signature) => {
                proof {
                    let at = old(source).offset() + c + 65 * i;
                    assert(old(source).bytes().skip(at).take(65) =~= rest.subrange(
                        i * 65,
                        i * 65 + 65,
                    ));
                    lemma_array_of(signature.0);
                }
                signatures.push(signature);
                assert(signatures@ =~= signatures_of(chunks(rest, 65, i + 1)));
                i += 1;
            },
            None => {
                assert(source.remaining().len() == rest.len() - 65 * i);
                source.rewind(start);
                return Err(DecodeError::InputTooShort);
            },
        }
    }
    Ok(signatures)
}

/// Reads an optional payload at the cursor. On failure the cursor stays where it was.
pub fn read_optional_payload(source: &mut ZeroCopySource) -> (decoded: Result<
    Option<ConsensusPayload>,
    DecodeError,
>)
    ensures
        final(source).bytes() == old(source).bytes(),
        match parse_optional_payload(old(source).remaining()) {
            Ok((payload, n)) => {
                &&& decoded is Ok
                &&& payload_view(decoded->Ok_0) == payload
                &&& final(source).offset() == old(source).offset() + n
            },
            Err(e) => {
                &&& decoded == Err::<Option<ConsensusPayload>, DecodeError>(e)
                &&& final(source).offset() == old(source).offset()
            },
        },
{
    let start = source.pos();
    let tag = match source.next_u8() {
        Some(tag) => tag,
        None => {
            return Err(DecodeError::InputTooShort);
        },
    };
    let _ = source.len();
    assert(source.remaining() =~= old(source).remaining().skip(1));
    if tag == 0 {
        Ok(None)
    } else if tag == 1 {
        match ConsensusPayload::decode_from_source(source) {
            Ok(payload) => Ok(Some(payload)),
            Err(e) => {
                source.rewind(start);
                Err(e)
            },
        }
    } else {
        source.rewind(start);
        Err(DecodeError::InvalidValue)
    }
}

/// The fields of a header that come before the consensus payload.
pub struct Preamble {
    pub version: u32,
    pub chain_id: u64,
    pub prev_block_hash: H256,
    pub transactions_root: H256,
    pub cross_state_root: H256,
    pub block_root: H256,
    pub timestamp: u32,
    pub height: u32,
    pub consensus_data: u64,
}

/// The fields that the first 156 bytes of `s` hold.
pub open spec fn preamble_of(s: Seq<u8>) -> Preamble
    recommends
        s.len() >= 156,
{
    Preamble {
        version: le_u32(s),
        chain_id: le_u64(s.skip(4)),
        prev_block_hash: H256(array_of::<32>(s.subrange(12, 44))),
        transactions_root: H256(array_of::<32>(s.subrange(44, 76))),
        cross_state_root: H256(array_of::<32>(s.subrange(76, 108))),
        block_root: H256(array_of::<32>(s.subrange(108, 140))),
        timestamp: le_u32(s.skip(140)),
        height: le_u32(s.skip(144)),
        consensus_data: le_u64(s.skip(148)),
    }
}

/// Reads the fields before the consensus payload, if 156 bytes are left. Otherwise the
/// cursor stays where it was.
pub fn read_preamble(source: &mut ZeroCopySource) -> (taken: Option<Preamble>)
    ensures
        final(source).bytes() == old(source).bytes(),
        match taken {
            Some(preamble) => {
                &&& old(source).remaining().len() >= 156
                &&& preamble == preamble_of(old(source).remaining())
                &&& final(source).offset() == old(source).offset() + 156
            },
            None => {
                &&& old(source).remaining().len() < 156
                &&& final(source).offset() == old(source).offset()
            },
        },
{
    let start = source.pos();
    let _ = source.len();
    let ghost all = source.remaining();
    let version = match source.next_u32() {
        Some(value) => value,
        None => {
            source.rewind(start);
            return None;
        },
    };
    assert(source.remaining() =~= all.skip(4));
    let chain_id = match source.next_u64() {
        Some(value) => value,
        None => {
            source.rewind(start);
            return None;
        },
    };
    assert(source.remaining() =~= all.skip(12));
    let prev_block_hash = match source.next_hash() {
        Some(value) => value,
        None => {
            source.rewind(start);
            return None;
        },
    };
    assert(source.remaining() =~= all.skip(44));
    proof {
        assert(all.skip(12).take(32) =~= all.subrange(12, 44));
        lemma_array_of(prev_block_hash.0);
    }
    let transactions_root = match source.next_hash() {
        Some(value) => value,
        None => {
            source.rewind(start);
            return None;
        },
    };
    assert(source.remaining() =~= all.skip(76));
    proof {
        assert(all.skip(44).take(32) =~= all.subrange(44, 76));
        lemma_array_of(transactions_root.0);
    }
    let cross_state_root = match source.next_hash() {
        Some(value) => value,
        None => {
            source.rewind(start);
            return None;
        },
    };
    assert(source.remaining() =~= all.skip(108));
    proof {
        assert(all.skip(76).take(32) =~= all.subrange(76, 108));
        lemma_array_of(cross_state_root.0);
    }
    let block_root = match source.next_hash() {
        Some(value) => value,
        None => {
            source.rewind(start);
            return None;
        },
    };
    assert(source.remaining() =~= all.skip(140));
    proof {
        assert(all.skip(108).take(32) =~= all.subrange(108, 140));
        lemma_array_of(block_root.0);
    }
    let timestamp = match source.next_u32() {
        Some(value) => value,
        None => {
            source.rewind(start);
            return None;
        },
    };
    assert(source.remaining() =~= all.skip(144));
    let height = match source.next_u32() {
        Some(value) => value,
        None => {
            source.rewind(start);
            return None;
        },
    };
    assert(source.remaining() =~= all.skip(148));
    let consensus_data = match source.next_u64() {
        Some(value) => value,
        None => {
            source.rewind(start);
            return None;
        },
    };
    assert(source.remaining() =~= all.skip(156));
    Some(
        Preamble {
            version,
            chain_id,
            prev_block_hash,
            transactions_root,
            cross_state_root,
            block_root,
            timestamp,
            height,
            consensus_data,
        },
    )
}

/// Reads the signed part of a header at the cursor. On failure the cursor stays where it
/// was.
pub fn read_signed_part(source: &mut ZeroCopySource) -> (decoded: Result<
    (Preamble, Option<ConsensusPayload>, EthAddress),
    DecodeError,
>)
    ensures
        final(source).bytes() == old(source).bytes(),
        final(source).offset() >= old(source).offset(),
        match HeaderView::parse_signed_part(old(source).remaining()) {
            Ok((signed, n)) => {
                &&& decoded is Ok
                &&& decoded->Ok_0.0 == signed.0
                &&& payload_view(decoded->Ok_0.1) == signed.1
                &&& decoded->Ok_0.2 == signed.2
                &&& final(source).offset() == old(source).offset() + n
            },
            Err(e) => {
                &&& decoded is Err
                &&& decoded->Err_0 == e
                &&& final(source).offset() == old(source).offset()
            },
        },
{
    reveal(HeaderView::parse_signed_part);
    let start = source.pos();
    let _ = source.len();
    let ghost all = source.remaining();
    let preamble = match read_preamble(source) {
        Some(preamble) => preamble,
        None => {
            return Err(DecodeError::InputTooShort);
        },
    };
    assert(source.remaining() =~= all.skip(156));
    let consensus_payload = match read_optional_payload(source) {
        Ok(payload) => payload,
        Err(e) => {
            source.rewind(start);
            return Err(e);
        },
    };
    let ghost a = source.offset() - old(source).offset();
    assert(source.remaining() =~= all.skip(a));
    let next_book_keeper = match source.next_address() {
        Some(value) => value,
        None => {
            source.rewind(start);
            return Err(DecodeError::InputTooShort);
        },
    };
    proof {
        assert(all.skip(a).take(20) =~= all.subrange(a, a + 20));
        lemma_array_of(next_book_keeper.0);
    }
    Ok((preamble, consensus_payload, next_book_keeper))
}

/// Reads the signer keys, the signatures and the declared hash at the cursor. On failure the
/// cursor stays where it was.
pub fn read_witness(source: &mut ZeroCopySource) -> (decoded: Result<
    (Vec<PublicKey>, Vec<Signature>, H256),
    DecodeError,
>)
    ensures
        final(source).bytes() == old(source).bytes(),
        final(source).offset() >= old(source).offset(),
        match HeaderView::parse_witness(old(source).remaining()) {
            Ok((witness, n)) => {
                &&& decoded is Ok
                &&& decoded->Ok_0.0@ == witness.0
                &&& decoded->Ok_0.1@ == witness.1
                &&& decoded->Ok_0.2 == witness.2
                &&& final(source).offset() == old(source).offset() + n
            },
            Err(e) => {
                &&& decoded is Err
                &&& decoded->Err_0 == e
                &&& final(source).offset() == old(source).offset()
            },
        },
{
    reveal(HeaderView::parse_witness);
    let start = source.pos();
    let _ = source.len();
    let ghost all = source.remaining();
    let book_keepers = match read_public_keys(source) {
        Ok(keys) => keys,
        Err(e) => {
            return Err(e);
        },
    };
    let ghost b = source.offset() - old(source).offset();
    assert(source.remaining() =~= all.skip(b));
    let sig_data = match read_signatures(source) {
        Ok(signatures) => signatures,
        Err(e) => {
            source.rewind(start);
            return Err(e);
        },
    };
    let ghost c = source.offset() - old(source).offset();
    assert(source.remaining() =~= all.skip(c));
    let block_hash = match source.next_hash() {
        Some(value) => value,
        None => {
            source.rewind(start);
            return Err(DecodeError::InputTooShort);
        },
    };
    proof {
        assert(all.skip(c).take(32) =~= all.subrange(c, c + 32));
        lemma_array_of(block_hash.0);
    }
    Ok((book_keepers, sig_data, block_hash))
}

impl Header {
    /// Reads a header at the cursor and moves the cursor past it. Where the bytes do not
    /// hold a header, says why and leaves the cursor where it was.
    pub fn decode_from_source(source: &mut ZeroCopySource) -> (decoded: Result<Self, DecodeError>)
        ensures
            final(source).bytes() == old(source).bytes(),
            match HeaderView::parse(old(source).remaining()) {
                Ok((header, n)) => {
                    &&& decoded is Ok
                    &&& decoded->Ok_0@ == header
                    &&& final(source).offset() == old(source).offset() + n
                },
                Err(e) => {
                    &&& decoded == Err::<Self, DecodeError>(e)
                    &&& final(source).offset() == old(source).offset()
                },
            },
    {
        let start = source.pos();
        let _ = source.len();
        let ghost all = source.remaining();
        let (preamble, consensus_payload, next_book_keeper) = match read_signed_part(source) {
            Ok(signed) => signed,
            Err(e) => {
                return Err(e);
            },
        };
        let ghost a = source.offset() - old(source).offset();
        let _ = source.len();
        assert(source.remaining() =~= all.skip(a));
        let (book_keepers, sig_data, block_hash) = match read_witness(source) {
            Ok(witness) => witness,
            Err(e) => {
                source.rewind(start);
                return Err(e);
            },
        };
        Ok(
            Header {
                version: preamble.version,
                chain_id: preamble.chain_id,
                prev_block_hash: preamble.prev_block_hash,
                transactions_root: preamble.transactions_root,
                cross_state_root: preamble.cross_state_root,
                block_root: preamble.block_root,
                timestamp: preamble.timestamp,
                height: preamble.height,
                consensus_data: preamble.consensus_data,
                consensus_payload,
                next_book_keeper,
                book_keepers,
                sig_data,
                block_hash,
            },
        )
    }

    /// Reads a header from the front of `input`. Bytes after the header are ignored.
    pub fn dep_decode(input: &[u8]) -> (decoded: Result<Self, DecodeError>)
        ensures
            match HeaderView::parse(input@) {
                Ok((header, _)) => decoded is Ok && decoded->Ok_0@ == header,
                Err(e) => decoded == Err::<Self, DecodeError>(e),
            },
    {
        let mut source = ZeroCopySource::new(input);
        assert(source.remaining() =~= input@);
        Self::decode_from_source(&mut source)
    }
}

/// Serialized keys read back as the keys they came from.
pub proof fn lemma_key_items(keys: Seq<PublicKey>)
    ensures
        all_of_width(key_items(keys), 67),
        keys_of(key_items(keys)) == keys,
{
    assert forall|i: int| 0 <= i < keys.len() implies keys_of(key_items(keys))[i] == keys[i] by {
        lemma_array_of(keys[i].0);
    }
    assert(keys_of(key_items(keys)) =~= keys);
}

/// Serialized signatures read back as the signatures they came from.
pub proof fn lemma_signature_items(signatures: Seq<Signature>)
    ensures
        all_of_width(signature_items(signatures), 65),
        signatures_of(signature_items(signatures)) == signatures,
{
    assert forall|i: int| 0 <= i < signatures.len() implies signatures_of(
        signature_items(signatures),
    )[i] == signatures[i] by {
        lemma_array_of(signatures[i].0);
    }
    assert(signatures_of(signature_items(signatures)) =~= signatures);
}

/// An optional payload followed by anything reads back as itself.
pub proof fn lemma_optional_payload_round_trip(
    payload: Option<ConsensusPayloadView>,
    rest: Seq<u8>,
)
    requires
        payload matches Some(p) ==> p.valid(),
    ensures
        parse_optional_payload(optional_payload(payload) + rest) == Ok::<
            (Option<ConsensusPayloadView>, int),
            DecodeError,
        >((payload, optional_payload(payload).len() as int)),
{
    let s = optional_payload(payload) + rest;
    match payload {
        None => {
            assert(s[0] == 0u8);
        },
        Some(p) => {
            assert(s[0] == 1u8);
            assert(s.skip(1) =~= p.encoding() + rest);
            p.lemma_round_trip(rest);
        },
    }
}

/// Cutting a byte string short leaves an optional payload readable, or too short.
pub proof fn lemma_optional_payload_prefix(s: Seq<u8>, m: int)
    requires
        0 <= m <= s.len(),
    ensures
        prefix_outcome(parse_optional_payload(s), m, parse_optional_payload(s.take(m))),
        parse_optional_payload(s) matches Ok((_, n)) ==> 1 <= n <= s.len(),
{
    if s.len() >= 1 && s[0] == 1 {
        ConsensusPayloadView::lemma_prefix(s.skip(1), 0);
        if m >= 1 {
            assert(s.take(m)[0] == s[0]);
            assert(s.take(m).skip(1) =~= s.skip(1).take(m - 1));
            ConsensusPayloadView::lemma_prefix(s.skip(1), m - 1);
        }
    } else if m >= 1 {
        assert(s.take(m)[0] == s[0]);
    }
}

/// The first 156 bytes alone decide the fields before the consensus payload.
pub proof fn lemma_preamble_agrees(s: Seq<u8>, t: Seq<u8>)
    requires
        s.len() >= 156,
        t.len() >= 156,
        s.take(156) == t.take(156),
    ensures
        preamble_of(s) == preamble_of(t),
{
    assert forall|i: int| 0 <= i < 156 implies s[i] == t[i] by {
        assert(s[i] == s.take(156)[i]);
        assert(t[i] == t.take(156)[i]);
    }
    assert(s.subrange(12, 44) =~= t.subrange(12, 44));
    assert(s.subrange(44, 76) =~= t.subrange(44, 76));
    assert(s.subrange(76, 108) =~= t.subrange(76, 108));
    assert(s.subrange(108, 140) =~= t.subrange(108, 140));
    assert(le_u32(s) == le_u32(t));
    assert(le_u64(s.skip(4)) == le_u64(t.skip(4))) by {
        assert(forall|i: int| 0 <= i < 8 ==> s.skip(4)[i] == s[i + 4] && t.skip(4)[i] == t[i + 4]);
    }
    assert(le_u32(s.skip(140)) == le_u32(t.skip(140))) by {
        assert(forall|i: int|
            0 <= i < 4 ==> s.skip(140)[i] == s[i + 140] && t.skip(140)[i] == t[i + 140]);
    }
    assert(le_u32(s.skip(144)) == le_u32(t.skip(144))) by {
        assert(forall|i: int|
            0 <= i < 4 ==> s.skip(144)[i] == s[i + 144] && t.skip(144)[i] == t[i + 144]);
    }
    assert(le_u64(s.skip(148)) == le_u64(t.skip(148))) by {
        assert(forall|i: int|
            0 <= i < 8 ==> s.skip(148)[i] == s[i + 148] && t.skip(148)[i] == t[i + 148]);
    }
}

impl HeaderView {
    /// The fields before the consensus payload take 156 bytes and read back as themselves.
    pub proof fn lemma_fixed_part(self)
        ensures
            self.fixed_part().len() == 156,
            preamble_of(self.fixed_part()) == (Preamble {
                version: self.version,
                chain_id: self.chain_id,
                prev_block_hash: self.prev_block_hash,
                transactions_root: self.transactions_root,
                cross_state_root: self.cross_state_root,
                block_root: self.block_root,
                timestamp: self.timestamp,
                height: self.height,
                consensus_data: self.consensus_data,
            }),
    {
        reveal(HeaderView::fixed_part);
        let s = self.fixed_part();
        lemma_u32_round_trip(self.version);
        lemma_u64_round_trip(self.chain_id);
        lemma_u32_round_trip(self.timestamp);
        lemma_u32_round_trip(self.height);
        lemma_u64_round_trip(self.consensus_data);
        assert(s.len() == 156);
        assert(s.subrange(0, 4) =~= u32_le(self.version));
        assert(s.subrange(4, 12) =~= u64_le(self.chain_id));
        assert(s.subrange(12, 44) =~= self.prev_block_hash.0@);
        assert(s.subrange(44, 76) =~= self.transactions_root.0@);
        assert(s.subrange(76, 108) =~= self.cross_state_root.0@);
        assert(s.subrange(108, 140) =~= self.block_root.0@);
        assert(s.subrange(140, 144) =~= u32_le(self.timestamp));
        assert(s.subrange(144, 148) =~= u32_le(self.height));
        assert(s.subrange(148, 156) =~= u64_le(self.consensus_data));
        lemma_array_of(self.prev_block_hash.0);
        lemma_array_of(self.transactions_root.0);
        lemma_array_of(self.cross_state_root.0);
        lemma_array_of(self.block_root.0);
        assert(le_u32(s) == self.version) by {
            assert(forall|i: int| 0 <= i < 4 ==> s[i] == s.subrange(0, 4)[i]);
        }
        assert(le_u64(s.skip(4)) == self.chain_id) by {
            assert(forall|i: int| 0 <= i < 8 ==> s.skip(4)[i] == s.subrange(4, 12)[i]);
        }
        assert(le_u32(s.skip(140)) == self.timestamp) by {
            assert(forall|i: int| 0 <= i < 4 ==> s.skip(140)[i] == s.subrange(140, 144)[i]);
        }
        assert(le_u32(s.skip(144)) == self.height) by {
            assert(forall|i: int| 0 <= i < 4 ==> s.skip(144)[i] == s.subrange(144, 148)[i]);
        }
        assert(le_u64(s.skip(148)) == self.consensus_data) by {
            assert(forall|i: int| 0 <= i < 8 ==> s.skip(148)[i] == s.subrange(148, 156)[i]);
        }
    }
}

impl HeaderView {
    /// The signed part of a header followed by anything reads back as itself.
    pub proof fn lemma_signed_part_round_trip(self, rest: Seq<u8>)
        requires
            self.valid(),
        ensures
            Self::parse_signed_part(self.partial_encoding() + rest) matches Ok((signed, n)) && n
                == self.partial_encoding().len() && signed.0 == (Preamble {
                version: self.version,
                chain_id: self.chain_id,
                prev_block_hash: self.prev_block_hash,
                transactions_root: self.transactions_root,
                cross_state_root: self.cross_state_root,
                block_root: self.block_root,
                timestamp: self.timestamp,
                height: self.height,
                consensus_data: self.consensus_data,
            }) && signed.1 == self.consensus_payload && signed.2 == self.next_book_keeper,
    {
        reveal(HeaderView::parse_signed_part);
        let s = self.partial_encoding() + rest;
        let fixed = self.fixed_part();
        let payload = optional_payload(self.consensus_payload);
        let keeper = self.next_book_keeper.0@;
        let tail1 = keeper + rest;
        let tail0 = payload + tail1;
        let a = 156 + payload.len() as int;
        self.lemma_fixed_part();
        assert(s =~= fixed + tail0);
        assert(s.skip(156) == tail0 && s.take(156) == fixed.take(156)) by {
            assert((fixed + tail0).skip(156) =~= tail0);
            assert((fixed + tail0).take(156) =~= fixed.take(156));
        }
        lemma_preamble_agrees(s, fixed);
        lemma_optional_payload_round_trip(self.consensus_payload, tail1);
        assert(s.subrange(a, a + 20) == keeper) by {
            assert(s.subrange(a, a + 20) =~= keeper);
        }
        lemma_array_of(self.next_book_keeper.0);
    }

    /// What follows the signed part, followed by anything, reads back as itself.
    pub proof fn lemma_witness_round_trip(self, rest: Seq<u8>)
        requires
            self.valid(),
        ensures
            Self::parse_witness(self.witness_encoding() + rest) == Ok::<
                ((Seq<PublicKey>, Seq<Signature>, H256), int),
                DecodeError,
            >(
                (
                    (self.book_keepers, self.sig_data, self.block_hash),
                    self.witness_encoding().len() as int,
                ),
            ),
    {
        reveal(HeaderView::parse_witness);
        let s = self.witness_encoding() + rest;
        let keys = counted(key_items(self.book_keepers));
        let signatures = counted(signature_items(self.sig_data));
        let hash = self.block_hash.0@;
        let tail1 = hash + rest;
        let tail0 = signatures + tail1;
        let c = (keys.len() + signatures.len()) as int;
        assert(s =~= keys + tail0);
        lemma_key_items(self.book_keepers);
        lemma_counted_round_trip(key_items(self.book_keepers), 67, tail0);
        assert(s.skip(keys.len() as int) == tail0) by {
            assert(s.skip(keys.len() as int) =~= tail0);
        }
        lemma_signature_items(self.sig_data);
        lemma_counted_round_trip(signature_items(self.sig_data), 65, tail1);
        assert(s.subrange(c, c + 32) == hash) by {
            assert(s.subrange(c, c + 32) =~= hash);
        }
        lemma_array_of(self.block_hash.0);
    }

    /// A header followed by anything reads back as itself, and takes just its own bytes.
    pub proof fn lemma_round_trip_with_suffix(self, rest: Seq<u8>)
        requires
            self.valid(),
        ensures
            Self::parse(self.encoding() + rest) == Ok::<(HeaderView, int), DecodeError>(
                (self, self.encoding().len() as int),
            ),
    {
        let signed_part = self.partial_encoding();
        let witness_part = self.witness_encoding();
        let tail = witness_part + rest;
        let s = self.encoding() + rest;
        let a = signed_part.len() as int;
        assert(s == signed_part + tail) by {
            assert((signed_part + witness_part) + rest =~= signed_part + (witness_part + rest));
        }
        self.lemma_signed_part_round_trip(tail);
        assert(s.skip(a) == tail) by {
            assert((signed_part + tail).skip(a) =~= tail);
        }
        self.lemma_witness_round_trip(rest);
        assert(self.encoding().len() == signed_part.len() + witness_part.len());
        let signed = Self::parse_signed_part(s)->Ok_0.0;
        let witness = Self::parse_witness(tail)->Ok_0.0;
        assert(Self::assemble(signed, witness) == self);
    }

    /// Decoding what was encoded gives the header back.
    pub proof fn lemma_round_trip(self)
        requires
            self.valid(),
        ensures
            Self::parse(self.encoding()) == Ok::<(HeaderView, int), DecodeError>(
                (self, self.encoding().len() as int),
            ),
    {
        self.lemma_round_trip_with_suffix(Seq::empty());
        assert(self.encoding() + Seq::<u8>::empty() =~= self.encoding());
    }

    /// Cutting a byte string short leaves the signed part readable, or too short.
    pub proof fn lemma_signed_part_prefix(s: Seq<u8>, m: int)
        requires
            0 <= m <= s.len(),
        ensures
            prefix_outcome(Self::parse_signed_part(s), m, Self::parse_signed_part(s.take(m))),
            Self::parse_signed_part(s) matches Ok((_, n)) ==> 177 <= n <= s.len(),
    {
        reveal(HeaderView::parse_signed_part);
        if Self::parse_signed_part(s) is Ok {
            let t = s.take(m);
            lemma_optional_payload_prefix(s.skip(156), 0);
            let (payload, n1) = parse_optional_payload(s.skip(156))->Ok_0;
            let a = 156 + n1;
            if m >= 156 {
                assert(s.take(156) =~= t.take(156));
                lemma_preamble_agrees(s, t);
                assert(t.skip(156) =~= s.skip(156).take(m - 156));
                lemma_optional_payload_prefix(s.skip(156), m - 156);
                if m >= a + 20 {
                    assert(t.subrange(a, a + 20) =~= s.subrange(a, a + 20));
                }
            }
        }
    }

    /// Cutting a byte string short leaves what follows the signed part readable, or too
    /// short.
    pub proof fn lemma_witness_prefix(s: Seq<u8>, m: int)
        requires
            0 <= m <= s.len(),
        ensures
            prefix_outcome(Self::parse_witness(s), m, Self::parse_witness(s.take(m))),
            Self::parse_witness(s) matches Ok((_, n)) ==> 34 <= n <= s.len(),
    {
        reveal(HeaderView::parse_witness);
        if Self::parse_witness(s) is Ok {
            let t = s.take(m);
            lemma_counted_prefix(s, 67, m);
            let (keys, b) = parse_counted(s, 67)->Ok_0;
            lemma_counted_prefix(s.skip(b), 65, 0);
            let (signatures, n3) = parse_counted(s.skip(b), 65)->Ok_0;
            let c = b + n3;
            if m >= b {
                assert(t.skip(b) =~= s.skip(b).take(m - b));
                lemma_counted_prefix(s.skip(b), 65, m - b);
                if m >= c + 32 {
                    assert(t.subrange(c, c + 32) =~= s.subrange(c, c + 32));
                }
            }
        }
    }

    /// Cutting a byte string short leaves a header readable, where all its bytes are still
    /// there, or too short.
    pub proof fn lemma_prefix(s: Seq<u8>, m: int)
        requires
            0 <= m <= s.len(),
        ensures
            prefix_outcome(Self::parse(s), m, Self::parse(s.take(m))),
            Self::parse(s) matches Ok((_, n)) ==> 211 <= n <= s.len(),
    {
        if Self::parse(s) is Ok {
            let t = s.take(m);
            Self::lemma_signed_part_prefix(s, m);
            let (signed, a) = Self::parse_signed_part(s)->Ok_0;
            Self::lemma_witness_prefix(s.skip(a), 0);
            if m >= a {
                assert(t.skip(a) =~= s.skip(a).take(m - a));
                Self::lemma_witness_prefix(s.skip(a), m - a);
            }
        }
    }

    /// An encoded header with one or more bytes missing at its end is too short to decode.
    pub proof fn lemma_truncated_is_too_short(self, m: int)
        requires
            self.valid(),
            0 <= m < self.encoding().len(),
        ensures
            Self::parse(self.encoding().take(m)) == Err::<(HeaderView, int), DecodeError>(
                DecodeError::InputTooShort,
            ),
    {
        self.lemma_round_trip();
        Self::lemma_prefix(self.encoding(), m);
    }
}

impl Header {
    /// Every header can be written down: none of its lists is longer than a 64-bit number
    /// counts.
    pub proof fn lemma_valid(&self)
        ensures
            self@.valid(),
    {
        assert(self.book_keepers@.len() == self.book_keepers.len());
        assert(self.sig_data@.len() == self.sig_data.len());
        if let Some(payload) = self.consensus_payload {
            if let Some(config) = payload.new_chain_config {
                assert(config.peers@.len() == config.peers.len());
            }
        }
    }

    /// Decoding the encoding of a header gives a header with the same content.
    pub proof fn lemma_decodes_to_itself(&self)
        ensures
            HeaderView::parse(self@.encoding()) == Ok::<(HeaderView, int), DecodeError>(
                (self@, self@.encoding().len() as int),
            ),
    {
        self.lemma_valid();
        self@.lemma_round_trip();
    }
}

} // verus!
