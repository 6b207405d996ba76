//! The consensus configuration that an epoch-changing block carries.
use vstd::prelude::*;
use crate::hex_converter::{byte_slice_to_hex, hex_of};
use crate::public_key::PublicKey;
use crate::util::{array_of, copy_vec, lemma_array_of};
use crate::wire::{
    all_of_width, chunks, concat, counted, lemma_counted_prefix, lemma_counted_round_trip,
    parse_counted, parse_var_uint, prefix_outcome, var_uint, DecodeError,
};
use crate::zero_copy_sink::ZeroCopySink;
use crate::zero_copy_source::ZeroCopySource;

verus! {

/// A consensus participant of the remote chain. Its identity is derived from its key and
/// cannot be chosen apart from it.
#[derive(Clone, Copy, Debug, PartialEq, Eq)]
pub struct PeerConfig {
    pub public_key: PublicKey,
}

impl PeerConfig {
    /// The identity of the peer: the hexadecimal text of its serialized public key.
    pub open spec fn spec_id(self) -> Seq<u8> {
        hex_of(self.public_key.0@)
    }

    /// The peer that holds `public_key`.
    pub fn new(public_key: PublicKey) -> (peer: Self)
        ensures
            peer.public_key == public_key,
    {
        PeerConfig { public_key }
    }

    /// The identity of the peer: the hexadecimal text of its serialized public key.
    pub fn id(&self) -> (id: Vec<u8>)
        ensures
            id@ == self.spec_id(),
    {
        byte_slice_to_hex(self.public_key.as_slice())
    }
}

/// The serialized keys of `peers`, in order.
pub open spec fn peer_items(peers: Seq<PeerConfig>) -> Seq<Seq<u8>> {
    Seq::new(peers.len(), |i: int| peers[i].public_key.0@)
}

/// The peers whose serialized keys are `items`, in order.
pub open spec fn peers_of(items: Seq<Seq<u8>>) -> Seq<PeerConfig> {
    Seq::new(items.len(), |i: int| PeerConfig { public_key: PublicKey(array_of::<67>(items[i])) })
}

/// Serialized keys read back as the peers they came from.
pub proof fn lemma_peer_items(peers: Seq<PeerConfig>)
    ensures
        all_of_width(peer_items(peers), 67),
        peers_of(peer_items(peers)) == peers,
{
    assert forall|i: int| 0 <= i < peers.len() implies peers_of(peer_items(peers))[i]
        == peers[i] by {
        lemma_array_of(peers[i].public_key.0);
    }
    assert(peers_of(peer_items(peers)) =~= peers);
}

/// The peer set of one consensus epoch.
#[derive(Debug, PartialEq, Eq)]
pub struct ChainConfig {
    pub peers: Vec<PeerConfig>,
}

/// A [`ChainConfig`] as a mathematical value.
pub struct ChainConfigView {
    pub peers: Seq<PeerConfig>,
}

impl View for ChainConfig {
    type V = ChainConfigView;

    open spec fn view(&self) -> ChainConfigView {
        ChainConfigView { peers: self.peers@ }
    }
}

impl ChainConfigView {
    /// Whether the number of peers can be written down.
    pub open spec fn valid(self) -> bool {
        self.peers.len() <= u64::MAX
    }

    /// The wire form: the number of peers, then each peer's serialized key.
    pub open spec fn encoding(self) -> Seq<u8> {
        counted(peer_items(self.peers))
    }

    /// Reads a configuration from the front of `s`.
    pub open spec fn parse(s: Seq<u8>) -> Result<(ChainConfigView, int), DecodeError> {
        match parse_counted(s, 67) {
            Err(e) => Err(e),
            Ok((items, n)) => Ok((ChainConfigView { peers: peers_of(items) }, n)),
        }
    }

    /// A configuration followed by anything reads back as itself.
    pub proof fn lemma_round_trip(self, rest: Seq<u8>)
        requires
            self.valid(),
        ensures
            Self::parse(self.encoding() + rest) == Ok::<(ChainConfigView, int), DecodeError>(
                (self, self.encoding().len() as int),
            ),
    {
        lemma_peer_items(self.peers);
        lemma_counted_round_trip(peer_items(self.peers), 67, rest);
    }

    /// Cutting a byte string short leaves a configuration readable, or too short.
    pub proof fn lemma_prefix(s: Seq<u8>, m: int)
        requires
            0 <= m <= s.len(),
        ensures
            prefix_outcome(Self::parse(s), m, Self::parse(s.take(m))),
            Self::parse(s) matches Ok((_, n)) ==> 1 <= n <= s.len(),
    {
        lemma_counted_prefix(s, 67, m);
    }
}

impl Clone for ChainConfig {
    fn clone(&self) -> (copy: Self)
        ensures
            copy@ == self@,
    {
        ChainConfig { peers: copy_vec(&self.peers) }
    }
}

impl ChainConfig {
    /// Appends the wire form of the configuration to `sink`.
    pub fn dep_encode(&self, sink: &mut ZeroCopySink)
        ensures
            final(sink)@ == old(sink)@ + self@.encoding(),
    {
        let n = self.peers.len();
        sink.write_var_uint(n as u64);
        let ghost items = peer_items(self.peers@);
        let mut i: usize = 0;
        while i < n
            invariant
                i <= n == self.peers.len(),
                items == peer_items(self.peers@),
                sink@ == old(sink)@ + var_uint(n as u64) + concat(items.take(i as int)),
            decreases n - i,
        {
            sink.write_public_key(&self.peers[i].public_key);
            assert(items.take(i + 1).drop_last() =~= items.take(i as int));
            assert(sink@ =~= old(sink)@ + var_uint(n as u64) + concat(items.take(i + 1)));
            i += 1;
        }
        assert(items.take(n as int) =~= items);
        assert(sink@ =~= old(sink)@ + self@.encoding());
    }

    /// Reads a configuration at the cursor. On failure the cursor stays where it was.
    pub fn decode_from_source(source: &mut ZeroCopySource) -> (decoded: Result<Self, DecodeError>)
        ensures
            final(source).bytes() == old(source).bytes(),
            match ChainConfigView::parse(old(source).remaining()) {
                Ok((config, n)) => {
                    &&& decoded is Ok
                    &&& decoded->Ok_0@ == config
                    &&& final(source).offset() == old(source).offset() + n
                },
                Err(e) => {
                    &&& decoded == Err::<Self, DecodeError>(e)
                    &&& final(source).offset() == old(source).offset()
                },
            },
    {
        let start = source.pos();
        let count = match source.next_var_uint() {
            Some(count) => count,
            None => {
                return Err(DecodeError::InputTooShort);
            },
        };
        let ghost c = source.offset() - old(source).offset();
        let ghost rest = source.remaining();
        let _ = source.len();
        assert(rest =~= old(source).remaining().skip(c));
        let mut peers: Vec<PeerConfig> = Vec::new();
        let mut i: u64 = 0;
        while i < count
            invariant
                i <= count,
                source.bytes() == old(source).bytes(),
                source.offset() == old(source).offset() + c + 67 * i,
                0 <= old(source).offset() + c <= source.bytes().len(),
                rest == old(source).bytes().skip(old(source).offset() + c),
                67 * i <= rest.len(),
                start == old(source).offset(),
                c >= 0,
                parse_var_uint(old(source).remaining()) == Ok::<(u64, int), DecodeError>(
                    (count, c),
                ),
                peers@ == peers_of(chunks(rest, 67, i as int)),
            decreases count - i,
        {
            match source.next_public_key() {
                Some(key) => {
                    proof {
                        let at = old(source).offset() + c + 67 * i;
                        assert(old(source).bytes().skip(at).take(67) =~= rest.subrange(
                            i * 67,
                            i * 67 + 67,
                        ));
                        lemma_array_of(key.0);
                    }
                    peers.push(PeerConfig { public_key: key });
                    assert(peers@ =~= peers_of(chunks(rest, 67, i + 1)));
                    i += 1;
                },
                None => {
                    assert(source.remaining().len() == rest.len() - 67 * i);
                    source.rewind(start);
                    return Err(DecodeError::InputTooShort);
                },
            }
        }
        Ok(ChainConfig { peers })
    }
}

/// What a block says of consensus: on an epoch boundary, the peer set that takes over.
#[derive(Debug, PartialEq, Eq)]
pub struct ConsensusPayload {
    pub new_chain_config: Option<ChainConfig>,
}

/// A [`ConsensusPayload`] as a mathematical value.
pub struct ConsensusPayloadView {
    pub new_chain_config: Option<ChainConfigView>,
}

impl View for ConsensusPayload {
    type V = ConsensusPayloadView;

    open spec fn view(&self) -> ConsensusPayloadView {
        ConsensusPayloadView {
            new_chain_config: match self.new_chain_config {
                Some(config) => Some(config@),
                None => None,
            },
        }
    }
}

impl ConsensusPayloadView {
    /// Whether the peer set, where there is one, can be written down.
    pub open spec fn valid(self) -> bool {
        self.new_chain_config matches Some(config) ==> config.valid()
    }

    /// The wire form: a tag byte, `0` for no configuration and `1` for one, then the
    /// configuration where there is one.
    pub open spec fn encoding(self) -> Seq<u8> {
        match self.new_chain_config {
            None => seq![0u8],
            Some(config) => seq![1u8] + config.encoding(),
        }
    }

    /// Reads a payload from the front of `s`.
    pub open spec fn parse(s: Seq<u8>) -> Result<(ConsensusPayloadView, int), DecodeError> {
        if s.len() < 1 {
            Err(DecodeError::InputTooShort)
        } else if s[0] == 0 {
            Ok((ConsensusPayloadView { new_chain_config: None }, 1))
        } else if s[0] == 1 {
            match ChainConfigView::parse(s.skip(1)) {
                Err(e) => Err(e),
                Ok((config, n)) => Ok(
                    (ConsensusPayloadView { new_chain_config: Some(config) }, 1 + n),
                ),
            }
        } else {
            Err(DecodeError::InvalidValue)
        }
    }

    /// A payload followed by anything reads back as itself.
    pub proof fn lemma_round_trip(self, rest: Seq<u8>)
        requires
            self.valid(),
        ensures
            Self::parse(self.encoding() + rest) == Ok::<(ConsensusPayloadView, int), DecodeError>(
                (self, self.encoding().len() as int),
            ),
    {
        let s = self.encoding() + rest;
        match self.new_chain_config {
            None => {
                assert(s[0] == 0u8);
            },
            Some(config) => {
                assert(s[0] == 1u8);
                assert(s.skip(1) =~= config.encoding() + rest);
                config.lemma_round_trip(rest);
            },
        }
    }

    /// Cutting a byte string short leaves a payload readable, or too short.
    pub proof fn lemma_prefix(s: Seq<u8>, m: int)
        requires
            0 <= m <= s.len(),
        ensures
            prefix_outcome(Self::parse(s), m, Self::parse(s.take(m))),
            Self::parse(s) matches Ok((_, n)) ==> 1 <= n <= s.len(),
    {
        if s.len() >= 1 && s[0] == 1 {
            ChainConfigView::lemma_prefix(s.skip(1), 0);
            if m >= 1 {
                assert(s.take(m)[0] == s[0]);
                assert(s.take(m).skip(1) =~= s.skip(1).take(m - 1));
                ChainConfigView::lemma_prefix(s.skip(1), m - 1);
            }
        } else if m >= 1 {
            assert(s.take(m)[0] == s[0]);
        }
    }
}

impl Clone for ConsensusPayload {
    fn clone(&self) -> (copy: Self)
        ensures
            copy@ == self@,
    {
        ConsensusPayload {
            new_chain_config: match &self.new_chain_config {
                Some(config) => Some(config.clone()),
                None => None,
            },
        }
    }
}

impl ConsensusPayload {
    /// Appends the wire form of the payload to `sink`.
    pub fn dep_encode(&self, sink: &mut ZeroCopySink)
        ensures
            final(sink)@ == old(sink)@ + self@.encoding(),
    {
        match &self.new_chain_config {
            None => {
                sink.write_u8(0);
                assert(sink@ =~= old(sink)@ + self@.encoding());
            },
            Some(config) => {
                sink.write_u8(1);
                config.dep_encode(sink);
                assert(sink@ =~= old(sink)@ + self@.encoding());
            },
        }
    }

    /// Reads a payload at the cursor. On failure the cursor stays where it was.
    pub fn decode_from_source(source: &mut ZeroCopySource) -> (decoded: Result<Self, DecodeError>)
        ensures
            final(source).bytes() == old(source).bytes(),
            match ConsensusPayloadView::parse(old(source).remaining()) {
                Ok((payload, n)) => {
                    &&& decoded is Ok
                    &&& decoded->Ok_0@ == payload
                    &&& final(source).offset() == old(source).offset() + n
                },
                Err(e) => {
                    &&& decoded == Err::<Self, DecodeError>(e)
                    &&& final(source).offset() == old(source).offset()
                },
            },
    {
        let start = source.pos();
        let tag = match source.next_u8() {
            Some(tag) => tag,
            None => {
                return Err(DecodeError::InputTooShort);
            },
        };
        let _ = source.len();
        assert(source.remaining() =~= old(source).remaining().skip(1));
        if tag == 0 {
            Ok(ConsensusPayload { new_chain_config: None })
        } else if tag == 1 {
            match ChainConfig::decode_from_source(source) {
                Ok(config) => Ok(ConsensusPayload { new_chain_config: Some(config) }),
                Err(e) => {
                    source.rewind(start);
                    Err(e)
                },
            }
        } else {
            source.rewind(start);
            Err(DecodeError::InvalidValue)
        }
    }
}

} // verus!
