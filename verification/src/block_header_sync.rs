//! The light client: a header store, the checks that guard it, and the two ways in.
use vstd::prelude::*;
use crate::consensus_payload::PeerConfig;
use crate::crypto::{accepts, apply_hasher, apply_verifier, digest_of, is_hasher, is_verifier};
use crate::header::{Header, HeaderView};
use crate::header_store::{
    is_known_signer, is_supermajority, peers_of_keys, HeaderStore, SyncOutcome,
};
use crate::hex_converter::{byte_slice_to_hex, hex_of};
use crate::multi_signature::{all_matched, first_match, multi_signature_verdict, none_taken};
use crate::public_key::{EllipticCurveAlgorithm, PublicKey};
use crate::signature::{Signature, SignatureScheme};
use crate::sync_error::SyncError;
use crate::util::{bytes_eq, copy_vec, H256};

verus! {

/// The peer set that took over at one key height of one chain.
pub struct Epoch {
    pub chain_id: u64,
    pub height: u32,
    pub peers: Vec<PeerConfig>,
}

/// The headers of `log` by chain and height; a later one replaces an earlier one.
pub open spec fn by_height(log: Seq<Header>) -> Map<(u64, u32), HeaderView>
    decreases log.len(),
{
    if log.len() == 0 {
        Map::empty()
    } else {
        by_height(log.drop_last()).insert((log.last().chain_id, log.last().height), log.last()@)
    }
}

/// The headers of `log` by chain and declared hash; a later one replaces an earlier one.
pub open spec fn by_hash(log: Seq<Header>) -> Map<(u64, H256), HeaderView>
    decreases log.len(),
{
    if log.len() == 0 {
        Map::empty()
    } else {
        by_hash(log.drop_last()).insert((log.last().chain_id, log.last().block_hash), log.last()@)
    }
}

/// For each chain, the height of its last header in `log`.
pub open spec fn last_heights(log: Seq<Header>) -> Map<u64, u32>
    decreases log.len(),
{
    if log.len() == 0 {
        Map::empty()
    } else {
        last_heights(log.drop_last()).insert(log.last().chain_id, log.last().height)
    }
}

/// The peer sets of `epochs` by chain and key height; a later one replaces an earlier one.
pub open spec fn peers_by_epoch(epochs: Seq<Epoch>) -> Map<(u64, u32), Seq<PeerConfig>>
    decreases epochs.len(),
{
    if epochs.len() == 0 {
        Map::empty()
    } else {
        peers_by_epoch(epochs.drop_last()).insert(
            (epochs.last().chain_id, epochs.last().height),
            epochs.last().peers@,
        )
    }
}

/// For each chain, the key heights of `epochs` in order.
pub open spec fn heights_by_chain(epochs: Seq<Epoch>) -> Map<u64, Seq<u32>>
    decreases epochs.len(),
{
    if epochs.len() == 0 {
        Map::empty()
    } else {
        let before = heights_by_chain(epochs.drop_last());
        let chain_id = epochs.last().chain_id;
        before.insert(
            chain_id,
            (if before.contains_key(chain_id) {
                before[chain_id]
            } else {
                Seq::empty()
            }).push(epochs.last().height),
        )
    }
}

/// The store that a log of headers and a log of epochs stand for. The first header is the
/// genesis header.
pub open spec fn store_of(headers: Seq<Header>, epochs: Seq<Epoch>) -> HeaderStore {
    HeaderStore {
        genesis_header: if headers.len() > 0 {
            Some(headers[0]@)
        } else {
            None
        },
        header_by_hash: by_hash(headers),
        header_by_height: by_height(headers),
        current_height: last_heights(headers),
        consensus_peers: peers_by_epoch(epochs),
        key_height_list: heights_by_chain(epochs),
    }
}

/// A cross-chain header light client. It keeps the headers it has accepted and the consensus
/// peer sets they brought, and accepts a new header only if the peer set that governs its
/// height has signed it. The host supplies the hash function and the two signature checks.
pub struct BlockHeaderSync<H, S, E> {
    sha256: H,
    verify_secp256k1: S,
    verify_ed25519: E,
    headers: Vec<Header>,
    epochs: Vec<Epoch>,
}

impl<H, S, E> View for BlockHeaderSync<H, S, E> {
    type V = HeaderStore;

    closed spec fn view(&self) -> HeaderStore {
        store_of(self.headers@, self.epochs@)
    }
}

impl<H, S, E> BlockHeaderSync<H, S, E> where
    H: Fn(&[u8]) -> [u8; 32],
    S: Fn(&[u8], &[u8], &[u8]) -> bool,
    E: Fn(&[u8], &[u8], &[u8]) -> bool,
 {
    /// The host's SHA-256.
    pub closed spec fn hasher(&self) -> H {
        self.sha256
    }

    /// The host's secp256k1 signature check, on a key, a message and a signature.
    pub closed spec fn secp256k1(&self) -> S {
        self.verify_secp256k1
    }

    /// The host's Ed25519 signature check, on a key, a message and a signature.
    pub closed spec fn ed25519(&self) -> E {
        self.verify_ed25519
    }

    /// Whether each primitive can be called on every input and gives one answer for each.
    pub open spec fn primitives_wf(&self) -> bool {
        &&& is_hasher(&self.hasher())
        &&& is_verifier(&self.secp256k1())
        &&& is_verifier(&self.ed25519())
    }

    /// Whether the primitives are functions and the store is well formed.
    pub open spec fn wf(&self) -> bool {
        &&& self.primitives_wf()
        &&& self@.wf()
    }

    /// The digest of a header: SHA-256, applied twice, of its signed part.
    pub open spec fn spec_hash_header(&self, header: HeaderView) -> H256 {
        H256(digest_of(&self.hasher(), digest_of(&self.hasher(), header.partial_encoding())@))
    }

    /// Whether `signature` is a signature of `data` under `public_key`. An ECDSA key takes
    /// part only with the scheme `SM3withSM2`, which is checked on secp256k1; an SM2 key only
    /// with `SHA512withEDDSA`, which is checked as Ed25519; every other pair fails, as does
    /// empty data.
    pub open spec fn spec_verify(&self, public_key: PublicKey, data: Seq<u8>, signature: Signature) -> bool {
        data.len() > 0 && match public_key.spec_algorithm() {
            EllipticCurveAlgorithm::ECDSA => signature.spec_scheme() == SignatureScheme::SM3withSM2
                && accepts(
                &self.secp256k1(),
                public_key.spec_value(),
                data,
                signature.spec_value(),
            ),
            EllipticCurveAlgorithm::SM2 => signature.spec_scheme()
                == SignatureScheme::SHA512withEDDSA && accepts(
                &self.ed25519(),
                public_key.spec_value(),
                data,
                signature.spec_value(),
            ),
            EllipticCurveAlgorithm::Unknown => false,
        }
    }

    /// Which signature verifies under which key: signature `i` of `signatures` under key `j`
    /// of `keys`, both as signatures of `data`.
    pub open spec fn validity(&self, data: Seq<u8>, keys: Seq<PublicKey>, signatures: Seq<Signature>) -> spec_fn(
        int,
        int,
    ) -> bool {
        |i: int, j: int| self.spec_verify(keys[j], data, signatures[i])
    }

    /// Which signature of `header` verifies under which of its signer keys, as signatures of
    /// the header's digest.
    pub open spec fn header_validity(&self, header: HeaderView) -> spec_fn(int, int) -> bool {
        self.validity(self.spec_hash_header(header).0@, header.book_keepers, header.sig_data)
    }

    /// Whether `other` has the same primitives.
    pub open spec fn same_primitives(&self, other: &Self) -> bool {
        &&& self.hasher() == other.hasher()
        &&& self.secp256k1() == other.secp256k1()
        &&& self.ed25519() == other.ed25519()
    }

    /// A light client with an empty store.
    pub fn new(sha256: H, verify_secp256k1: S, verify_ed25519: E) -> (client: Self)
        requires
            is_hasher(&sha256),
            is_verifier(&verify_secp256k1),
            is_verifier(&verify_ed25519),
        ensures
            client.wf(),
            client@ == HeaderStore::empty(),
            client.hasher() == sha256,
            client.secp256k1() == verify_secp256k1,
            client.ed25519() == verify_ed25519,
    {
        proof {
            HeaderStore::lemma_empty_wf();
        }
        BlockHeaderSync {
            sha256,
            verify_secp256k1,
            verify_ed25519,
            headers: Vec::new(),
            epochs: Vec::new(),
        }
    }

    /// The genesis header, once it has been set.
    pub fn genesis_header(&self) -> (found: Option<&Header>)
        ensures
            match found {
                Some(header) => self@.genesis_header == Some(header@),
                None => self@.genesis_header is None,
            },
    {
        if self.headers.len() > 0 {
            Some(&self.headers[0])
        } else {
            None
        }
    }

    /// The header stored for `chain_id` at `height`, if there is one.
    pub fn get_header_by_height(&self, chain_id: u64, height: u32) -> (found: Option<&Header>)
        ensures
            match found {
                Some(header) => self@.header_by_height.contains_key((chain_id, height))
                    && header@ == self@.header_by_height[(chain_id, height)],
                None => !self@.header_by_height.contains_key((chain_id, height)),
            },
    {
        let mut found: Option<&Header> = None;
        let mut i: usize = 0;
        while i < self.headers.len()
            invariant
                i <= self.headers.len(),
                match found {
                    Some(header) => by_height(self.headers@.take(i as int)).contains_key(
                        (chain_id, height),
                    ) && header@ == by_height(self.headers@.take(i as int))[(chain_id, height)],
                    None => !by_height(self.headers@.take(i as int)).contains_key(
                        (chain_id, height),
                    ),
                },
            decreases self.headers.len() - i,
        {
            assert(self.headers@.take(i + 1).drop_last() =~= self.headers@.take(i as int));
            let header = &self.headers[i];
            if header.chain_id == chain_id && header.height == height {
                found = Some(header);
            }
            i += 1;
        }
        assert(self.headers@.take(i as int) =~= self.headers@);
        found
    }

    /// The header last stored for `chain_id` under the declared hash `hash`, if there is
    /// one.
    pub fn get_header_by_hash(&self, chain_id: u64, hash: &H256) -> (found: Option<&Header>)
        ensures
            match found {
                Some(header) => self@.header_by_hash.contains_key((chain_id, *hash)) && header@
                    == self@.header_by_hash[(chain_id, *hash)],
                None => !self@.header_by_hash.contains_key((chain_id, *hash)),
            },
    {
        let mut found: Option<&Header> = None;
        let mut i: usize = 0;
        while i < self.headers.len()
            invariant
                i <= self.headers.len(),
                match found {
                    Some(header) => by_hash(self.headers@.take(i as int)).contains_key(
                        (chain_id, *hash),
                    ) && header@ == by_hash(self.headers@.take(i as int))[(chain_id, *hash)],
                    None => !by_hash(self.headers@.take(i as int)).contains_key((chain_id, *hash)),
                },
            decreases self.headers.len() - i,
        {
            assert(self.headers@.take(i + 1).drop_last() =~= self.headers@.take(i as int));
            let header = &self.headers[i];
            let same = bytes_eq(header.block_hash.as_slice(), hash.as_slice());
            assert(same == (header.block_hash == *hash)) by {
                if same {
                    assert(header.block_hash.0 =~= hash.0);
                }
            }
            if header.chain_id == chain_id && same {
                found = Some(header);
            }
            i += 1;
        }
        assert(self.headers@.take(i as int) =~= self.headers@);
        found
    }

    /// The height of the header last stored for `chain_id`; zero where there is none.
    pub fn get_current_height(&self, chain_id: u64) -> (height: u32)
        ensures
            height == self@.get_current_height(chain_id),
    {
        let mut height: u32 = 0;
        let mut i: usize = 0;
        while i < self.headers.len()
            invariant
                i <= self.headers.len(),
                height == store_of(self.headers@.take(i as int), self.epochs@).get_current_height(
                    chain_id,
                ),
            decreases self.headers.len() - i,
        {
            assert(self.headers@.take(i + 1).drop_last() =~= self.headers@.take(i as int));
            if self.headers[i].chain_id == chain_id {
                height = self.headers[i].height;
            }
            i += 1;
        }
        assert(self.headers@.take(i as int) =~= self.headers@);
        height
    }

    /// The digest of a header: SHA-256, applied twice, of its signed part.
    pub fn hash_header(&self, header: &Header) -> (digest: H256)
        requires
            self.primitives_wf(),
        ensures
            digest == self.spec_hash_header(header@),
    {
        let signed = header.get_partial_serialized();
        let once = apply_hasher(&self.sha256, signed.as_slice());
        H256(apply_hasher(&self.sha256, once.as_slice()))
    }

    /// Whether `signature` is a signature of `data` under `public_key`.
    pub fn verify(&self, public_key: &PublicKey, data: &[u8], signature: &Signature) -> (ok: bool)
        requires
            self.primitives_wf(),
        ensures
            ok == self.spec_verify(*public_key, data@, *signature),
    {
        if data.len() == 0 {
            return false;
        }
        match public_key.algorithm() {
            EllipticCurveAlgorithm::ECDSA => {
                match signature.scheme() {
                    SignatureScheme::SM3withSM2 => apply_verifier(
                        &self.verify_secp256k1,
                        public_key.value_as_slice(),
                        data,
                        signature.value_as_slice(),
                    ),
                    SignatureScheme::Unknown => false,
                    _ => false,
                }
            },
            EllipticCurveAlgorithm::SM2 => {
                match signature.scheme() {
                    SignatureScheme::SHA512withEDDSA => apply_verifier(
                        &self.verify_ed25519,
                        public_key.value_as_slice(),
                        data,
                        signature.value_as_slice(),
                    ),
                    _ => false,
                }
            },
            EllipticCurveAlgorithm::Unknown => false,
        }
    }

    /// Checks that there are at least `min_sigs` signatures and that each of them, taken in
    /// order, verifies under some key that no earlier signature has taken: the first such
    /// key is taken.
    pub fn verify_multi_signature(
        &self,
        data: &[u8],
        keys: &[PublicKey],
        min_sigs: usize,
        sigs: &[Signature],
    ) -> (verdict: Result<(), SyncError>)
        requires
            self.primitives_wf(),
        ensures
            verdict == multi_signature_verdict(
                self.validity(data@, keys@, sigs@),
                keys@.len(),
                min_sigs as nat,
                sigs@.len(),
            ),
    {
        if sigs.len() < min_sigs {
            return Err(SyncError::InsufficientSignatures);
        }
        let ghost valid = self.validity(data@, keys@, sigs@);
        let mut mask: Vec<bool> = Vec::new();
        let mut k: usize = 0;
        while k < keys.len()
            invariant
                k <= keys.len(),
                mask@ == none_taken(k as nat),
            decreases keys.len() - k,
        {
            mask.push(false);
            assert(mask@ =~= none_taken((k + 1) as nat));
            k += 1;
        }
        let mut i: usize = 0;
        while i < sigs.len()
            invariant
                i <= sigs.len(),
                min_sigs <= sigs.len(),
                self.primitives_wf(),
                mask@.len() == keys@.len(),
                valid == self.validity(data@, keys@, sigs@),
                all_matched(valid, none_taken(keys@.len()), 0, sigs@.len() as int) == all_matched(
                    valid,
                    mask@,
                    i as int,
                    sigs@.len() as int,
                ),
            decreases sigs.len() - i,
        {
            let mut pick: Option<usize> = None;
            let mut j: usize = 0;
            while j < keys.len() && pick.is_none()
                invariant
                    j <= keys.len(),
                    i < sigs.len(),
                    self.primitives_wf(),
                    mask@.len() == keys@.len(),
                    valid == self.validity(data@, keys@, sigs@),
                    match pick {
                        Some(key) => key < keys.len() && first_match(valid, mask@, i as int, 0)
                            == Some(key as int),
                        None => first_match(valid, mask@, i as int, 0) == first_match(
                            valid,
                            mask@,
                            i as int,
                            j as int,
                        ),
                    },
                decreases keys.len() - j + (if pick is None { 1int } else { 0int }),
            {
                if !mask[j] && self.verify(&keys[j], data, &sigs[i]) {
                    pick = Some(j);
                } else {
                    j += 1;
                }
            }
            match pick {
                Some(key) => {
                    mask[key] = true;
                },
                None => {
                    return Err(SyncError::SignatureMismatch);
                },
            }
            i += 1;
        }
        Ok(())
    }

    /// The position of the epoch that governs `height` on chain `chain_id`: the chain's last
    /// epoch, provided `height` is not below its key height.
    fn active_epoch(&self, chain_id: u64, height: u32) -> (found: Option<usize>)
        ensures
            match found {
                Some(at) => {
                    &&& at < self.epochs@.len()
                    &&& self@.find_key_height(chain_id, height) == Some(self.epochs@[at as int].height)
                    &&& self@.consensus_peers[(chain_id, self.epochs@[at as int].height)]
                        == self.epochs@[at as int].peers@
                },
                None => self@.find_key_height(chain_id, height) is None,
            },
    {
        let mut last: Option<usize> = None;
        let mut i: usize = 0;
        while i < self.epochs.len()
            invariant
                i <= self.epochs.len(),
                match last {
                    Some(at) => {
                        let heights = heights_by_chain(self.epochs@.take(i as int));
                        let peers = peers_by_epoch(self.epochs@.take(i as int));
                        &&& at < i
                        &&& heights.contains_key(chain_id)
                        &&& heights[chain_id].len() > 0
                        &&& heights[chain_id].last() == self.epochs@[at as int].height
                        &&& peers[(chain_id, self.epochs@[at as int].height)]
                            == self.epochs@[at as int].peers@
                    },
                    None => !heights_by_chain(self.epochs@.take(i as int)).contains_key(chain_id),
                },
            decreases self.epochs.len() - i,
        {
            assert(self.epochs@.take(i + 1).drop_last() =~= self.epochs@.take(i as int));
            if self.epochs[i].chain_id == chain_id {
                last = Some(i);
            }
            i += 1;
        }
        assert(self.epochs@.take(i as int) =~= self.epochs@);
        match last {
            Some(at) => {
                if self.epochs[at].height > height {
                    None
                } else {
                    Some(at)
                }
            },
            None => None,
        }
    }

    /// The key heights of chain `chain_id`, oldest first.
    pub fn key_heights(&self, chain_id: u64) -> (heights: Vec<u32>)
        ensures
            heights@ == self@.key_heights(chain_id),
    {
        let mut heights: Vec<u32> = Vec::new();
        let mut i: usize = 0;
        while i < self.epochs.len()
            invariant
                i <= self.epochs.len(),
                heights@ == store_of(self.headers@, self.epochs@.take(i as int)).key_heights(
                    chain_id,
                ),
            decreases self.epochs.len() - i,
        {
            assert(self.epochs@.take(i + 1).drop_last() =~= self.epochs@.take(i as int));
            if self.epochs[i].chain_id == chain_id {
                heights.push(self.epochs[i].height);
            }
            i += 1;
        }
        assert(self.epochs@.take(i as int) =~= self.epochs@);
        heights
    }

    /// The peer set that took over on chain `chain_id` at the key height `height`, if that
    /// is one.
    pub fn consensus_peers(&self, chain_id: u64, height: u32) -> (found: Option<&Vec<PeerConfig>>)
        ensures
            match found {
                Some(peers) => self@.consensus_peers.contains_key((chain_id, height)) && peers@
                    == self@.consensus_peers[(chain_id, height)],
                None => !self@.consensus_peers.contains_key((chain_id, height)),
            },
    {
        let mut found: Option<&Vec<PeerConfig>> = None;
        let mut i: usize = 0;
        while i < self.epochs.len()
            invariant
                i <= self.epochs.len(),
                match found {
                    Some(peers) => peers_by_epoch(self.epochs@.take(i as int)).contains_key(
                        (chain_id, height),
                    ) && peers@ == peers_by_epoch(self.epochs@.take(i as int))[(chain_id, height)],
                    None => !peers_by_epoch(self.epochs@.take(i as int)).contains_key(
                        (chain_id, height),
                    ),
                },
            decreases self.epochs.len() - i,
        {
            assert(self.epochs@.take(i + 1).drop_last() =~= self.epochs@.take(i as int));
            let epoch = &self.epochs[i];
            if epoch.chain_id == chain_id && epoch.height == height {
                found = Some(&epoch.peers);
            }
            i += 1;
        }
        assert(self.epochs@.take(i as int) =~= self.epochs@);
        found
    }

    /// The key height that governs `height` on chain `chain_id`: the chain's last key height,
    /// provided `height` is not below it. There is none before genesis, nor for a height
    /// below the last key height.
    pub fn find_key_height(&self, chain_id: u64, height: u32) -> (found: Option<u32>)
        ensures
            found == self@.find_key_height(chain_id, height),
    {
        match self.active_epoch(chain_id, height) {
            Some(at) => Some(self.epochs[at].height),
            None => None,
        }
    }

    /// Whether some peer has the identity that `key` gives.
    fn is_known(key: &PublicKey, peers: &Vec<PeerConfig>) -> (known: bool)
        ensures
            known == is_known_signer(*key, peers@),
    {
        let key_id = byte_slice_to_hex(key.as_slice());
        let mut j: usize = 0;
        while j < peers.len()
            invariant
                j <= peers.len(),
                key_id@ == hex_of(key.0@),
                forall|k: int| 0 <= k < j ==> (#[trigger] peers@[k]).spec_id() != hex_of(key.0@),
            decreases peers.len() - j,
        {
            let peer_id = peers[j].id();
            if bytes_eq(peer_id.as_slice(), key_id.as_slice()) {
                return true;
            }
            j += 1;
        }
        false
    }

    /// Whether `header` is authentic: a peer set governs its height, its signers are at
    /// least two thirds of that set and all belong to it, and its signatures match its signer
    /// keys one to one, as signatures of its digest. Nothing is stored.
    pub fn verify_header(&self, header: &Header) -> (verdict: Result<(), SyncError>)
        requires
            self.primitives_wf(),
        ensures
            verdict == self@.verify_header(header@, self.header_validity(header@)),
    {
        let at = match self.active_epoch(header.chain_id, header.height) {
            Some(at) => at,
            None => {
                return Err(SyncError::NoActiveConsensus);
            },
        };
        let peers = &self.epochs[at].peers;
        let signers: u128 = header.book_keepers.len() as u128;
        let voters: u128 = peers.len() as u128;
        if signers * 3 < voters * 2 {
            return Err(SyncError::InsufficientBookkeepers);
        }
        let mut i: usize = 0;
        while i < header.book_keepers.len()
            invariant
                i <= header.book_keepers.len(),
                at < self.epochs@.len(),
                peers@ == self.epochs@[at as int].peers@,
                self@.find_key_height(header.chain_id, header.height) == Some(
                    self.epochs@[at as int].height,
                ),
                self@.consensus_peers[(header.chain_id, self.epochs@[at as int].height)] == peers@,
                is_supermajority(header.book_keepers@.len(), peers@.len()),
                forall|k: int| 0 <= k < i ==> is_known_signer(#[trigger] header.book_keepers@[k], peers@),
            decreases header.book_keepers.len() - i,
        {
            if !Self::is_known(&header.book_keepers[i], peers) {
                return Err(SyncError::UnknownSigner);
            }
            i += 1;
        }
        let hashed = self.hash_header(header);
        self.verify_multi_signature(
            hashed.as_slice(),
            header.book_keepers.as_slice(),
            header.book_keepers.len(),
            header.sig_data.as_slice(),
        )
    }

    /// Applies the peer-set update that `header` asks for: none where it carries no new
    /// configuration; a new key height, with the new peer set, where it carries one. A new
    /// configuration without peers is rejected and changes nothing.
    fn update_consensus_peer(&mut self, header: &Header) -> (updated: Result<(), SyncError>)
        ensures
            final(self).same_primitives(old(self)),
            final(self).headers == old(self).headers,
            match old(self)@.update_consensus_peer(header@) {
                Ok(store) => updated is Ok && final(self)@ == store,
                Err(e) => updated == Err::<(), SyncError>(e) && final(self)@ == old(self)@,
            },
    {
        if let Some(payload) = &header.consensus_payload {
            if let Some(config) = &payload.new_chain_config {
                if config.peers.len() == 0 {
                    return Err(SyncError::EmptyPeerList);
                }
                self.add_epoch(header.chain_id, header.height, copy_vec(&config.peers));
            }
        }
        Ok(())
    }

    /// Records one more key height for a chain, with the peer set that takes over there.
    fn add_epoch(&mut self, chain_id: u64, height: u32, peers: Vec<PeerConfig>)
        ensures
            final(self).same_primitives(old(self)),
            final(self).headers == old(self).headers,
            final(self)@ == old(self)@.with_epoch(chain_id, height, peers@),
    {
        self.epochs.push(Epoch { chain_id, height, peers });
        assert(self.epochs@.drop_last() =~= old(self).epochs@);
        assert(self@.consensus_peers =~= old(self)@.with_epoch(
            chain_id,
            height,
            peers@,
        ).consensus_peers);
        assert(self@.key_height_list =~= old(self)@.with_epoch(
            chain_id,
            height,
            peers@,
        ).key_height_list);
    }

    /// Files `header` under its hash and its height, and as its chain's current height. The
    /// first header ever stored is the genesis header.
    fn store_header(&mut self, header: Header)
        ensures
            final(self).same_primitives(old(self)),
            final(self)@ == (HeaderStore {
                genesis_header: if old(self)@.genesis_header is Some {
                    old(self)@.genesis_header
                } else {
                    Some(header@)
                },
                ..old(self)@.store_header(header@)
            }),
    {
        self.headers.push(header);
        assert(self.headers@.drop_last() =~= old(self).headers@);
    }

    /// Sets the genesis header. It is taken only while none is set, and only without a
    /// consensus payload. Its signer keys become the first peer set of its chain, at its own
    /// height, so they must not be empty. On success the header is stored and a notification
    /// is due; a rejection changes nothing.
    pub fn sync_genesis_header(&mut self, header: Header) -> (synced: Result<(), SyncError>)
        requires
            old(self).wf(),
        ensures
            final(self).wf(),
            final(self).same_primitives(old(self)),
            (final(self)@, synced) == old(self)@.sync_genesis_header(header@),
    {
        proof {
            old(self)@.lemma_sync_genesis_header_wf(header@);
        }
        if self.headers.len() > 0 {
            return Err(SyncError::AlreadyInitialized);
        }
        if header.consensus_payload.is_some() {
            return Err(SyncError::InvalidGenesisHeader);
        }
        if header.book_keepers.len() == 0 {
            return Err(SyncError::EmptyPeerList);
        }
        let mut peers: Vec<PeerConfig> = Vec::new();
        let mut i: usize = 0;
        while i < header.book_keepers.len()
            invariant
                i <= header.book_keepers.len(),
                peers@ == peers_of_keys(header.book_keepers@.take(i as int)),
            decreases header.book_keepers.len() - i,
        {
            peers.push(PeerConfig::new(header.book_keepers[i]));
            assert(peers@ =~= peers_of_keys(header.book_keepers@.take(i + 1)));
            i += 1;
        }
        assert(header.book_keepers@.take(i as int) =~= header.book_keepers@);
        self.add_epoch(header.chain_id, header.height, peers);
        self.store_header(header);
        Ok(())
    }

    /// Takes in one block header. Where a header is already stored for its chain at its
    /// height, nothing is checked or changed. Otherwise the header is verified as by
    /// [`Self::verify_header`], its peer-set update is applied, and it is stored: a
    /// notification is then due. A rejection changes nothing.
    pub fn sync_block_header(&mut self, header: Header) -> (synced: Result<SyncOutcome, SyncError>)
        requires
            old(self).wf(),
        ensures
            final(self).wf(),
            final(self).same_primitives(old(self)),
            (final(self)@, synced) == old(self)@.sync_block_header(
                header@,
                old(self).header_validity(header@),
            ),
    {
        proof {
            old(self)@.lemma_sync_block_header_wf(header@, old(self).header_validity(header@));
        }
        if self.get_header_by_height(header.chain_id, header.height).is_some() {
            return Ok(SyncOutcome::AlreadyKnown);
        }
        match self.verify_header(&header) {
            Ok(()) => {},
            Err(e) => {
                return Err(e);
            },
        }
        match self.update_consensus_peer(&header) {
            Ok(()) => {},
            Err(e) => {
                return Err(e);
            },
        }
        self.store_header(header);
        Ok(SyncOutcome::Stored)
    }
}

} // verus!
