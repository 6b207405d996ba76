//! The header store as a mathematical value, and the rules by which it changes.
use vstd::prelude::*;
use crate::consensus_payload::PeerConfig;
use crate::header::HeaderView;
use crate::hex_converter::hex_of;
use crate::multi_signature::multi_signature_verdict;
use crate::public_key::PublicKey;
use crate::sync_error::SyncError;
use crate::util::H256;

verus! {

/// What a successful sync of a block header did.
#[derive(Clone, Copy, Debug, PartialEq, Eq, Structural)]
pub enum SyncOutcome {
    /// The header was verified and stored: a notification is due.
    Stored,
    /// A header was already stored at that height: nothing was done.
    AlreadyKnown,
}

/// Everything the store holds.
pub struct HeaderStore {
    /// The genesis header, once it has been set.
    pub genesis_header: Option<HeaderView>,
    /// The header last stored under a chain and a declared hash.
    pub header_by_hash: Map<(u64, H256), HeaderView>,
    /// The header stored under a chain and a height.
    pub header_by_height: Map<(u64, u32), HeaderView>,
    /// The height of the header last stored for a chain.
    pub current_height: Map<u64, u32>,
    /// The peer set that took over at a key height of a chain.
    pub consensus_peers: Map<(u64, u32), Seq<PeerConfig>>,
    /// The key heights of a chain, oldest first.
    pub key_height_list: Map<u64, Seq<u32>>,
}

/// The peers that hold `keys`, in order.
pub open spec fn peers_of_keys(keys: Seq<PublicKey>) -> Seq<PeerConfig> {
    Seq::new(keys.len(), |i: int| PeerConfig { public_key: keys[i] })
}

/// Whether some peer has the identity that `key` gives.
pub open spec fn is_known_signer(key: PublicKey, peers: Seq<PeerConfig>) -> bool {
    exists|j: int| 0 <= j < peers.len() && (#[trigger] peers[j]).spec_id() == hex_of(key.0@)
}

/// Whether every one of `keys` belongs to some peer.
pub open spec fn all_known_signers(keys: Seq<PublicKey>, peers: Seq<PeerConfig>) -> bool {
    forall|i: int| 0 <= i < keys.len() ==> is_known_signer(#[trigger] keys[i], peers)
}

/// Whether `signers` signers are at least two thirds of `peers` peers.
pub open spec fn is_supermajority(signers: nat, peers: nat) -> bool {
    signers * 3 >= peers * 2
}

/// Whether each height is greater than the one before it.
pub open spec fn strictly_ascending(heights: Seq<u32>) -> bool {
    forall|i: int, j: int| 0 <= i < j < heights.len() ==> heights[i] < heights[j]
}

impl HeaderStore {
    /// The store before anything was synced.
    pub open spec fn empty() -> HeaderStore {
        HeaderStore {
            genesis_header: None,
            header_by_hash: Map::empty(),
            header_by_height: Map::empty(),
            current_height: Map::empty(),
            consensus_peers: Map::empty(),
            key_height_list: Map::empty(),
        }
    }

    /// The key heights of a chain, oldest first; none for a chain that has none.
    pub open spec fn key_heights(self, chain_id: u64) -> Seq<u32> {
        if self.key_height_list.contains_key(chain_id) {
            self.key_height_list[chain_id]
        } else {
            Seq::empty()
        }
    }

    /// The height of the header last stored for a chain; zero for a chain without one.
    pub open spec fn get_current_height(self, chain_id: u64) -> u32 {
        if self.current_height.contains_key(chain_id) {
            self.current_height[chain_id]
        } else {
            0
        }
    }

    /// The key height that governs `height`: the last key height of the chain, provided
    /// `height` is not below it.
    pub open spec fn find_key_height(self, chain_id: u64, height: u32) -> Option<u32> {
        let heights = self.key_heights(chain_id);
        if heights.len() > 0 && heights.last() <= height {
            Some(heights.last())
        } else {
            None
        }
    }

    /// The store with `header` filed under its hash and its height, and as the chain's
    /// current height.
    pub open spec fn store_header(self, header: HeaderView) -> HeaderStore {
        HeaderStore {
            header_by_hash: self.header_by_hash.insert(
                (header.chain_id, header.block_hash),
                header,
            ),
            header_by_height: self.header_by_height.insert(
                (header.chain_id, header.height),
                header,
            ),
            current_height: self.current_height.insert(header.chain_id, header.height),
            ..self
        }
    }

    /// The store with one more key height for a chain, and the peer set that takes over
    /// there.
    pub open spec fn with_epoch(self, chain_id: u64, height: u32, peers: Seq<PeerConfig>) -> HeaderStore {
        HeaderStore {
            consensus_peers: self.consensus_peers.insert((chain_id, height), peers),
            key_height_list: self.key_height_list.insert(
                chain_id,
                self.key_heights(chain_id).push(height),
            ),
            ..self
        }
    }

    /// The store after the peer-set update that `header` asks for: none where it carries no
    /// new configuration, a new epoch at its height where it carries one with peers, and a
    /// rejection where it carries one without.
    pub open spec fn update_consensus_peer(self, header: HeaderView) -> Result<HeaderStore, SyncError> {
        match header.consensus_payload {
            Some(payload) => match payload.new_chain_config {
                Some(config) => if config.peers.len() == 0 {
                    Err(SyncError::EmptyPeerList)
                } else {
                    Ok(self.with_epoch(header.chain_id, header.height, config.peers))
                },
                None => Ok(self),
            },
            None => Ok(self),
        }
    }

    /// The store and the answer after `header` is offered as genesis header. It is taken
    /// only once, and only without a consensus payload; its signer keys become the first
    /// peer set, at its own height.
    pub open spec fn sync_genesis_header(self, header: HeaderView) -> (
        HeaderStore,
        Result<(), SyncError>,
    ) {
        if self.genesis_header is Some {
            (self, Err(SyncError::AlreadyInitialized))
        } else if header.consensus_payload is Some {
            (self, Err(SyncError::InvalidGenesisHeader))
        } else if header.book_keepers.len() == 0 {
            (self, Err(SyncError::EmptyPeerList))
        } else {
            let seeded = self.with_epoch(
                header.chain_id,
                header.height,
                peers_of_keys(header.book_keepers),
            );
            (HeaderStore { genesis_header: Some(header), ..seeded.store_header(header) }, Ok(()))
        }
    }

    /// Whether `header` is authentic against the peer set that governs its height, where
    /// `valid(i, j)` says whether its signature `i` verifies under its signer key `j`.
    pub open spec fn verify_header(self, header: HeaderView, valid: spec_fn(int, int) -> bool) -> Result<
        (),
        SyncError,
    > {
        match self.find_key_height(header.chain_id, header.height) {
            None => Err(SyncError::NoActiveConsensus),
            Some(key_height) => {
                let peers = self.consensus_peers[(header.chain_id, key_height)];
                if !is_supermajority(header.book_keepers.len(), peers.len()) {
                    Err(SyncError::InsufficientBookkeepers)
                } else if !all_known_signers(header.book_keepers, peers) {
                    Err(SyncError::UnknownSigner)
                } else {
                    multi_signature_verdict(
                        valid,
                        header.book_keepers.len(),
                        header.book_keepers.len(),
                        header.sig_data.len(),
                    )
                }
            },
        }
    }

    /// The store and the answer after `header` is offered as a block header. A height that
    /// is already stored is left alone. Otherwise the header is verified, its peer-set update
    /// is applied and it is stored; any rejection leaves the store as it was.
    pub open spec fn sync_block_header(self, header: HeaderView, valid: spec_fn(int, int) -> bool) -> (
        HeaderStore,
        Result<SyncOutcome, SyncError>,
    ) {
        if self.header_by_height.contains_key((header.chain_id, header.height)) {
            (self, Ok(SyncOutcome::AlreadyKnown))
        } else {
            match self.verify_header(header, valid) {
                Err(e) => (self, Err(e)),
                Ok(_) => match self.update_consensus_peer(header) {
                    Err(e) => (self, Err(e)),
                    Ok(updated) => (updated.store_header(header), Ok(SyncOutcome::Stored)),
                },
            }
        }
    }

    /// What holds of the store at all times: nothing is stored before genesis, every header
    /// is filed under its own chain, height and hash, the key heights of a chain ascend, at
    /// each of them stand a header and a peer set that is not empty, and no peer set stands
    /// anywhere else.
    pub open spec fn wf(self) -> bool {
        &&& self.genesis_header is None ==> self == Self::empty()
        &&& forall|chain_id: u64, height: u32| #[trigger]
            self.header_by_height.contains_key((chain_id, height)) ==> {
                &&& self.header_by_height[(chain_id, height)].chain_id == chain_id
                &&& self.header_by_height[(chain_id, height)].height == height
            }
        &&& forall|chain_id: u64, hash: H256| #[trigger]
            self.header_by_hash.contains_key((chain_id, hash)) ==> {
                &&& self.header_by_hash[(chain_id, hash)].chain_id == chain_id
                &&& self.header_by_hash[(chain_id, hash)].block_hash == hash
            }
        &&& forall|chain_id: u64| #[trigger]
            self.current_height.contains_key(chain_id) ==> self.header_by_height.contains_key(
                (chain_id, self.current_height[chain_id]),
            )
        &&& forall|chain_id: u64| strictly_ascending(#[trigger] self.key_heights(chain_id))
        &&& forall|chain_id: u64, i: int|
            0 <= i < self.key_heights(chain_id).len() ==> {
                let height = #[trigger] self.key_heights(chain_id)[i];
                &&& self.header_by_height.contains_key((chain_id, height))
                &&& self.consensus_peers.contains_key((chain_id, height))
                &&& self.consensus_peers[(chain_id, height)].len() > 0
            }
        &&& forall|chain_id: u64, height: u32| #[trigger]
            self.consensus_peers.contains_key((chain_id, height)) ==> self.key_heights(
                chain_id,
            ).contains(height)
    }

    /// Whether `later` holds all that `self` holds and as `self` holds it, but for the
    /// current heights and for declared hashes that have been given to a later header.
    pub open spec fn is_kept_by(self, later: HeaderStore) -> bool {
        &&& self.genesis_header is Some ==> later.genesis_header == self.genesis_header
        &&& forall|chain_id: u64, height: u32| #[trigger]
            self.header_by_height.contains_key((chain_id, height)) ==> {
                &&& later.header_by_height.contains_key((chain_id, height))
                &&& later.header_by_height[(chain_id, height)] == self.header_by_height[(
                    chain_id,
                    height,
                )]
            }
        &&& forall|chain_id: u64, hash: H256| #[trigger]
            self.header_by_hash.contains_key((chain_id, hash)) ==> later.header_by_hash.contains_key(
                (chain_id, hash),
            )
        &&& forall|chain_id: u64, height: u32| #[trigger]
            self.consensus_peers.contains_key((chain_id, height)) ==> {
                &&& later.consensus_peers.contains_key((chain_id, height))
                &&& later.consensus_peers[(chain_id, height)] == self.consensus_peers[(
                    chain_id,
                    height,
                )]
            }
        &&& forall|chain_id: u64| #[trigger]
            self.key_heights(chain_id).is_prefix_of(later.key_heights(chain_id))
    }
}

impl HeaderStore {
    /// The empty store is well formed.
    pub proof fn lemma_empty_wf()
        ensures
            Self::empty().wf(),
    {
        assert(forall|chain_id: u64| Self::empty().key_heights(chain_id).len() == 0);
    }

    /// Storing a header under a key height that is above all the chain's key heights, with a
    /// peer set that is not empty, keeps the store well formed.
    proof fn lemma_epoch_then_store_wf(self, header: HeaderView, peers: Seq<PeerConfig>)
        requires
            self.wf(),
            peers.len() > 0,
            forall|i: int|
                0 <= i < self.key_heights(header.chain_id).len() ==> self.key_heights(
                    header.chain_id,
                )[i] < header.height,
        ensures
            (HeaderStore {
                genesis_header: Some(header),
                ..self.with_epoch(header.chain_id, header.height, peers).store_header(header)
            }).wf(),
            self.genesis_header is Some ==> self.with_epoch(
                header.chain_id,
                header.height,
                peers,
            ).store_header(header).wf(),
    {
        let seeded = self.with_epoch(header.chain_id, header.height, peers);
        let stored = seeded.store_header(header);
        let first = HeaderStore { genesis_header: Some(header), ..stored };
        assert forall|chain_id: u64| strictly_ascending(#[trigger] stored.key_heights(chain_id)) by {
            if chain_id == header.chain_id {
                assert(stored.key_heights(chain_id) == self.key_heights(chain_id).push(
                    header.height,
                ));
            } else {
                assert(stored.key_heights(chain_id) == self.key_heights(chain_id));
            }
        }
        assert forall|chain_id: u64, i: int| 0 <= i < stored.key_heights(chain_id).len() implies {
            let height = #[trigger] stored.key_heights(chain_id)[i];
            &&& stored.header_by_height.contains_key((chain_id, height))
            &&& stored.consensus_peers.contains_key((chain_id, height))
            &&& stored.consensus_peers[(chain_id, height)].len() > 0
        } by {
            if chain_id == header.chain_id {
                assert(stored.key_heights(chain_id) == self.key_heights(chain_id).push(
                    header.height,
                ));
                if i < self.key_heights(chain_id).len() {
                    assert(stored.key_heights(chain_id)[i] == self.key_heights(chain_id)[i]);
                }
            } else {
                assert(stored.key_heights(chain_id) == self.key_heights(chain_id));
                assert(stored.key_heights(chain_id)[i] == self.key_heights(chain_id)[i]);
            }
        }
        assert forall|chain_id: u64| #[trigger]
            stored.current_height.contains_key(chain_id) implies stored.header_by_height.contains_key(
            (chain_id, stored.current_height[chain_id]),
        ) by {
            if chain_id != header.chain_id {
                assert(self.current_height.contains_key(chain_id));
            }
        }
        assert forall|chain_id: u64, height: u32| #[trigger]
            stored.consensus_peers.contains_key((chain_id, height)) implies stored.key_heights(
            chain_id,
        ).contains(height) by {
            let before = self.key_heights(chain_id);
            if chain_id == header.chain_id {
                let after = before.push(header.height);
                assert(stored.key_heights(chain_id) == after);
                if height == header.height {
                    assert(after[before.len() as int] == height);
                } else {
                    assert(self.consensus_peers.contains_key((chain_id, height)));
                    let at = choose|i: int| 0 <= i < before.len() && before[i] == height;
                    assert(after[at] == height);
                }
            } else {
                assert(self.consensus_peers.contains_key((chain_id, height)));
                assert(stored.key_heights(chain_id) == before);
            }
        }
        assert(forall|chain_id: u64| first.key_heights(chain_id) == stored.key_heights(chain_id));
    }

    /// Storing a header without a new epoch keeps the store well formed, once genesis is
    /// set.
    proof fn lemma_store_wf(self, header: HeaderView)
        requires
            self.wf(),
            self.genesis_header is Some,
        ensures
            self.store_header(header).wf(),
    {
        let stored = self.store_header(header);
        assert(forall|chain_id: u64| stored.key_heights(chain_id) == self.key_heights(chain_id));
        assert forall|chain_id: u64, i: int| 0 <= i < stored.key_heights(chain_id).len() implies {
            let height = #[trigger] stored.key_heights(chain_id)[i];
            &&& stored.header_by_height.contains_key((chain_id, height))
            &&& stored.consensus_peers.contains_key((chain_id, height))
            &&& stored.consensus_peers[(chain_id, height)].len() > 0
        } by {
            assert(stored.key_heights(chain_id)[i] == self.key_heights(chain_id)[i]);
        }
        assert forall|chain_id: u64| #[trigger]
            stored.current_height.contains_key(chain_id) implies stored.header_by_height.contains_key(
            (chain_id, stored.current_height[chain_id]),
        ) by {
            if chain_id != header.chain_id {
                assert(self.current_height.contains_key(chain_id));
            }
        }
    }

    /// Offering a genesis header keeps the store well formed.
    pub proof fn lemma_sync_genesis_header_wf(self, header: HeaderView)
        requires
            self.wf(),
        ensures
            self.sync_genesis_header(header).0.wf(),
    {
        if self.sync_genesis_header(header).1 is Ok {
            assert(self.key_heights(header.chain_id).len() == 0);
            self.lemma_epoch_then_store_wf(header, peers_of_keys(header.book_keepers));
        }
    }

    /// Offering a block header keeps the store well formed.
    pub proof fn lemma_sync_block_header_wf(self, header: HeaderView, valid: spec_fn(int, int) -> bool)
        requires
            self.wf(),
        ensures
            self.sync_block_header(header, valid).0.wf(),
    {
        if self.sync_block_header(header, valid).1 == Ok::<SyncOutcome, SyncError>(
            SyncOutcome::Stored,
        ) {
            let heights = self.key_heights(header.chain_id);
            assert(self.find_key_height(header.chain_id, header.height) is Some);
            assert(self.genesis_header is Some);
            match header.consensus_payload {
                Some(payload) => match payload.new_chain_config {
                    Some(config) => {
                        let last = heights.len() - 1;
                        assert(self.header_by_height.contains_key((header.chain_id, heights[last])));
                        assert forall|i: int| 0 <= i < heights.len() implies heights[i]
                            < header.height by {
                            if i < last {
                                assert(heights[i] < heights[last]);
                            }
                        }
                        self.lemma_epoch_then_store_wf(header, config.peers);
                    },
                    None => {
                        self.lemma_store_wf(header);
                    },
                },
                None => {
                    self.lemma_store_wf(header);
                },
            }
        }
    }

    /// The store only grows: after a header is offered, every header is still found at its
    /// height, every peer set at its key height, and the key heights of each chain have at
    /// most been added to at their end.
    pub proof fn lemma_nothing_is_lost(self, header: HeaderView, valid: spec_fn(int, int) -> bool)
        requires
            self.wf(),
        ensures
            self.is_kept_by(self.sync_genesis_header(header).0),
            self.is_kept_by(self.sync_block_header(header, valid).0),
    {
        assert(forall|chain_id: u64|
            self.key_heights(chain_id) =~= self.key_heights(chain_id).subrange(
                0,
                self.key_heights(chain_id).len() as int,
            ));
        let first = self.sync_genesis_header(header).0;
        if self.sync_genesis_header(header).1 is Ok {
            assert(forall|chain_id: u64| self.key_heights(chain_id).len() == 0);
            assert forall|chain_id: u64| #[trigger]
                self.key_heights(chain_id).is_prefix_of(first.key_heights(chain_id)) by {
                assert(self.key_heights(chain_id) =~= first.key_heights(chain_id).subrange(0, 0));
            }
        }
        let next = self.sync_block_header(header, valid).0;
        if self.sync_block_header(header, valid).1 == Ok::<SyncOutcome, SyncError>(
            SyncOutcome::Stored,
        ) {
            assert(!self.header_by_height.contains_key((header.chain_id, header.height)));
            assert forall|chain_id: u64, height: u32| #[trigger]
                self.consensus_peers.contains_key((chain_id, height)) implies {
                &&& next.consensus_peers.contains_key((chain_id, height))
                &&& next.consensus_peers[(chain_id, height)] == self.consensus_peers[(
                    chain_id,
                    height,
                )]
            } by {
                let heights = self.key_heights(chain_id);
                assert(heights.contains(height));
                let at = choose|i: int| 0 <= i < heights.len() && heights[i] == height;
                assert(self.header_by_height.contains_key((chain_id, heights[at])));
            }
            assert forall|chain_id: u64| #[trigger]
                self.key_heights(chain_id).is_prefix_of(next.key_heights(chain_id)) by {
                let before = self.key_heights(chain_id);
                let after = next.key_heights(chain_id);
                if after != before {
                    assert(after == before.push(header.height));
                    assert(before =~= after.subrange(0, before.len() as int));
                }
            }
        }
    }

    /// A header offered again at a height that is stored is answered with success and
    /// changes nothing, whatever its signatures are worth.
    pub proof fn lemma_stored_height_is_left_alone(self, header: HeaderView, valid: spec_fn(int, int) -> bool)
        requires
            self.header_by_height.contains_key((header.chain_id, header.height)),
        ensures
            self.sync_block_header(header, valid) == (
                self,
                Ok::<SyncOutcome, SyncError>(SyncOutcome::AlreadyKnown),
            ),
    {
    }

    /// Syncing a block header is idempotent: after a call that succeeded, a second call with
    /// the same header succeeds too and leaves the store as the first call left it.
    pub proof fn lemma_sync_block_header_idempotent(
        self,
        header: HeaderView,
        first: spec_fn(int, int) -> bool,
        second: spec_fn(int, int) -> bool,
    )
        requires
            self.sync_block_header(header, first).1 is Ok,
        ensures
            self.sync_block_header(header, first).0.sync_block_header(header, second) == (
                self.sync_block_header(header, first).0,
                Ok::<SyncOutcome, SyncError>(SyncOutcome::AlreadyKnown),
            ),
    {
    }

    /// A header with fewer signers than two thirds of the active peer set is rejected,
    /// whatever the size of the peer set and whatever its signatures are worth.
    pub proof fn lemma_below_threshold_is_rejected(
        self,
        header: HeaderView,
        valid: spec_fn(int, int) -> bool,
    )
        requires
            self.find_key_height(header.chain_id, header.height) matches Some(key_height)
                && header.book_keepers.len() * 3 < self.consensus_peers[(
                header.chain_id,
                key_height,
            )].len() * 2,
        ensures
            self.verify_header(header, valid) == Err::<(), SyncError>(
                SyncError::InsufficientBookkeepers,
            ),
            !self.header_by_height.contains_key((header.chain_id, header.height))
                ==> self.sync_block_header(header, valid) == (
                self,
                Err::<SyncOutcome, SyncError>(SyncError::InsufficientBookkeepers),
            ),
    {
    }

    /// A header that is turned away leaves the store as it was.
    pub proof fn lemma_rejection_changes_nothing(self, header: HeaderView, valid: spec_fn(int, int) -> bool)
        ensures
            self.sync_genesis_header(header).1 is Err ==> self.sync_genesis_header(header).0 == self,
            self.sync_block_header(header, valid).1 is Err ==> self.sync_block_header(
                header,
                valid,
            ).0 == self,
    {
    }
}

} // verus!
