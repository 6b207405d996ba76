//! A cross-chain header light client.
//!
//! The client takes in block headers of a remote chain whose consensus is run by a changing
//! set of peers. It checks each header against the peer set that governs the header's
//! height and keeps the headers it has accepted, by height and by hash.

pub mod block_header_sync;
pub mod consensus_payload;
pub mod crypto;
pub mod esdt_payment;
pub mod header;
pub mod header_store;
pub mod hex_converter;
pub mod multi_signature;
pub mod public_key;
pub mod signature;
pub mod sync_error;
pub mod util;
pub mod wire;
pub mod zero_copy_sink;
pub mod zero_copy_source;

pub use block_header_sync::BlockHeaderSync;
pub use consensus_payload::{ChainConfig, ConsensusPayload, PeerConfig};
pub use esdt_payment::EsdtPayment;
pub use header::Header;
pub use header_store::SyncOutcome;
pub use public_key::{EllipticCurveAlgorithm, PublicKey};
pub use signature::{Signature, SignatureScheme};
pub use sync_error::SyncError;
pub use util::{EthAddress, H256};
pub use wire::DecodeError;
pub use zero_copy_sink::ZeroCopySink;
pub use zero_copy_source::ZeroCopySource;
