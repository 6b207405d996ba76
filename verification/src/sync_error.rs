//! The reasons for which a header is turned away.
use vstd::prelude::*;

verus! {

/// Why a header was not accepted. A rejected header leaves the store as it was.
#[derive(Clone, Copy, Debug, PartialEq, Eq, Structural)]
pub enum SyncError {
    /// A genesis header has been set before.
    AlreadyInitialized,
    /// The genesis header carries a consensus payload.
    InvalidGenesisHeader,
    /// No key height is known for the header's chain at or below its height.
    NoActiveConsensus,
    /// Fewer signers than two thirds of the active peer set.
    InsufficientBookkeepers,
    /// A declared signer is not in the active peer set.
    UnknownSigner,
    /// The new peer set is empty.
    EmptyPeerList,
    /// Fewer signatures than the required minimum.
    InsufficientSignatures,
    /// Some signature found no unused key that it verifies under.
    SignatureMismatch,
}

impl SyncError {
    /// The message that goes with the error.
    pub fn message(&self) -> (text: &'static str)
        ensures
            text@ == self.spec_message()@,
    {
        match self {
            SyncError::AlreadyInitialized => "Genesis header already set!",
            SyncError::InvalidGenesisHeader => "Invalid genesis header!",
            SyncError::NoActiveConsensus => "Couldn't find key height!",
            SyncError::InsufficientBookkeepers => "Header bookkeepers num must be > 2/3 of consensus num",
            SyncError::UnknownSigner => "Invalid pubkey!",
            SyncError::EmptyPeerList => "Consensus peer list is empty!",
            SyncError::InsufficientSignatures => "Not enough signatures!",
            SyncError::SignatureMismatch => "Multi-signature verification failed!",
        }
    }

    /// The message that goes with the error.
    pub open spec fn spec_message(&self) -> &'static str {
        match self {
            SyncError::AlreadyInitialized => "Genesis header already set!",
            SyncError::InvalidGenesisHeader => "Invalid genesis header!",
            SyncError::NoActiveConsensus => "Couldn't find key height!",
            SyncError::InsufficientBookkeepers => "Header bookkeepers num must be > 2/3 of consensus num",
            SyncError::UnknownSigner => "Invalid pubkey!",
            SyncError::EmptyPeerList => "Consensus peer list is empty!",
            SyncError::InsufficientSignatures => "Not enough signatures!",
            SyncError::SignatureMismatch => "Multi-signature verification failed!",
        }
    }
}

} // verus!
