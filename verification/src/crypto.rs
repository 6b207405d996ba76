//! The cryptographic primitives that the host supplies, as the library sees them.
//!
//! The library does not compute SHA-256 nor check signatures itself. It is handed functions
//! that do, and its contracts speak of what those functions answer.
use vstd::prelude::*;

verus! {

/// Whether `hash` can be called on every byte string and gives one digest for each.
pub open spec fn is_hasher<H: Fn(&[u8]) -> [u8; 32]>(hash: &H) -> bool {
    &&& forall|data: &[u8]| #[trigger] hash.requires((data,))
    &&& forall|data: &[u8], a: [u8; 32], b: [u8; 32]|
        #[trigger] hash.ensures((data,), a) && #[trigger] hash.ensures((data,), b) ==> a == b
}

/// Whether `digest` is what `hash` gives for `data`.
pub open spec fn hashes_to<H: Fn(&[u8]) -> [u8; 32]>(hash: &H, data: Seq<u8>, digest: [u8; 32]) -> bool {
    exists|bytes: &[u8]| bytes@ == data && #[trigger] hash.ensures((bytes,), digest)
}

/// The digest that `hash` gives for `data`.
pub open spec fn digest_of<H: Fn(&[u8]) -> [u8; 32]>(hash: &H, data: Seq<u8>) -> [u8; 32] {
    choose|digest: [u8; 32]| hashes_to(hash, data, digest)
}

/// Calls `hash` on `data`.
pub fn apply_hasher<H: Fn(&[u8]) -> [u8; 32]>(hash: &H, data: &[u8]) -> (digest: [u8; 32])
    requires
        is_hasher(hash),
    ensures
        digest == digest_of(hash, data@),
{
    let digest = hash(data);
    proof {
        assert(hashes_to(hash, data@, digest));
        let chosen = digest_of(hash, data@);
        assert(hashes_to(hash, data@, chosen));
        let bytes = choose|bytes: &[u8]| bytes@ == data@ && #[trigger] hash.ensures((bytes,), chosen);
        assert(bytes =~= data);
    }
    digest
}

/// Whether `verify` can be called on every key, message and signature, and gives one answer
/// for each.
pub open spec fn is_verifier<V: Fn(&[u8], &[u8], &[u8]) -> bool>(verify: &V) -> bool {
    &&& forall|key: &[u8], message: &[u8], signature: &[u8]| #[trigger]
        verify.requires((key, message, signature))
    &&& forall|key: &[u8], message: &[u8], signature: &[u8]|
        !(#[trigger] verify.ensures((key, message, signature), true) && verify.ensures(
            (key, message, signature),
            false,
        ))
}

/// Whether `verify` says that `signature` is a signature of `message` under `key`.
pub open spec fn accepts<V: Fn(&[u8], &[u8], &[u8]) -> bool>(
    verify: &V,
    key: Seq<u8>,
    message: Seq<u8>,
    signature: Seq<u8>,
) -> bool {
    exists|k: &[u8], m: &[u8], s: &[u8]|
        k@ == key && m@ == message && s@ == signature && #[trigger] verify.ensures((k, m, s), true)
}

/// Calls `verify` on `key`, `message` and `signature`.
pub fn apply_verifier<V: Fn(&[u8], &[u8], &[u8]) -> bool>(
    verify: &V,
    key: &[u8],
    message: &[u8],
    signature: &[u8],
) -> (ok: bool)
    requires
        is_verifier(verify),
    ensures
        ok == accepts(verify, key@, message@, signature@),
{
    let ok = verify(key, message, signature);
    proof {
        assert(verify.ensures((key, message, signature), ok));
        if accepts(verify, key@, message@, signature@) {
            let (k, m, s) = choose|k: &[u8], m: &[u8], s: &[u8]|
                k@ == key@ && m@ == message@ && s@ == signature@ && #[trigger] verify.ensures(
                    (k, m, s),
                    true,
                );
            assert(k =~= key);
            assert(m =~= message);
            assert(s =~= signature);
        }
    }
    ok
}

} // verus!
