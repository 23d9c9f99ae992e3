//! Profile identity: the profile's name, the backend ids it may carry, and
//! the 8-byte profile hash (the first eight bytes of SHA-256 over the
//! canonical profile bytes, kept as opaque bytes).
use vstd::prelude::*;

verus! {

pub const PROFILE_ID: &'static str = "moyunfei-desk-1";
/// Placeholder backend id accepted only by the canonicalization fixture and
/// measurement tooling.
pub const PLACEHOLDER_BACKEND: &'static str = "TBD-A00";
pub const BACKEND_CUVID: &'static str = "cuvid-lowdelay";
pub const BACKEND_SW1: &'static str = "sw1-lowdelay";

/// The SHA-256 digest of `data`.
pub uninterp spec fn sha256(data: Seq<u8>) -> Seq<u8>;

/// Calls `sha2::Sha256::digest` (the `Digest` trait's one-shot hash) and
/// returns its 32 bytes. The digest is named, not described: the contract
/// says it is `sha256` of the input and 32 bytes long.
#[verifier::external_body]
fn sha256_digest(data: &[u8]) -> (r: [u8; 32])
    ensures
        r@ == sha256(data@),
        r@.len() == 32,
{
    <sha2::Sha256 as sha2::Digest>::digest(data).into()
}

/// First 8 bytes of SHA-256 over exactly `bytes`.
pub fn hash8(bytes: &[u8]) -> (r: [u8; 8])
    ensures
        r@ == sha256(bytes@).subrange(0, 8),
{
    let d = sha256_digest(bytes);
    let r = [d[0], d[1], d[2], d[3], d[4], d[5], d[6], d[7]];
    proof {
        broadcast use vstd::array::group_array_axioms;
        assert(r@ =~= sha256(bytes@).subrange(0, 8));
    }
    r
}

} // verus!
