//! The two outside computations behind an event's hash: the canonical JSON
//! encoding of the hashed fields (serde_json) and SHA-256 (sha2).
use sha2::Digest;
use vstd::prelude::*;

use crate::canonical::canonical_json;

verus! {

/// `serde_json::to_vec` on the tuple of the hashed fields: a compact JSON
/// array (`[`, the values separated by `,`, `]`), integers in decimal, texts
/// as JSON strings escaped as serde_json's `format_escaped_str` does, `None`
/// as `null`, all as UTF-8. The tuple holds integers, string slices and
/// optional strings, whose serialisation cannot fail, so the `expect` never
/// fires.
#[verifier::external_body]
pub(crate) fn canonical_json_bytes(
    sequence: i64,
    occurred_at_ms: i64,
    kind: &str,
    device_path: &str,
    interface_class: &str,
    vendor_id: &Option<String>,
    product_id: &Option<String>,
    risk: &str,
    reason: &str,
    previous_hash: &str,
) -> (bytes: Vec<u8>)
    ensures
        bytes@ == canonical_json(
            sequence,
            occurred_at_ms,
            kind@,
            device_path@,
            interface_class@,
            vendor_id.deep_view(),
            product_id.deep_view(),
            risk@,
            reason@,
            previous_hash@,
        ),
{
    let fields = (sequence, occurred_at_ms, kind, device_path, interface_class, vendor_id,
        product_id, risk, reason, previous_hash);
    serde_json::to_vec(&fields).expect("event fields serialize")
}

/// The SHA-256 digest of a byte string.
pub uninterp spec fn sha256_digest(data: Seq<u8>) -> Seq<u8>;

/// `sha2::Sha256::digest`: the contract names the digest as a function of
/// the input and states its length, 32 bytes (the output size of SHA-256).
#[verifier::external_body]
pub(crate) fn sha256(data: &[u8]) -> (digest: Vec<u8>)
    ensures
        digest@ == sha256_digest(data@),
        digest@.len() == 32,
{
    sha2::Sha256::digest(data).to_vec()
}

} // verus!
