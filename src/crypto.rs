//! Public keys, signatures and peer identities, as the identity crate of the
//! peer-to-peer stack gives them. Keys travel as their protobuf encoding and
//! peer identities as their multihash bytes.
use vstd::prelude::*;

use libp2p_identity::{PeerId, PublicKey};

verus! {

/// Whether bytes are the protobuf encoding of a public key.
pub uninterp spec fn public_key_decodes(pk: Seq<u8>) -> bool;

/// Whether `sig` is a signature over `msg` by the key encoded in `pk`.
pub uninterp spec fn signature_valid(pk: Seq<u8>, msg: Seq<u8>, sig: Seq<u8>) -> bool;

/// The bytes of the peer identity derived from the key encoded in `pk`.
pub uninterp spec fn peer_id_of_key(pk: Seq<u8>) -> Seq<u8>;

/// Whether bytes are a peer identity.
pub uninterp spec fn peer_id_parses(b: Seq<u8>) -> bool;

/// Relies on `PublicKey::try_decode_protobuf`: whether it accepts the bytes
/// depends on the bytes alone.
#[verifier::external_body]
pub(crate) fn public_key_ok(pk: &[u8]) -> (r: bool)
    ensures
        r == public_key_decodes(pk@),
{
    PublicKey::try_decode_protobuf(pk).is_ok()
}

/// Relies on `PublicKey::verify`, called on the key that
/// `PublicKey::try_decode_protobuf` reads from `pk`: whether the signature
/// holds depends on the key, the message and the signature alone.
#[verifier::external_body]
pub(crate) fn verify_signature(pk: &[u8], msg: &[u8], sig: &[u8]) -> (r: bool)
    requires
        public_key_decodes(pk@),
    ensures
        r == signature_valid(pk@, msg@, sig@),
{
    match PublicKey::try_decode_protobuf(pk) {
        Ok(key) => key.verify(msg, sig),
        Err(_) => false,
    }
}

/// Relies on `PublicKey::to_peer_id` and `PeerId::to_bytes`, called on the
/// key that `PublicKey::try_decode_protobuf` reads from `pk`: the identity
/// is derived from the key alone.
#[verifier::external_body]
pub(crate) fn peer_id_bytes(pk: &[u8]) -> (r: Vec<u8>)
    requires
        public_key_decodes(pk@),
    ensures
        r@ == peer_id_of_key(pk@),
{
    match PublicKey::try_decode_protobuf(pk) {
        Ok(key) => key.to_peer_id().to_bytes(),
        Err(_) => Vec::new(),
    }
}

/// Relies on `PeerId::from_bytes`: whether it accepts the bytes depends on
/// the bytes alone.
#[verifier::external_body]
pub(crate) fn peer_id_ok(b: &[u8]) -> (r: bool)
    ensures
        r == peer_id_parses(b@),
{
    PeerId::from_bytes(b).is_ok()
}

} // verus!
