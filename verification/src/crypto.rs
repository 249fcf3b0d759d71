//! The cryptographic primitives the protocol rests on: the Keccak-256 digest
//! and the public-key operations of the peer identity scheme.
//!
//! Nothing in this module is proved. Each function hands plain bytes to a
//! primitive of another crate and its contract is taken on trust; the doc
//! comment of each says what is claimed.
use libp2p::identity::DecodingError;
use libp2p::identity::Keypair;
use libp2p::identity::PublicKey;
use libp2p::identity::SigningError;
use sha3::Digest;
use sha3::Keccak256;
use vstd::prelude::*;

verus! {

/// A key pair of the identity scheme. Its secret half never leaves the value.
#[verifier::external_type_specification]
#[verifier::external_body]
pub struct ExKeypair(Keypair);

/// Why a signing primitive refused to sign.
#[verifier::external_type_specification]
#[verifier::external_body]
pub struct ExSigningError(SigningError);

/// Why bytes were not accepted as key material.
#[verifier::external_type_specification]
#[verifier::external_body]
pub struct ExDecodingError(DecodingError);

/// The Keccak-256 digest of `data`.
pub uninterp spec fn keccak256_digest(data: Seq<u8>) -> Seq<u8>;

/// The canonical encoding of the public key that `bytes` decode to, or `None`
/// where `bytes` are not accepted as a public key.
pub uninterp spec fn canonical_key(bytes: Seq<u8>) -> Option<Seq<u8>>;

/// Whether the public key that `key` decodes to accepts `signature` for
/// `message`, or `None` where `key` is not accepted as a public key.
pub uninterp spec fn key_verdict(key: Seq<u8>, message: Seq<u8>, signature: Seq<u8>) -> Option<
    bool,
>;

/// What `key_pair` makes of `message` when it is asked to sign: the signature,
/// or `None` where the signing primitive refuses.
pub uninterp spec fn signing_outcome(key_pair: Keypair, message: Seq<u8>) -> Option<Seq<u8>>;

/// The canonical encoding of the public key of `key_pair`.
pub uninterp spec fn public_key_of(key_pair: Keypair) -> Seq<u8>;

/// Hashes `data` with `Keccak256::digest` of the `sha3` crate. Claimed: the
/// digest is a function of the bytes alone.
#[verifier::external_body]
pub(crate) fn keccak256(data: &[u8]) -> (digest: [u8; 32])
    ensures
        digest@ == keccak256_digest(data@),
{
    Keccak256::digest(data).into()
}

/// Decodes `bytes` with `PublicKey::try_decode_protobuf` and hands the key
/// back as the bytes that `PublicKey::encode_protobuf` writes for it. Claimed:
/// the outcome is a function of the bytes alone; and the bytes that come out
/// decode to the key they were written for, so that they are their own
/// canonical form.
#[verifier::external_body]
pub(crate) fn canonical_key_bytes(bytes: &[u8]) -> (r: Result<Vec<u8>, DecodingError>)
    ensures
        match r {
            Ok(canonical) => canonical_key(bytes@) == Some(canonical@) && canonical_key(
                canonical@,
            ) == Some(canonical@),
            Err(_) => canonical_key(bytes@) is None,
        },
{
    match PublicKey::try_decode_protobuf(bytes) {
        Ok(key) => Ok(key.encode_protobuf()),
        Err(e) => Err(e),
    }
}

/// Asks the key that `key` stands for to check `signature` over `message`
/// with `PublicKey::verify`; the key is made of its bytes with
/// `PublicKey::try_decode_protobuf`, and where that fails nobody is asked.
/// Claimed: the outcome is a function of the three byte strings alone.
#[verifier::external_body]
pub(crate) fn key_verifies(key: &[u8], message: &[u8], signature: &[u8]) -> (verdict: Option<bool>)
    ensures
        verdict == key_verdict(key@, message@, signature@),
{
    match PublicKey::try_decode_protobuf(key) {
        Ok(public) => Some(public.verify(message, signature)),
        Err(_) => None,
    }
}

/// Signs `message` with `Keypair::sign` and hands the signature back beside
/// the public key of the pair, as the bytes that `PublicKey::encode_protobuf`
/// writes for what `Keypair::public` returns. Claimed: whether the primitive
/// signs, and the signature where it does, are a function of the pair and the
/// message alone, and so is the key; as the signing primitive documents, the
/// signature is one that the corresponding public key accepts for `message`;
/// and the bytes of that key decode to it, so that they are their own
/// canonical form.
#[verifier::external_body]
pub(crate) fn sign_with(key_pair: &Keypair, message: &[u8]) -> (r: Result<
    (Vec<u8>, Vec<u8>),
    SigningError,
>)
    ensures
        r matches Ok((key, signature)) ==> canonical_key(key@) == Some(key@) && key_verdict(
            key@,
            message@,
            signature@,
        ) == Some(true),
        match r {
            Ok((key, signature)) => key@ == public_key_of(*key_pair) && signing_outcome(
                *key_pair,
                message@,
            ) == Some(signature@),
            Err(_) => signing_outcome(*key_pair, message@) is None,
        },
{
    let signature = key_pair.sign(message)?;
    Ok((key_pair.public().encode_protobuf(), signature))
}

} // verus!
