use vstd::prelude::*;
use bitcoin::Script;
use bitcoin::schnorr::TapTweak;
use bitcoin::secp256k1::schnorr::Signature;
use bitcoin::secp256k1::{rand, KeyPair, Message, Secp256k1, XOnlyPublicKey};
use bitcoin::util::taproot::{LeafVersion, TapBranchHash, TaprootBuilder};

verus! {

/// A Taproot output that commits to one script: the tweaked output key,
/// the control block that proves the script to be its only leaf, and the
/// root of the script tree.
#[derive(Clone, Debug, PartialEq, Eq)]
pub struct TaprootSpend {
    pub output_key: [u8; 32],
    pub control_block: Vec<u8>,
    pub merkle_root: Option<[u8; 32]>,
}

/// A Taproot commitment, with its control block as a byte string.
pub ghost struct TaprootSpendView {
    pub output_key: [u8; 32],
    pub control_block: Seq<u8>,
    pub merkle_root: Option<[u8; 32]>,
}

impl View for TaprootSpend {
    type V = TaprootSpendView;

    open spec fn view(&self) -> TaprootSpendView {
        TaprootSpendView {
            output_key: self.output_key,
            control_block: self.control_block@,
            merkle_root: self.merkle_root,
        }
    }
}

/// The x-only public key of a secret key; none where the bytes are no
/// secret key.
pub uninterp spec fn public_key_of(secret_key: [u8; 32]) -> Option<[u8; 32]>;

/// The Taproot output of an internal key that commits to one script; none
/// where the bytes are no public key.
pub uninterp spec fn taproot_spend_of(internal_key: [u8; 32], script: Seq<u8>) -> Option<
    TaprootSpendView,
>;

/// Whether the bytes `signature` are a Schnorr signature of `hash` that
/// the x-only public key verifies.
pub uninterp spec fn schnorr_verifies(signature: Seq<u8>, hash: [u8; 32], public_key: [u8; 32]) -> bool;

/// The secret key tweaked for a Taproot output with the given script tree
/// root; none where the bytes are no secret key.
pub uninterp spec fn tap_tweak_of(secret_key: [u8; 32], merkle_root: Option<[u8; 32]>) -> Option<
    [u8; 32],
>;

/// What `taproot_spend` returns for the view of a commitment.
pub open spec fn spend_view(spend: Option<TaprootSpend>) -> Option<TaprootSpendView> {
    match spend {
        Some(spend) => Some(spend@),
        None => None,
    }
}

/// `KeyPair::new` with the thread's random number generator: the secret
/// key of a fresh pair. Every call may give another key, and nothing is
/// stated of it.
#[verifier::external_body]
pub(crate) fn fresh_secret_key() -> [u8; 32] {
    KeyPair::new(&Secp256k1::new(), &mut rand::thread_rng()).secret_bytes()
}

/// `KeyPair::from_seckey_slice` and `XOnlyPublicKey::from_keypair`: the
/// x-only public key that belongs to the secret key, the same for the
/// same key; `None` where the bytes are no secret key.
#[verifier::external_body]
pub(crate) fn x_only_public_key(secret_key: &[u8; 32]) -> (public_key: Option<[u8; 32]>)
    ensures
        public_key == public_key_of(*secret_key),
{
    let pair = KeyPair::from_seckey_slice(&Secp256k1::new(), secret_key).ok()?;
    Some(XOnlyPublicKey::from_keypair(&pair).0.serialize())
}

/// `TaprootBuilder` with `script` as its one leaf at depth 0, finalized
/// with the internal key: the output key, the serialized control block of
/// the leaf and the merkle root of the resulting `TaprootSpendInfo`. The
/// same key and script give the same result; `None` where the bytes are
/// no public key. The outside crate stops the program where the tweak, a
/// hash of key and script, is not below the order of the curve or cancels
/// the key; no key and script are known to bring that about.
#[verifier::external_body]
pub(crate) fn taproot_spend(internal_key: &[u8; 32], script: &Vec<u8>) -> (spend: Option<TaprootSpend>)
    ensures
        spend_view(spend) == taproot_spend_of(*internal_key, script@),
{
    let key = XOnlyPublicKey::from_slice(internal_key).ok()?;
    let script = Script::from(script.clone());
    let info = TaprootBuilder::new().add_leaf(0, script.clone()).ok()?.finalize(&Secp256k1::new(), key).ok()?;
    Some(TaprootSpend {
        output_key: info.output_key().to_inner().serialize(),
        control_block: info.control_block(&(script, LeafVersion::TapScript))?.serialize(),
        merkle_root: info.merkle_root().map(|root| bitcoin::hashes::Hash::into_inner(root)),
    })
}

/// `TapTweak::tap_tweak` on the key pair of the secret key: the secret key
/// of the tweaked pair. The same key and root give the same result;
/// `None` where the bytes are no secret key. The outside crate stops the
/// program where the tweak, a hash of key and root, is not below the
/// order of the curve or cancels the key; no key and root are known to
/// bring that about.
#[verifier::external_body]
pub(crate) fn tap_tweak(secret_key: &[u8; 32], merkle_root: Option<[u8; 32]>) -> (tweaked: Option<[u8; 32]>)
    ensures
        tweaked == tap_tweak_of(*secret_key, merkle_root),
{
    let secp = Secp256k1::new();
    let pair = KeyPair::from_seckey_slice(&secp, secret_key).ok()?;
    let root: Option<TapBranchHash> = merkle_root.map(bitcoin::hashes::Hash::from_inner);
    Some(pair.tap_tweak(&secp, root).to_inner().secret_bytes())
}

/// `Secp256k1::sign_schnorr`: a Schnorr signature of the 32-byte hash by
/// the secret key. There is one whenever the bytes are a secret key, and
/// none else. The signature draws on fresh randomness, so two calls
/// differ; the outside crate makes it without verifying it, and nothing
/// is stated of it but its length, which its type gives.
#[verifier::external_body]
pub(crate) fn sign_schnorr(hash: &[u8; 32], secret_key: &[u8; 32]) -> (signature: Option<[u8; 64]>)
    ensures
        signature is Some <==> public_key_of(*secret_key) is Some,
{
    let secp = Secp256k1::new();
    let pair = KeyPair::from_seckey_slice(&secp, secret_key).ok()?;
    let message = Message::from_slice(hash).ok()?;
    Some(*secp.sign_schnorr(&message, &pair).as_ref())
}

/// `Secp256k1::verify_schnorr`: whether the 64 bytes are a signature of
/// the 32-byte hash that the x-only public key verifies; the same answer
/// for the same arguments, and no where the bytes are no public key.
#[verifier::external_body]
pub(crate) fn verify_schnorr(signature: &[u8; 64], hash: &[u8; 32], public_key: &[u8; 32]) -> (valid: bool)
    ensures
        valid == schnorr_verifies(signature@, *hash, *public_key),
{
    let signature = Signature::from_slice(signature);
    let message = Message::from_slice(hash);
    let key = XOnlyPublicKey::from_slice(public_key);
    match (signature, message, key) {
        (Ok(signature), Ok(message), Ok(key)) => Secp256k1::new().verify_schnorr(&signature, &message, &key).is_ok(),
        _ => false,
    }
}

} // verus!
