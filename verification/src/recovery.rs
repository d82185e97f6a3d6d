use vstd::prelude::*;
use vstd::string::StringSliceAdditionalSpecFns;
use vstd::utf8::encode_utf8;
use bitcoin::PrivateKey;
use bitcoin::secp256k1::SecretKey;
use crate::error::Error;
use crate::text::push_str;

verus! {

/// The chain on which keys and addresses are used.
#[derive(Clone, Copy, Debug, PartialEq, Eq, Structural)]
pub enum Network {
    Bitcoin,
    Testnet,
    Signet,
    Regtest,
}

/// The secret key in wallet import format for the network; none where
/// the bytes are no secret key.
pub uninterp spec fn wif_of(secret_key: [u8; 32], network: Network) -> Option<Seq<char>>;

/// The characters of a string, if there is one.
pub open spec fn characters(text: Option<String>) -> Option<Seq<char>> {
    match text {
        Some(text) => Some(text@),
        None => None,
    }
}

/// `PrivateKey::new` and `PrivateKey::to_wif`: the secret key, as the key
/// of a compressed public key, in wallet import format.
#[verifier::external_body]
pub(crate) fn to_wif(secret_key: &[u8; 32], network: Network) -> (wif: Option<String>)
    ensures
        characters(wif) == wif_of(*secret_key, network),
{
    let network = match network {
        Network::Bitcoin => bitcoin::Network::Bitcoin,
        Network::Testnet => bitcoin::Network::Testnet,
        Network::Signet => bitcoin::Network::Signet,
        Network::Regtest => bitcoin::Network::Regtest,
    };
    Some(PrivateKey::new(SecretKey::from_slice(secret_key).ok()?, network).to_wif())
}

/// The descriptor of a recovery key: `rawtr`, with the key in wallet
/// import format in brackets.
pub open spec fn descriptor_text(wif: Seq<char>) -> Seq<u8> {
    "rawtr(".spec_bytes() + encode_utf8(wif) + ")".spec_bytes()
}

/// The descriptor with its checksum after a number sign.
pub open spec fn checked_descriptor_text(wif: Seq<char>, checksum: Seq<u8>) -> Seq<u8> {
    descriptor_text(wif) + "#".spec_bytes() + checksum
}

/// The label under which a wallet keeps a recovery key.
pub fn recovery_label() -> (label: String)
    ensures
        label@ == "commit tx recovery key"@,
{
    "commit tx recovery key".to_owned()
}

/// The descriptor of a recovery key, for which the wallet is asked the
/// checksum; `None` where the bytes are no secret key.
pub fn recovery_descriptor(recovery_key: &[u8; 32], network: Network) -> (r: Option<Vec<u8>>)
    ensures
        match wif_of(*recovery_key, network) {
            Some(wif) => r is Some && r->Some_0@ == descriptor_text(wif),
            None => r is None,
        },
{
    let wif = match to_wif(recovery_key, network) {
        Some(wif) => wif,
        None => {
            return None;
        },
    };
    let mut out: Vec<u8> = Vec::new();
    push_str(&mut out, "rawtr(");
    push_str(&mut out, wif.as_str());
    push_str(&mut out, ")");
    assert(out@ =~= descriptor_text(wif@));
    Some(out)
}

/// The descriptor of a recovery key with the checksum that the wallet
/// gave for it, as the wallet imports it; `None` where the bytes are no
/// secret key.
pub fn import_descriptor(recovery_key: &[u8; 32], network: Network, checksum: &str) -> (r: Option<
    Vec<u8>,
>)
    ensures
        match wif_of(*recovery_key, network) {
            Some(wif) => r is Some && r->Some_0@ == checked_descriptor_text(
                wif,
                checksum.spec_bytes(),
            ),
            None => r is None,
        },
{
    let mut out = match recovery_descriptor(recovery_key, network) {
        Some(out) => out,
        None => {
            return None;
        },
    };
    push_str(&mut out, "#");
    push_str(&mut out, checksum);
    Some(out)
}

/// Decides whether recovery keys are safe in the wallet, from what the
/// wallet answered for each descriptor: every import must have
/// succeeded.
pub fn check_import(successes: &Vec<bool>) -> (r: Result<(), Error>)
    ensures
        r == if forall|i: int| 0 <= i < successes@.len() ==> successes@[i] {
            Ok::<(), Error>(())
        } else {
            Err(Error::RecoveryKeyImport)
        },
{
    let mut i: usize = 0;
    while i < successes.len()
        invariant
            i <= successes@.len(),
            forall|k: int| 0 <= k < i ==> successes@[k],
        decreases successes@.len() - i,
    {
        if !successes[i] {
            return Err(Error::RecoveryKeyImport);
        }
        i += 1;
    }
    Ok(())
}

} // verus!
