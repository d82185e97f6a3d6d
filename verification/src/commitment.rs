use vstd::prelude::*;
use crate::error::Error;
use crate::inscription::{reveal_script_bytes, Inscription, InscriptionView};
use crate::keys::{
    public_key_of, taproot_spend, taproot_spend_of, x_only_public_key, TaprootSpend,
    TaprootSpendView,
};
use crate::script::{p2tr_script, p2tr_script_bytes};

verus! {

/// What commits to one inscription: the key pair made for it, its reveal
/// script, the Taproot output that commits to the script, and the script
/// that pays to that output.
#[derive(Clone, Debug, PartialEq, Eq)]
pub struct Commitment {
    pub secret_key: [u8; 32],
    pub public_key: [u8; 32],
    pub reveal_script: Vec<u8>,
    pub spend: TaprootSpend,
    pub commit_script: Vec<u8>,
}

/// A commitment, with its scripts as byte strings.
pub ghost struct CommitmentView {
    pub secret_key: [u8; 32],
    pub public_key: [u8; 32],
    pub reveal_script: Seq<u8>,
    pub spend: TaprootSpendView,
    pub commit_script: Seq<u8>,
}

impl View for Commitment {
    type V = CommitmentView;

    open spec fn view(&self) -> CommitmentView {
        CommitmentView {
            secret_key: self.secret_key,
            public_key: self.public_key,
            reveal_script: self.reveal_script@,
            spend: self.spend@,
            commit_script: self.commit_script@,
        }
    }
}

/// The commitment of a key to an inscription. The reveal script checks a
/// signature of the key's public key and carries the inscription's
/// envelope after it; the Taproot output has that public key as its
/// internal key and the reveal script as its one leaf; the commit script
/// pays to the output key. There is none where the bytes are no secret
/// key or the Taproot output cannot be made.
pub open spec fn commitment_of(secret_key: [u8; 32], inscription: InscriptionView) -> Option<
    CommitmentView,
> {
    match public_key_of(secret_key) {
        Some(public_key) => {
            let reveal_script = reveal_script_bytes(public_key@, inscription);
            match taproot_spend_of(public_key, reveal_script) {
                Some(spend) => Some(
                    CommitmentView {
                        secret_key,
                        public_key,
                        reveal_script,
                        spend,
                        commit_script: p2tr_script_bytes(spend.output_key@),
                    },
                ),
                None => None,
            }
        },
        None => None,
    }
}

/// The commitment as a view, if there is one.
pub open spec fn committed(r: Result<Commitment, Error>) -> Result<CommitmentView, Error> {
    match r {
        Ok(commitment) => Ok(commitment@),
        Err(error) => Err(error),
    }
}

/// Commits the key to the inscription.
pub fn commit_to(inscription: &Inscription, secret_key: [u8; 32]) -> (r: Result<Commitment, Error>)
    requires
        inscription@.content_type.len() < 0x1_0000_0000,
    ensures
        committed(r) == match commitment_of(secret_key, inscription@) {
            Some(commitment) => Ok::<CommitmentView, Error>(commitment),
            None => Err(Error::Commitment),
        },
{
    let public_key = match x_only_public_key(&secret_key) {
        Some(public_key) => public_key,
        None => {
            return Err(Error::Commitment);
        },
    };
    let reveal_script = inscription.reveal_script(&public_key);
    let spend = match taproot_spend(&public_key, &reveal_script) {
        Some(spend) => spend,
        None => {
            return Err(Error::Commitment);
        },
    };
    let commit_script = p2tr_script(&spend.output_key);
    Ok(Commitment { secret_key, public_key, reveal_script, spend, commit_script })
}

} // verus!
