use vstd::prelude::*;
use vstd::string::StringSliceAdditionalSpecFns;
use vstd::utf8::{decode_utf8, valid_utf8};
use crate::outpoint::{InscriptionId, OutPoint, SatPoint};
use crate::text::{
    decimal, lemma_decimal_valid, lemma_outpoint_text_valid, lemma_satpoint_text_valid,
    lemma_str_valid, outpoint_text, push_decimal, push_outpoint, push_satpoint, push_str,
    push_txid, satpoint_text, string_of, txid_text,
};

verus! {

/// Why no plan could be made.
#[derive(Clone, Copy, Debug, PartialEq, Eq)]
pub enum Error {
    /// The fee rate is not a number: its denominator is zero.
    InvalidFeeRate,
    /// No satpoint was named and every output of the wallet bears an inscription.
    NoCardinalUtxos,
    /// The chosen satoshi already bears an inscription.
    SatAlreadyInscribed { satpoint: SatPoint },
    /// Another satoshi of the chosen output already bears an inscription.
    UtxoAlreadyInscribed { outpoint: OutPoint, inscription_id: InscriptionId, inscribed: SatPoint },
    /// The chosen output is not among the wallet's unspent outputs.
    NotInWallet { satpoint: SatPoint },
    /// The chosen offset lies beyond the output's last satoshi.
    OutOfRange { satpoint: SatPoint, max: u64 },
    /// A commit output would be worth less than its script's dust threshold.
    Dust { output_value: u64, dust_value: u64 },
    /// The wallet's cardinal outputs cannot pay for the plan.
    InsufficientFunds,
    /// A sum of satoshis does not fit in 64 bits.
    ValueOverflow,
    /// The commit output is worth less than the reveal transaction's fee.
    InsufficientToPayFee,
    /// After its fee the reveal output would be worth less than the dust threshold.
    RevealDust,
    /// The reveal transaction weighs more than a standard transaction may.
    WeightExceeded { weight: u64 },
    /// The key material was refused, or the commitment could not be computed from it.
    Commitment,
    /// The commit transaction does not hold exactly one output with a commit script.
    CommitOutput,
    /// The reveal transaction could not be hashed or signed.
    Signing,
    /// The tweaked recovery key does not open the commit output.
    RecoveryKey,
    /// The wallet did not take in a recovery key.
    RecoveryKeyImport,
}

impl Error {
    /// The bytes of the message that tells a user of the failure.
    pub open spec fn text(self) -> Seq<u8> {
        match self {
            Error::InvalidFeeRate => "invalid fee rate".spec_bytes(),
            Error::NoCardinalUtxos => "wallet contains no cardinal utxos".spec_bytes(),
            Error::SatAlreadyInscribed { satpoint } => "sat at ".spec_bytes() + satpoint_text(
                satpoint,
            ) + " already inscribed".spec_bytes(),
            Error::UtxoAlreadyInscribed { outpoint, inscription_id, inscribed } => "utxo ".spec_bytes()
                + outpoint_text(outpoint) + " already inscribed with inscription ".spec_bytes()
                + txid_text(inscription_id.txid) + " on sat ".spec_bytes() + satpoint_text(
                inscribed,
            ),
            Error::NotInWallet { satpoint } => "outgoing satpoint ".spec_bytes() + satpoint_text(
                satpoint,
            ) + " not in wallet".spec_bytes(),
            Error::OutOfRange { satpoint, max } => "outgoing satpoint ".spec_bytes()
                + satpoint_text(satpoint) + " offset higher than maximum ".spec_bytes() + decimal(
                max as nat,
            ),
            Error::Dust { output_value, dust_value } => "output value is below dust value: ".spec_bytes()
                + decimal(output_value as nat) + " < ".spec_bytes() + decimal(dust_value as nat),
            Error::InsufficientFunds => "wallet does not contain enough cardinal UTXOs, please add additional funds to wallet.".spec_bytes(),
            Error::ValueOverflow => "arithmetic overflow calculating value".spec_bytes(),
            Error::InsufficientToPayFee => "commit transaction output value insufficient to pay transaction fee".spec_bytes(),
            Error::RevealDust => "commit transaction output would be dust".spec_bytes(),
            Error::WeightExceeded { weight } => "reveal transaction weight greater than 400000 (MAX_STANDARD_TX_WEIGHT): ".spec_bytes()
                + decimal(weight as nat),
            Error::Commitment => "could not commit to the reveal script".spec_bytes(),
            Error::CommitOutput => "could not find the one commit output of an inscription".spec_bytes(),
            Error::Signing => "could not sign the reveal transaction".spec_bytes(),
            Error::RecoveryKey => "recovery key does not open the commit output".spec_bytes(),
            Error::RecoveryKeyImport => "commit tx recovery key import failed".spec_bytes(),
        }
    }

    /// The bytes of the message that tells a user of the failure.
    pub fn message_bytes(&self) -> (bytes: Vec<u8>)
        ensures
            bytes@ == self.text(),
    {
        let mut out: Vec<u8> = Vec::new();
        match self {
            Error::InvalidFeeRate => {
                push_str(&mut out, "invalid fee rate");
            },
            Error::NoCardinalUtxos => {
                push_str(&mut out, "wallet contains no cardinal utxos");
            },
            Error::SatAlreadyInscribed { satpoint } => {
                push_str(&mut out, "sat at ");
                push_satpoint(&mut out, satpoint);
                push_str(&mut out, " already inscribed");
            },
            Error::UtxoAlreadyInscribed { outpoint, inscription_id, inscribed } => {
                push_str(&mut out, "utxo ");
                push_outpoint(&mut out, outpoint);
                push_str(&mut out, " already inscribed with inscription ");
                push_txid(&mut out, &inscription_id.txid);
                push_str(&mut out, " on sat ");
                push_satpoint(&mut out, inscribed);
            },
            Error::NotInWallet { satpoint } => {
                push_str(&mut out, "outgoing satpoint ");
                push_satpoint(&mut out, satpoint);
                push_str(&mut out, " not in wallet");
            },
            Error::OutOfRange { satpoint, max } => {
                push_str(&mut out, "outgoing satpoint ");
                push_satpoint(&mut out, satpoint);
                push_str(&mut out, " offset higher than maximum ");
                push_decimal(&mut out, *max);
            },
            Error::Dust { output_value, dust_value } => {
                push_str(&mut out, "output value is below dust value: ");
                push_decimal(&mut out, *output_value);
                push_str(&mut out, " < ");
                push_decimal(&mut out, *dust_value);
            },
            Error::InsufficientFunds => {
                push_str(
                    &mut out,
                    "wallet does not contain enough cardinal UTXOs, please add additional funds to wallet.",
                );
            },
            Error::ValueOverflow => {
                push_str(&mut out, "arithmetic overflow calculating value");
            },
            Error::InsufficientToPayFee => {
                push_str(
                    &mut out,
                    "commit transaction output value insufficient to pay transaction fee",
                );
            },
            Error::RevealDust => {
                push_str(&mut out, "commit transaction output would be dust");
            },
            Error::WeightExceeded { weight } => {
                push_str(
                    &mut out,
                    "reveal transaction weight greater than 400000 (MAX_STANDARD_TX_WEIGHT): ",
                );
                push_decimal(&mut out, *weight);
            },
            Error::Commitment => {
                push_str(&mut out, "could not commit to the reveal script");
            },
            Error::CommitOutput => {
                push_str(&mut out, "could not find the one commit output of an inscription");
            },
            Error::Signing => {
                push_str(&mut out, "could not sign the reveal transaction");
            },
            Error::RecoveryKey => {
                push_str(&mut out, "recovery key does not open the commit output");
            },
            Error::RecoveryKeyImport => {
                push_str(&mut out, "commit tx recovery key import failed");
            },
        }
        assert(out@ =~= self.text());
        out
    }

    /// The message that tells a user of the failure.
    pub fn message(&self) -> (message: String)
        ensures
            message@ == decode_utf8(self.text()),
    {
        proof {
            lemma_text_valid(*self);
        }
        string_of(&self.message_bytes())
    }
}

/// Two texts that are valid UTF-8 are valid UTF-8 one after the other.
proof fn lemma_join(a: Seq<u8>, b: Seq<u8>)
    requires
        valid_utf8(a),
        valid_utf8(b),
    ensures
        valid_utf8(a + b),
{
    vstd::utf8::valid_utf8_concat(a, b);
}

/// The bytes of every message are valid UTF-8.
pub proof fn lemma_text_valid(error: Error)
    ensures
        valid_utf8(error.text()),
{
    match error {
        Error::InvalidFeeRate => {
            lemma_str_valid("invalid fee rate");
        },
        Error::NoCardinalUtxos => {
            lemma_str_valid("wallet contains no cardinal utxos");
        },
        Error::SatAlreadyInscribed { satpoint } => {
            lemma_str_valid("sat at ");
            lemma_satpoint_text_valid(satpoint);
            lemma_str_valid(" already inscribed");
            lemma_join("sat at ".spec_bytes(), satpoint_text(satpoint));
            lemma_join(
                "sat at ".spec_bytes() + satpoint_text(satpoint),
                " already inscribed".spec_bytes(),
            );
        },
        Error::UtxoAlreadyInscribed { outpoint, inscription_id, inscribed } => {
            let a = "utxo ".spec_bytes();
            let b = outpoint_text(outpoint);
            let c = " already inscribed with inscription ".spec_bytes();
            let d = txid_text(inscription_id.txid);
            let e = " on sat ".spec_bytes();
            let f = satpoint_text(inscribed);
            lemma_str_valid("utxo ");
            lemma_outpoint_text_valid(outpoint);
            lemma_str_valid(" already inscribed with inscription ");
            crate::text::lemma_hex_valid(inscription_id.txid@.reverse());
            lemma_str_valid(" on sat ");
            lemma_satpoint_text_valid(inscribed);
            lemma_join(a, b);
            lemma_join(a + b, c);
            lemma_join(a + b + c, d);
            lemma_join(a + b + c + d, e);
            lemma_join(a + b + c + d + e, f);
        },
        Error::NotInWallet { satpoint } => {
            lemma_str_valid("outgoing satpoint ");
            lemma_satpoint_text_valid(satpoint);
            lemma_str_valid(" not in wallet");
            lemma_join("outgoing satpoint ".spec_bytes(), satpoint_text(satpoint));
            lemma_join(
                "outgoing satpoint ".spec_bytes() + satpoint_text(satpoint),
                " not in wallet".spec_bytes(),
            );
        },
        Error::OutOfRange { satpoint, max } => {
            let a = "outgoing satpoint ".spec_bytes();
            let b = satpoint_text(satpoint);
            let c = " offset higher than maximum ".spec_bytes();
            lemma_str_valid("outgoing satpoint ");
            lemma_satpoint_text_valid(satpoint);
            lemma_str_valid(" offset higher than maximum ");
            lemma_decimal_valid(max as nat);
            lemma_join(a, b);
            lemma_join(a + b, c);
            lemma_join(a + b + c, decimal(max as nat));
        },
        Error::Dust { output_value, dust_value } => {
            let a = "output value is below dust value: ".spec_bytes();
            let b = decimal(output_value as nat);
            let c = " < ".spec_bytes();
            lemma_str_valid("output value is below dust value: ");
            lemma_decimal_valid(output_value as nat);
            lemma_str_valid(" < ");
            lemma_decimal_valid(dust_value as nat);
            lemma_join(a, b);
            lemma_join(a + b, c);
            lemma_join(a + b + c, decimal(dust_value as nat));
        },
        Error::InsufficientFunds => {
            lemma_str_valid(
                "wallet does not contain enough cardinal UTXOs, please add additional funds to wallet.",
            );
        },
        Error::ValueOverflow => {
            lemma_str_valid("arithmetic overflow calculating value");
        },
        Error::InsufficientToPayFee => {
            lemma_str_valid("commit transaction output value insufficient to pay transaction fee");
        },
        Error::RevealDust => {
            lemma_str_valid("commit transaction output would be dust");
        },
        Error::WeightExceeded { weight } => {
            lemma_str_valid(
                "reveal transaction weight greater than 400000 (MAX_STANDARD_TX_WEIGHT): ",
            );
            lemma_decimal_valid(weight as nat);
            lemma_join(
                "reveal transaction weight greater than 400000 (MAX_STANDARD_TX_WEIGHT): ".spec_bytes(),
                decimal(weight as nat),
            );
        },
        Error::Commitment => {
            lemma_str_valid("could not commit to the reveal script");
        },
        Error::CommitOutput => {
            lemma_str_valid("could not find the one commit output of an inscription");
        },
        Error::Signing => {
            lemma_str_valid("could not sign the reveal transaction");
        },
        Error::RecoveryKey => {
            lemma_str_valid("recovery key does not open the commit output");
        },
        Error::RecoveryKeyImport => {
            lemma_str_valid("commit tx recovery key import failed");
        },
    }
}

} // verus!
