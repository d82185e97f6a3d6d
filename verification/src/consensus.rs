use vstd::prelude::*;
use bitcoin::util::sighash::{Prevouts, SighashCache};
use bitcoin::util::taproot::{LeafVersion, TapLeafHash, TapSighashHash};
use bitcoin::{OutPoint, PackedLockTime, SchnorrSighashType, Script, Sequence, Witness};
use crate::script::p2tr_script_bytes;
use crate::transaction::{
    input_sizes, output_sizes, signed_input_sizes, Transaction, TransactionView, TxOut,
    TxOutView, SCHNORR_SIGNATURE_SIZE,
};

verus! {

/// The most that a transaction may weigh to be relayed as standard.
pub const MAX_STANDARD_TX_WEIGHT: u64 = 400_000;


/// The id of a transaction.
pub uninterp spec fn txid_of(tx: TransactionView) -> [u8; 32];

/// The bytes that encode a transaction on the network.
pub uninterp spec fn raw_transaction_of(tx: TransactionView) -> Seq<u8>;

/// The hash that a Taproot script spend signs: of input `input` of the
/// transaction that `raw` encodes, which spends `prevout` through the leaf
/// `script` of version `leaf_version`, with the sighash type
/// `sighash_type`.
pub uninterp spec fn sighash_of(
    raw: Seq<u8>,
    input: nat,
    prevout: TxOutView,
    script: Seq<u8>,
    leaf_version: u8,
    sighash_type: u8,
) -> Option<[u8; 32]>;

/// The version of a Tapscript leaf.
pub const TAPROOT_LEAF_TAPSCRIPT: u8 = 0xc0;

/// The sighash type that signs all inputs and outputs and adds no byte to
/// the signature.
pub const SIGHASH_DEFAULT: u8 = 0x00;

/// How many bytes the length `n` takes up where it stands before what it
/// counts.
pub open spec fn varint_len(n: nat) -> nat {
    if n < 0xfd {
        1
    } else if n <= 0xffff {
        3
    } else if n <= 0xffff_ffff {
        5
    } else {
        9
    }
}

/// The bytes that the items of a witness of the given lengths take up,
/// each with its length before it.
pub open spec fn items_size(items: Seq<nat>) -> nat
    decreases items.len(),
{
    if items.len() == 0 {
        0
    } else {
        items_size(items.drop_last()) + varint_len(items.last()) + items.last()
    }
}

/// The weight units that inputs add to a transaction: four for each byte
/// of outpoint, sequence number and script with its length, and one for
/// each byte of a witness that is not empty, with the number of its items
/// before them.
pub open spec fn inputs_weight(inputs: Seq<(nat, Seq<nat>)>) -> nat
    decreases inputs.len(),
{
    if inputs.len() == 0 {
        0
    } else {
        let (script, witness) = inputs.last();
        inputs_weight(inputs.drop_last()) + 4 * (40 + varint_len(script) + script) + if witness.len()
            > 0 {
            items_size(witness) + varint_len(witness.len())
        } else {
            0
        }
    }
}

/// How many of the inputs have a witness that is not empty.
pub open spec fn witnesses(inputs: Seq<(nat, Seq<nat>)>) -> nat
    decreases inputs.len(),
{
    if inputs.len() == 0 {
        0
    } else {
        witnesses(inputs.drop_last()) + if inputs.last().1.len() > 0 {
            1nat
        } else {
            0nat
        }
    }
}

/// The bytes that outputs with scripts of the given lengths take up:
/// eight for the value, then the script with its length.
pub open spec fn outputs_size(outputs: Seq<nat>) -> nat
    decreases outputs.len(),
{
    if outputs.len() == 0 {
        0
    } else {
        outputs_size(outputs.drop_last()) + 8 + varint_len(outputs.last()) + outputs.last()
    }
}

/// The weight, in weight units, of a transaction whose inputs have
/// scripts and witness items of the given lengths and whose outputs have
/// scripts of the given lengths. Version, lock time, the two counts and
/// the outputs weigh four units a byte, as the inputs do without their
/// witnesses. Where an input has a witness, two units are added for
/// marker and flag, one for each byte of the witnesses, and one for each
/// input without a witness.
pub open spec fn weight_of_sizes(inputs: Seq<(nat, Seq<nat>)>, outputs: Seq<nat>) -> nat {
    let base = 4 + varint_len(inputs.len()) + varint_len(outputs.len()) + outputs_size(outputs) + 4;
    if witnesses(inputs) == 0 {
        4 * base + inputs_weight(inputs)
    } else {
        (4 * base + inputs_weight(inputs) + inputs.len() - witnesses(inputs) + 2) as nat
    }
}

/// Whether a script can be proven never to be spent: it begins with
/// `OP_RETURN`.
pub open spec fn is_op_return(script: Seq<u8>) -> bool {
    script.len() > 0 && script[0] == 0x6a
}

/// Whether a script is a witness program: a version, `OP_0` or `OP_1` to
/// `OP_16`, and then one push of 2 to 40 bytes, which ends the script.
pub open spec fn is_witness_program(script: Seq<u8>) -> bool {
    &&& 4 <= script.len() <= 42
    &&& (script[0] == 0 || 0x51 <= script[0] <= 0x60)
    &&& 2 <= script[1] <= 40
    &&& script.len() - 2 == script[1]
}

/// The least value that an output locked by the script may carry without
/// counting as dust: at three satoshis for each byte, the bytes of the
/// output and of the input that spends it, of which a witness program
/// needs fewer; nothing for a script that can never be spent.
pub open spec fn dust_value_of(script: Seq<u8>) -> u64 {
    let size = 8 + varint_len(script.len()) + script.len();
    if is_op_return(script) {
        0
    } else if is_witness_program(script) {
        (3 * (32 + 4 + 1 + 26 + 4 + size)) as u64
    } else {
        (3 * (32 + 4 + 1 + 107 + 4 + size)) as u64
    }
}

/// `Transaction::weight` of the same transaction as the outside crate
/// holds it, field for field: the weight as the outside crate reckons it
/// from the number of inputs and outputs, the lengths of their scripts
/// and the lengths of the witness items.
#[verifier::external_body]
pub(crate) fn transaction_weight(tx: &Transaction) -> (weight: u64)
    ensures
        weight == weight_of_sizes(input_sizes(tx@.input), output_sizes(tx@.output)),
{
    let input = tx.input.iter().map(|i| bitcoin::TxIn {
        previous_output: OutPoint::new(bitcoin::hashes::Hash::from_inner(i.previous_output.txid), i.previous_output.vout),
        script_sig: Script::from(i.script_sig.clone()),
        sequence: Sequence(i.sequence),
        witness: Witness::from_vec(i.witness.clone()),
    }).collect();
    let output = tx.output.iter().map(|o| bitcoin::TxOut {
        value: o.value,
        script_pubkey: Script::from(o.script_pubkey.clone()),
    }).collect();
    let tx = bitcoin::Transaction { version: tx.version, lock_time: PackedLockTime(tx.lock_time), input, output };
    tx.weight() as u64
}

/// `Transaction::txid` of the same transaction as the outside crate holds
/// it, field for field: a hash, the same for the same transaction.
#[verifier::external_body]
pub(crate) fn transaction_id(tx: &Transaction) -> (txid: [u8; 32])
    ensures
        txid == txid_of(tx@),
{
    let input = tx.input.iter().map(|i| bitcoin::TxIn {
        previous_output: OutPoint::new(bitcoin::hashes::Hash::from_inner(i.previous_output.txid), i.previous_output.vout),
        script_sig: Script::from(i.script_sig.clone()),
        sequence: Sequence(i.sequence),
        witness: Witness::from_vec(i.witness.clone()),
    }).collect();
    let output = tx.output.iter().map(|o| bitcoin::TxOut {
        value: o.value,
        script_pubkey: Script::from(o.script_pubkey.clone()),
    }).collect();
    let tx = bitcoin::Transaction { version: tx.version, lock_time: PackedLockTime(tx.lock_time), input, output };
    bitcoin::hashes::Hash::into_inner(tx.txid())
}

/// `Script::dust_value`: three times the size of the output and of the
/// input that spends it, as the outside crate reckons it from the script.
#[verifier::external_body]
pub(crate) fn dust_value(script: &Vec<u8>) -> (dust: u64)
    ensures
        dust == dust_value_of(script@),
{
    Script::from(script.clone()).dust_value().to_sat()
}

/// `bitcoin::consensus::serialize` of the same transaction as the outside
/// crate holds it, field for field: the encoding in which the network
/// carries it, the same for the same transaction.
#[verifier::external_body]
pub(crate) fn raw_transaction(tx: &Transaction) -> (raw: Vec<u8>)
    ensures
        raw@ == raw_transaction_of(tx@),
{
    let input = tx.input.iter().map(|i| bitcoin::TxIn {
        previous_output: OutPoint::new(bitcoin::hashes::Hash::from_inner(i.previous_output.txid), i.previous_output.vout),
        script_sig: Script::from(i.script_sig.clone()),
        sequence: Sequence(i.sequence),
        witness: Witness::from_vec(i.witness.clone()),
    }).collect();
    let output = tx.output.iter().map(|o| bitcoin::TxOut {
        value: o.value,
        script_pubkey: Script::from(o.script_pubkey.clone()),
    }).collect();
    let tx = bitcoin::Transaction { version: tx.version, lock_time: PackedLockTime(tx.lock_time), input, output };
    bitcoin::consensus::serialize(&tx)
}

/// `SighashCache::taproot_script_spend_signature_hash` for input `input`
/// of the transaction that `raw` encodes, which spends `prevout`, its one
/// previous output, through the leaf `script` of version `leaf_version`,
/// with the sighash type `sighash_type`: the same hash for the same
/// arguments; `None` where the outside crate refuses the encoding, the
/// version, the type or the input.
#[verifier::external_body]
pub(crate) fn script_spend_sighash(
    raw: &Vec<u8>,
    input: usize,
    prevout: &TxOut,
    script: &Vec<u8>,
    leaf_version: u8,
    sighash_type: u8,
) -> (hash: Option<[u8; 32]>)
    ensures
        hash == sighash_of(raw@, input as nat, prevout@, script@, leaf_version, sighash_type),
{
    let tx: bitcoin::Transaction = bitcoin::consensus::deserialize(raw).ok()?;
    let prevout = bitcoin::TxOut { value: prevout.value, script_pubkey: Script::from(prevout.script_pubkey.clone()) };
    let leaf = TapLeafHash::from_script(&Script::from(script.clone()), LeafVersion::from_consensus(leaf_version).ok()?);
    let kind = SchnorrSighashType::from_consensus_u8(sighash_type).ok()?;
    SighashCache::new(&tx)
        .taproot_script_spend_signature_hash(input, &Prevouts::All(&[prevout]), leaf, kind)
        .ok()
        .map(|hash: TapSighashHash| bitcoin::hashes::Hash::into_inner(hash))
}

/// The sizes of `n` inputs without script and without witness.
pub open spec fn unsigned_input_sizes(n: nat) -> Seq<(nat, Seq<nat>)> {
    Seq::new(n, |i: int| (0nat, Seq::<nat>::empty()))
}

/// What `n` inputs weigh without and with a witness of one Schnorr
/// signature.
proof fn lemma_inputs_weight(n: nat)
    ensures
        inputs_weight(unsigned_input_sizes(n)) == 164 * n,
        witnesses(unsigned_input_sizes(n)) == 0,
        inputs_weight(signed_input_sizes(n)) == 230 * n,
        witnesses(signed_input_sizes(n)) == n,
    decreases n,
{
    if n > 0 {
        lemma_inputs_weight((n - 1) as nat);
        assert(unsigned_input_sizes(n).drop_last() =~= unsigned_input_sizes((n - 1) as nat));
        assert(signed_input_sizes(n).drop_last() =~= signed_input_sizes((n - 1) as nat));
        let witness = seq![SCHNORR_SIGNATURE_SIZE as nat];
        assert(signed_input_sizes(n).last() == (0nat, witness));
        assert(witness.drop_last() =~= Seq::<nat>::empty());
        assert(items_size(witness) == 65) by {
            reveal_with_fuel(items_size, 2);
        }
    }
}

/// Signing adds 66 weight units for each input, and two for all: a
/// transaction whose inputs each carry a witness of one Schnorr signature
/// weighs that much more than the same transaction without witnesses, so
/// a transaction of one input grows by 68 weight units, which are 17
/// virtual bytes.
pub proof fn lemma_signing_adds_weight(n: nat, outputs: Seq<nat>)
    requires
        n >= 1,
    ensures
        weight_of_sizes(signed_input_sizes(n), outputs) == weight_of_sizes(
            unsigned_input_sizes(n),
            outputs,
        ) + 2 + 66 * n,
{
    lemma_inputs_weight(n);
}

/// An output that pays to a Taproot output key is dust below 330
/// satoshis.
pub proof fn lemma_p2tr_dust(key: Seq<u8>)
    requires
        key.len() == 32,
    ensures
        dust_value_of(p2tr_script_bytes(key)) == 330,
{
    let script = p2tr_script_bytes(key);
    assert(script.len() == 34);
    assert(script[0] == 0x51);
    assert(script[1] == 32);
}

/// The weight of a transaction as it stands.
pub open spec fn weight_of(tx: TransactionView) -> nat {
    weight_of_sizes(input_sizes(tx.input), output_sizes(tx.output))
}

impl Transaction {
    /// The weight of the transaction, in weight units.
    pub fn weight(&self) -> (weight: u64)
        ensures
            weight == weight_of(self@),
    {
        transaction_weight(self)
    }

    /// The id of the transaction.
    pub fn txid(&self) -> (txid: [u8; 32])
        ensures
            txid == txid_of(self@),
    {
        transaction_id(self)
    }

    /// The bytes that encode the transaction on the network.
    pub fn serialize(&self) -> (raw: Vec<u8>)
        ensures
            raw@ == raw_transaction_of(self@),
    {
        raw_transaction(self)
    }

    /// Whether an input of the transaction opts in to replacement by fee.
    pub fn is_explicitly_rbf(&self) -> (r: bool)
        ensures
            r == exists|i: int|
                0 <= i < self@.input.len() && (#[trigger] self@.input[i]).sequence < 0xFFFF_FFFE,
    {
        let mut i: usize = 0;
        while i < self.input.len()
            invariant
                i <= self.input@.len(),
                forall|k: int| 0 <= k < i ==> (#[trigger] self@.input[k]).sequence >= 0xFFFF_FFFE,
            decreases self.input@.len() - i,
        {
            if self.input[i].sequence < 0xFFFF_FFFE {
                assert(self@.input[i as int].sequence < 0xFFFF_FFFE);
                return true;
            }
            assert(self@.input[i as int].sequence >= 0xFFFF_FFFE);
            i += 1;
        }
        false
    }
}

} // verus!
