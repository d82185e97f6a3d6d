use vstd::prelude::*;
use crate::outpoint::OutPoint;

verus! {

/// The sequence number that opts in to replacement by fee and sets no
/// relative lock time.
pub const ENABLE_RBF_NO_LOCKTIME: u32 = 0xFFFF_FFFD;

/// The length of a Schnorr signature, in bytes.
pub const SCHNORR_SIGNATURE_SIZE: usize = 64;

/// An output: satoshis locked by a script.
#[derive(Clone, Debug, PartialEq, Eq)]
pub struct TxOut {
    pub value: u64,
    pub script_pubkey: Vec<u8>,
}

/// An input: the output it spends and what unlocks it.
#[derive(Clone, Debug, PartialEq, Eq)]
pub struct TxIn {
    pub previous_output: OutPoint,
    pub script_sig: Vec<u8>,
    pub sequence: u32,
    pub witness: Vec<Vec<u8>>,
}

/// A transaction.
#[derive(Clone, Debug, PartialEq, Eq)]
pub struct Transaction {
    pub version: i32,
    pub lock_time: u32,
    pub input: Vec<TxIn>,
    pub output: Vec<TxOut>,
}

/// An output, with its script as a byte string.
pub ghost struct TxOutView {
    pub value: u64,
    pub script_pubkey: Seq<u8>,
}

/// An input, with its script and its witness as byte strings.
pub ghost struct TxInView {
    pub previous_output: OutPoint,
    pub script_sig: Seq<u8>,
    pub sequence: u32,
    pub witness: Seq<Seq<u8>>,
}

/// A transaction, with its inputs and outputs as sequences.
pub ghost struct TransactionView {
    pub version: i32,
    pub lock_time: u32,
    pub input: Seq<TxInView>,
    pub output: Seq<TxOutView>,
}

impl View for TxOut {
    type V = TxOutView;

    open spec fn view(&self) -> TxOutView {
        TxOutView { value: self.value, script_pubkey: self.script_pubkey@ }
    }
}

/// The items of a witness as byte strings.
pub open spec fn witness_view(witness: Seq<Vec<u8>>) -> Seq<Seq<u8>> {
    Seq::new(witness.len(), |i: int| witness[i]@)
}

impl View for TxIn {
    type V = TxInView;

    open spec fn view(&self) -> TxInView {
        TxInView {
            previous_output: self.previous_output,
            script_sig: self.script_sig@,
            sequence: self.sequence,
            witness: witness_view(self.witness@),
        }
    }
}

/// The views of a sequence of inputs.
pub open spec fn inputs_view(input: Seq<TxIn>) -> Seq<TxInView> {
    Seq::new(input.len(), |i: int| input[i]@)
}

/// The views of a sequence of outputs.
pub open spec fn outputs_view(output: Seq<TxOut>) -> Seq<TxOutView> {
    Seq::new(output.len(), |i: int| output[i]@)
}

impl View for Transaction {
    type V = TransactionView;

    open spec fn view(&self) -> TransactionView {
        TransactionView {
            version: self.version,
            lock_time: self.lock_time,
            input: inputs_view(self.input@),
            output: outputs_view(self.output@),
        }
    }
}

/// The sum of the values of some outputs.
pub open spec fn total_value(outputs: Seq<TxOutView>) -> nat
    decreases outputs.len(),
{
    if outputs.len() == 0 {
        0
    } else {
        total_value(outputs.drop_last()) + outputs.last().value as nat
    }
}

/// Whether every input of the transaction opts in to replacement by fee.
pub open spec fn signals_rbf(tx: TransactionView) -> bool {
    forall|i: int| 0 <= i < tx.input.len() ==> (#[trigger] tx.input[i]).sequence < 0xFFFF_FFFE
}

/// What the size of an input depends on: the length of its script and the
/// lengths of the items of its witness.
pub open spec fn input_sizes(input: Seq<TxInView>) -> Seq<(nat, Seq<nat>)> {
    Seq::new(
        input.len(),
        |i: int| (input[i].script_sig.len(), Seq::new(input[i].witness.len(), |k: int| input[i].witness[k].len())),
    )
}

/// What the size of an output depends on: the length of its script.
pub open spec fn output_sizes(output: Seq<TxOutView>) -> Seq<nat> {
    Seq::new(output.len(), |i: int| output[i].script_pubkey.len())
}

/// The sizes of the inputs of a transaction once each of them carries a
/// witness of one Schnorr signature, as a Taproot key spend does.
pub open spec fn signed_input_sizes(inputs: nat) -> Seq<(nat, Seq<nat>)> {
    Seq::new(inputs, |i: int| (0nat, seq![SCHNORR_SIGNATURE_SIZE as nat]))
}

/// The sum of the values of the outputs: `None` where it does not fit in
/// 64 bits.
pub fn sum_outputs(outputs: &Vec<TxOut>) -> (sum: Option<u64>)
    ensures
        match sum {
            Some(sum) => sum == total_value(outputs_view(outputs@)),
            None => total_value(outputs_view(outputs@)) > u64::MAX,
        },
{
    let ghost all = outputs_view(outputs@);
    let mut sum: u64 = 0;
    let mut i: usize = 0;
    assert(all.take(0) =~= Seq::<TxOutView>::empty());
    while i < outputs.len()
        invariant
            i <= outputs@.len(),
            all == outputs_view(outputs@),
            sum == total_value(all.take(i as int)),
        decreases outputs@.len() - i,
    {
        proof {
            assert(all.take(i + 1).drop_last() =~= all.take(i as int));
            assert(all.take(i + 1).last() == outputs@[i as int]@);
        }
        if outputs[i].value > u64::MAX - sum {
            proof {
                lemma_total_value_grows(all, i + 1);
            }
            return None;
        }
        sum = sum + outputs[i].value;
        i += 1;
    }
    assert(all.take(i as int) =~= all);
    Some(sum)
}

/// The outputs up to a place are worth no more than all of them.
pub proof fn lemma_total_value_grows(outputs: Seq<TxOutView>, n: int)
    requires
        0 <= n <= outputs.len(),
    ensures
        total_value(outputs.take(n)) <= total_value(outputs),
    decreases outputs.len() - n,
{
    if n == outputs.len() {
        assert(outputs.take(n) =~= outputs);
    } else {
        lemma_total_value_grows(outputs, n + 1);
        assert(outputs.take(n + 1).drop_last() =~= outputs.take(n));
    }
}

} // verus!
