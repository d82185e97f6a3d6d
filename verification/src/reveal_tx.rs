use vstd::prelude::*;
use crate::bytes::{copy_bytes, same_bytes, zeros};
use crate::commitment::{Commitment, CommitmentView};
use crate::consensus::{
    dust_value, dust_value_of, raw_transaction, raw_transaction_of, script_spend_sighash,
    sighash_of, transaction_id, transaction_weight, txid_of, weight_of, weight_of_sizes,
    MAX_STANDARD_TX_WEIGHT, SIGHASH_DEFAULT, TAPROOT_LEAF_TAPSCRIPT,
};
use crate::error::Error;
use crate::fee_rate::FeeRate;
use crate::keys::{
    public_key_of, schnorr_verifies, sign_schnorr, tap_tweak, tap_tweak_of, verify_schnorr,
    x_only_public_key,
};
use crate::outpoint::OutPoint;
use crate::script::{p2tr_script, p2tr_script_bytes};
use crate::transaction::{
    input_sizes, output_sizes, outputs_view, witness_view, Transaction, TransactionView, TxIn,
    TxInView, TxOut, TxOutView, ENABLE_RBF_NO_LOCKTIME, SCHNORR_SIGNATURE_SIZE,
};

verus! {

/// An input that spends `previous_output` and is not yet signed: no
/// script, no witness, open to replacement by fee.
pub open spec fn unsigned_input(previous_output: OutPoint) -> TxInView {
    TxInView {
        previous_output,
        script_sig: Seq::empty(),
        sequence: ENABLE_RBF_NO_LOCKTIME,
        witness: Seq::empty(),
    }
}

/// The reveal transaction before it is signed: version 1, no lock time,
/// the one input, the one output.
pub open spec fn reveal_template(input: OutPoint, output: TxOutView) -> TransactionView {
    TransactionView {
        version: 1,
        lock_time: 0,
        input: seq![unsigned_input(input)],
        output: seq![output],
    }
}

/// The weight of a reveal transaction whose output script, reveal script
/// and control block have the given lengths: its one input carries a
/// witness of a Schnorr signature, the reveal script and the control block.
pub open spec fn reveal_weight(destination: nat, script: nat, control_block: nat) -> nat {
    weight_of_sizes(
        seq![(0nat, seq![SCHNORR_SIGNATURE_SIZE as nat, script, control_block])],
        seq![destination],
    )
}

/// An unsigned input that spends `previous_output`.
pub fn new_input(previous_output: OutPoint) -> (input: TxIn)
    ensures
        input@ == unsigned_input(previous_output),
{
    let input = TxIn {
        previous_output,
        script_sig: Vec::new(),
        sequence: ENABLE_RBF_NO_LOCKTIME,
        witness: Vec::new(),
    };
    assert(input@.witness =~= Seq::<Seq<u8>>::empty());
    input
}

/// The reveal transaction that spends `input` into `output`, still without
/// its witness, and the fee that it owes at `fee_rate` once it carries the
/// witness of a signature, `script` and `control_block`.
pub fn build_reveal_transaction(
    control_block: &Vec<u8>,
    fee_rate: FeeRate,
    input: OutPoint,
    output: TxOut,
    script: &Vec<u8>,
) -> (r: (Transaction, u64))
    ensures
        r.0@ == reveal_template(input, output@),
        reveal_weight(output@.script_pubkey.len(), script@.len(), control_block@.len())
            <= u64::MAX,
        r.1 == fee_rate.spec_fee(
            reveal_weight(output@.script_pubkey.len(), script@.len(), control_block@.len()) as u64,
        ),
{
    let mut witness: Vec<Vec<u8>> = Vec::new();
    witness.push(zeros(SCHNORR_SIGNATURE_SIZE));
    witness.push(copy_bytes(script));
    witness.push(copy_bytes(control_block));
    let signed = TxIn {
        previous_output: input,
        script_sig: Vec::new(),
        sequence: ENABLE_RBF_NO_LOCKTIME,
        witness,
    };
    let mut signed_inputs: Vec<TxIn> = Vec::new();
    signed_inputs.push(signed);
    let mut outputs: Vec<TxOut> = Vec::new();
    outputs.push(TxOut { value: output.value, script_pubkey: copy_bytes(&output.script_pubkey) });
    let estimate = Transaction { version: 1, lock_time: 0, input: signed_inputs, output: outputs };
    let weight = transaction_weight(&estimate);
    proof {
        assert(input_sizes(estimate@.input) =~= seq![
            (0nat, seq![SCHNORR_SIGNATURE_SIZE as nat, script@.len(), control_block@.len()]),
        ]) by {
            let sizes = input_sizes(estimate@.input);
            assert(sizes.len() == 1);
            assert(sizes[0].1 =~= seq![
                SCHNORR_SIGNATURE_SIZE as nat,
                script@.len(),
                control_block@.len(),
            ]);
        }
        assert(output_sizes(estimate@.output) =~= seq![output@.script_pubkey.len()]);
    }
    let fee = fee_rate.fee(weight);
    let mut inputs: Vec<TxIn> = Vec::new();
    inputs.push(new_input(input));
    let mut outputs: Vec<TxOut> = Vec::new();
    outputs.push(output);
    let reveal = Transaction { version: 1, lock_time: 0, input: inputs, output: outputs };
    proof {
        assert(reveal@.input =~= seq![unsigned_input(input)]);
        assert(reveal@.output =~= seq![output@]);
    }
    (reveal, fee)
}

/// The fee that the reveal transaction of a commitment owes at `rate`
/// when it pays to `destination`.
pub open spec fn reveal_fee(commitment: CommitmentView, destination: Seq<u8>, rate: FeeRate) -> u64 {
    rate.spec_fee(
        reveal_weight(
            destination.len(),
            commitment.reveal_script.len(),
            commitment.spend.control_block.len(),
        ) as u64,
    )
}

/// Whether the output at place `i` is the one output that pays to the
/// script.
pub open spec fn pays_once(outputs: Seq<TxOutView>, script: Seq<u8>, i: int) -> bool {
    &&& 0 <= i < outputs.len()
    &&& outputs[i].script_pubkey == script
    &&& forall|j: int|
        0 <= j < outputs.len() && j != i ==> (#[trigger] outputs[j]).script_pubkey != script
}

/// The place of the one output that pays to the script; `None` where no
/// output or more than one pays to it.
pub fn unique_output(outputs: &Vec<TxOut>, script: &Vec<u8>) -> (r: Option<usize>)
    ensures
        match r {
            Some(i) => pays_once(outputs_view(outputs@), script@, i as int),
            None => forall|i: int| !pays_once(outputs_view(outputs@), script@, i),
        },
{
    let ghost view = outputs_view(outputs@);
    let mut found: Option<usize> = None;
    let mut i: usize = 0;
    while i < outputs.len()
        invariant
            i <= outputs@.len(),
            view == outputs_view(outputs@),
            match found {
                Some(k) => k < i && view[k as int].script_pubkey == script@ && forall|j: int|
                    0 <= j < i && j != k ==> (#[trigger] view[j]).script_pubkey != script@,
                None => forall|j: int| 0 <= j < i ==> (#[trigger] view[j]).script_pubkey != script@,
            },
        decreases outputs@.len() - i,
    {
        if same_bytes(&outputs[i].script_pubkey, script) {
            assert(view[i as int].script_pubkey == script@);
            match found {
                Some(k) => {
                    assert forall|n: int| !pays_once(view, script@, n) by {
                        if pays_once(view, script@, n) {
                            if n == k as int {
                                assert(view[i as int].script_pubkey != script@);
                            } else {
                                assert(view[k as int].script_pubkey != script@);
                            }
                        }
                    }
                    return None;
                },
                None => {
                    found = Some(i);
                },
            }
        } else {
            assert(view[i as int].script_pubkey != script@);
        }
        i += 1;
    }
    found
}

/// What is left on the reveal output once the reveal transaction has paid
/// its fee out of the commit output: nothing can be left where the fee
/// exceeds the commit output, and what is left must not be dust.
pub fn reveal_value(commit_value: u64, fee: u64, dust: u64) -> (r: Result<u64, Error>)
    ensures
        r == if commit_value < fee {
            Err::<u64, Error>(Error::InsufficientToPayFee)
        } else if commit_value - fee < dust {
            Err(Error::RevealDust)
        } else {
            Ok((commit_value - fee) as u64)
        },
{
    if commit_value < fee {
        return Err(Error::InsufficientToPayFee);
    }
    let value: u64 = commit_value - fee;
    if value < dust {
        return Err(Error::RevealDust);
    }
    Ok(value)
}

/// Refuses a reveal transaction that weighs more than a standard
/// transaction may, unless no limit is asked for.
pub fn check_weight(weight: u64, no_limit: bool) -> (r: Result<(), Error>)
    ensures
        r == if !no_limit && weight > MAX_STANDARD_TX_WEIGHT {
            Err::<(), Error>(Error::WeightExceeded { weight })
        } else {
            Ok(())
        },
{
    if !no_limit && weight > MAX_STANDARD_TX_WEIGHT {
        Err(Error::WeightExceeded { weight })
    } else {
        Ok(())
    }
}

/// Whether `tx` reveals the commitment by spending output `vout` of
/// `commit` to `destination`, and `recovery_key` is the key that can spend
/// that output without the script.
///
/// The transaction has the one input, which spends the commit output and
/// opts in to replacement by fee, with a witness of a signature, the
/// reveal script and the control block; and the one output, which carries
/// what the commit output holds less the fee at `rate` for the
/// transaction's own weight, and is not dust. The signature is one that
/// the commitment's public key verifies for the Taproot script-spend hash
/// of the transaction. Unless `no_limit` is set the
/// transaction weighs no more than a standard transaction may. The
/// recovery key is the secret key tweaked for the Taproot output, and the
/// script that pays to its public key is the commit script.
pub open spec fn reveals(
    tx: TransactionView,
    recovery_key: [u8; 32],
    commit: TransactionView,
    vout: int,
    commitment: CommitmentView,
    destination: Seq<u8>,
    rate: FeeRate,
    no_limit: bool,
) -> bool {
    &&& tx.version == 1
    &&& tx.lock_time == 0
    &&& tx.input.len() == 1
    &&& tx.output.len() == 1
    &&& 0 <= vout < commit.output.len()
    &&& vout <= u32::MAX
    &&& tx.input[0].previous_output == (OutPoint { txid: txid_of(commit), vout: vout as u32 })
    &&& tx.input[0].script_sig == Seq::<u8>::empty()
    &&& tx.input[0].sequence == ENABLE_RBF_NO_LOCKTIME
    &&& tx.input[0].witness.len() == 3
    &&& tx.input[0].witness[0].len() == SCHNORR_SIGNATURE_SIZE
    &&& tx.input[0].witness[1] == commitment.reveal_script
    &&& tx.input[0].witness[2] == commitment.spend.control_block
    &&& signs(
        tx.input[0].witness[0],
        reveal_sighash_of(
            tx.input[0].previous_output,
            tx.output[0].value,
            destination,
            commit.output[vout],
            commitment.reveal_script,
        ),
        commitment.public_key,
    )
    &&& public_key_of(commitment.secret_key) is Some
    &&& tx.output[0].script_pubkey == destination
    &&& commit.output[vout].value == tx.output[0].value + reveal_fee(commitment, destination, rate)
    &&& weight_of(tx) == reveal_weight(
        destination.len(),
        commitment.reveal_script.len(),
        commitment.spend.control_block.len(),
    )
    &&& weight_of(tx) <= u64::MAX
    &&& tx.output[0].value >= dust_value_of(destination)
    &&& !no_limit ==> weight_of(tx) <= MAX_STANDARD_TX_WEIGHT
    &&& tap_tweak_of(commitment.secret_key, commitment.spend.merkle_root) == Some(recovery_key)
    &&& match public_key_of(recovery_key) {
        Some(public_key) => p2tr_script_bytes(public_key@) == commitment.commit_script,
        None => false,
    }
}

/// Whether `tx` reveals the commitment by spending the one output of
/// `commit` that pays to the commit script.
pub open spec fn is_reveal(
    tx: TransactionView,
    recovery_key: [u8; 32],
    commit: TransactionView,
    commitment: CommitmentView,
    destination: Seq<u8>,
    rate: FeeRate,
    no_limit: bool,
) -> bool {
    exists|vout: int|
        #![trigger pays_once(commit.output, commitment.commit_script, vout)]
        pays_once(commit.output, commitment.commit_script, vout) && reveals(
            tx,
            recovery_key,
            commit,
            vout,
            commitment,
            destination,
            rate,
            no_limit,
        )
}

/// Why a reveal is refused before anything is signed: the commit
/// transaction does not hold the one output to spend, the output cannot
/// pay the fee, or too little would be left.
pub open spec fn reveal_refusal(
    commit: TransactionView,
    commitment: CommitmentView,
    destination: Seq<u8>,
    rate: FeeRate,
) -> Option<Error> {
    if exists|vout: int| pays_once(commit.output, commitment.commit_script, vout) {
        let vout = choose|vout: int| pays_once(commit.output, commitment.commit_script, vout);
        let value = commit.output[vout].value;
        let fee = reveal_fee(commitment, destination, rate);
        if vout > u32::MAX {
            Some(Error::CommitOutput)
        } else if value < fee {
            Some(Error::InsufficientToPayFee)
        } else if value - fee < dust_value_of(destination) {
            Some(Error::RevealDust)
        } else {
            None
        }
    } else {
        Some(Error::CommitOutput)
    }
}

/// The recovery key of a commitment: its secret key tweaked for its
/// Taproot output, if the script that pays to the public key of the
/// tweaked key is the commit script.
pub open spec fn recovery_key_of(commitment: CommitmentView) -> Option<[u8; 32]> {
    match tap_tweak_of(commitment.secret_key, commitment.spend.merkle_root) {
        Some(recovery_key) => match public_key_of(recovery_key) {
            Some(public_key) => if p2tr_script_bytes(public_key@) == commitment.commit_script {
                Some(recovery_key)
            } else {
                None
            },
            None => None,
        },
        None => None,
    }
}

/// Why a reveal is refused once it is signed: no recovery key opens the
/// commit output, or the transaction weighs more than a standard
/// transaction may and a limit is asked for.
pub open spec fn late_refusal(
    commitment: CommitmentView,
    destination: Seq<u8>,
    no_limit: bool,
) -> Option<Error> {
    let weight = reveal_weight(
        destination.len(),
        commitment.reveal_script.len(),
        commitment.spend.control_block.len(),
    );
    if recovery_key_of(commitment) is None {
        Some(Error::RecoveryKey)
    } else if !no_limit && weight > MAX_STANDARD_TX_WEIGHT {
        Some(Error::WeightExceeded { weight: weight as u64 })
    } else {
        None
    }
}

/// A byte string with the bytes of a signature.
fn signature_bytes(signature: &[u8; 64]) -> (bytes: Vec<u8>)
    ensures
        bytes@ == signature@,
{
    let mut bytes: Vec<u8> = Vec::new();
    let mut i: usize = 0;
    while i < 64
        invariant
            i <= 64,
            bytes@ == signature@.take(i as int),
        decreases 64 - i,
    {
        bytes.push(signature[i]);
        assert(bytes@ =~= signature@.take(i + 1));
        i += 1;
    }
    assert(bytes@ =~= signature@);
    bytes
}

/// The transaction with one input that spends `previous_output` with the
/// witness, and one output that pays `value` to `destination`.
fn reveal_transaction(
    previous_output: OutPoint,
    witness: Vec<Vec<u8>>,
    value: u64,
    destination: &Vec<u8>,
) -> (tx: Transaction)
    ensures
        tx@.version == 1,
        tx@.lock_time == 0,
        tx@.input.len() == 1,
        tx@.input[0] == (TxInView {
            previous_output,
            script_sig: Seq::empty(),
            sequence: ENABLE_RBF_NO_LOCKTIME,
            witness: witness_view(witness@),
        }),
        tx@.output == seq![TxOutView { value, script_pubkey: destination@ }],
{
    let mut input: Vec<TxIn> = Vec::new();
    input.push(
        TxIn { previous_output, script_sig: Vec::new(), sequence: ENABLE_RBF_NO_LOCKTIME, witness },
    );
    let mut output: Vec<TxOut> = Vec::new();
    output.push(TxOut { value, script_pubkey: copy_bytes(destination) });
    let tx = Transaction { version: 1, lock_time: 0, input, output };
    assert(tx@.output =~= seq![TxOutView { value, script_pubkey: destination@ }]);
    tx
}

/// The hash that a reveal transaction signs: the Taproot script-spend
/// hash of its first input, with the default sighash type, where the
/// transaction, still without a witness, spends `previous_output` and
/// pays `value` to `destination`, `spent` is the commit output that it
/// spends, and `script` is the reveal script, a Tapscript leaf.
pub open spec fn reveal_sighash_of(
    previous_output: OutPoint,
    value: u64,
    destination: Seq<u8>,
    spent: TxOutView,
    script: Seq<u8>,
) -> Option<[u8; 32]> {
    sighash_of(
        raw_transaction_of(
            reveal_template(previous_output, TxOutView { value, script_pubkey: destination }),
        ),
        0,
        spent,
        script,
        TAPROOT_LEAF_TAPSCRIPT,
        SIGHASH_DEFAULT,
    )
}

/// Whether `signature` is a signature of the hash, if there is one, that
/// the public key verifies.
pub open spec fn signs(signature: Seq<u8>, hash: Option<[u8; 32]>, public_key: [u8; 32]) -> bool {
    match hash {
        Some(hash) => schnorr_verifies(signature, hash, public_key),
        None => false,
    }
}

/// The hash that the reveal transaction of a commitment signs once it is
/// prepared.
pub open spec fn signing_hash(
    commit: TransactionView,
    commitment: CommitmentView,
    destination: Seq<u8>,
    rate: FeeRate,
) -> Option<[u8; 32]> {
    let (previous_output, value) = prepared(commit, commitment, destination, rate);
    reveal_sighash_of(
        previous_output,
        value,
        destination,
        commit.output[previous_output.vout as int],
        commitment.reveal_script,
    )
}

/// Whether the prepared reveal transaction of a commitment may fail to be
/// signed: there is no hash to sign, the commitment's secret key is no
/// key, or 64 bytes exist that its public key does not verify as a
/// signature of the hash.
pub open spec fn unsignable(
    commit: TransactionView,
    commitment: CommitmentView,
    destination: Seq<u8>,
    rate: FeeRate,
) -> bool {
    match signing_hash(commit, commitment, destination, rate) {
        None => true,
        Some(hash) => public_key_of(commitment.secret_key) is None || exists|signature: Seq<u8>|
            signature.len() == 64 && !#[trigger] schnorr_verifies(
                signature,
                hash,
                commitment.public_key,
            ),
    }
}

/// The hash that a reveal transaction signs; `None` where there is none.
pub fn reveal_sighash(
    previous_output: OutPoint,
    value: u64,
    destination: &Vec<u8>,
    spent: &TxOut,
    script: &Vec<u8>,
) -> (hash: Option<[u8; 32]>)
    ensures
        hash == reveal_sighash_of(previous_output, value, destination@, spent@, script@),
{
    let unsigned = reveal_transaction(previous_output, Vec::new(), value, destination);
    proof {
        assert(unsigned@.input[0].witness =~= Seq::<Seq<u8>>::empty());
        assert(unsigned@.input =~= seq![unsigned_input(previous_output)]);
        assert(unsigned@ == reveal_template(
            previous_output,
            TxOutView { value, script_pubkey: destination@ },
        ));
    }
    let raw = raw_transaction(&unsigned);
    script_spend_sighash(&raw, 0, spent, script, TAPROOT_LEAF_TAPSCRIPT, SIGHASH_DEFAULT)
}

/// The commit output that the reveal transaction of a commitment
/// spends, and what is left of its value after the fee.
pub open spec fn prepared(
    commit: TransactionView,
    commitment: CommitmentView,
    destination: Seq<u8>,
    rate: FeeRate,
) -> (OutPoint, u64) {
    let vout = choose|vout: int| pays_once(commit.output, commitment.commit_script, vout);
    (
        OutPoint { txid: txid_of(commit), vout: vout as u32 },
        (commit.output[vout].value - reveal_fee(commitment, destination, rate)) as u64,
    )
}

/// The reveal transaction of a commitment that spends `previous_output`,
/// pays `value` to `destination` and is signed with `signature`.
pub open spec fn signed_reveal(
    previous_output: OutPoint,
    value: u64,
    destination: Seq<u8>,
    commitment: CommitmentView,
    signature: Seq<u8>,
) -> TransactionView {
    TransactionView {
        version: 1,
        lock_time: 0,
        input: seq![
            TxInView {
                previous_output,
                script_sig: Seq::empty(),
                sequence: ENABLE_RBF_NO_LOCKTIME,
                witness: seq![
                    signature,
                    commitment.reveal_script,
                    commitment.spend.control_block,
                ],
            },
        ],
        output: seq![TxOutView { value, script_pubkey: destination }],
    }
}

/// Finds the commit output that the reveal transaction of a commitment
/// spends, the one output of `commit` that pays to the commit script, and
/// what is left of its value once the reveal transaction has paid its
/// fee at `rate`.
pub fn prepare_reveal(
    commit: &Transaction,
    commitment: &Commitment,
    destination: &Vec<u8>,
    rate: FeeRate,
) -> (r: Result<(OutPoint, u64), Error>)
    ensures
        r == match reveal_refusal(commit@, commitment@, destination@, rate) {
            Some(error) => Err::<(OutPoint, u64), Error>(error),
            None => Ok(prepared(commit@, commitment@, destination@, rate)),
        },
        r matches Ok((previous_output, value)) ==> pays_once(
            commit@.output,
            commitment.commit_script@,
            previous_output.vout as int,
        ) && previous_output.txid == txid_of(commit@) && commit@.output[previous_output.vout as int].value
            == value + reveal_fee(commitment@, destination@, rate) && value >= dust_value_of(
            destination@,
        ),
        r is Ok ==> reveal_weight(
            destination@.len(),
            commitment.reveal_script@.len(),
            commitment.spend.control_block@.len(),
        ) <= u64::MAX,
{
    let vout: usize = match unique_output(&commit.output, &commitment.commit_script) {
        Some(vout) => vout,
        None => {
            return Err(Error::CommitOutput);
        },
    };
    proof {
        let chosen = choose|n: int| pays_once(commit@.output, commitment.commit_script@, n);
        assert(pays_once(commit@.output, commitment.commit_script@, vout as int));
        assert(chosen == vout);
    }
    if vout > u32::MAX as usize {
        return Err(Error::CommitOutput);
    }
    let commit_value: u64 = commit.output[vout].value;
    assert(commit@.output[vout as int].value == commit_value);
    let previous_output = OutPoint { txid: transaction_id(commit), vout: vout as u32 };
    let (_, fee) = build_reveal_transaction(
        &commitment.spend.control_block,
        rate,
        previous_output,
        TxOut { value: commit_value, script_pubkey: copy_bytes(destination) },
        &commitment.reveal_script,
    );
    match reveal_value(commit_value, fee, dust_value(destination)) {
        Ok(value) => Ok((previous_output, value)),
        Err(error) => Err(error),
    }
}

/// Puts the signature into the reveal transaction of a commitment and
/// derives the recovery key. The transaction is refused where the
/// commitment's public key does not verify the signature for `hash`,
/// where the recovery key does not open the commit output, or where the
/// transaction weighs more than a standard transaction may and a limit is
/// asked for.
pub fn seal_reveal(
    previous_output: OutPoint,
    value: u64,
    destination: &Vec<u8>,
    commitment: &Commitment,
    no_limit: bool,
    hash: &[u8; 32],
    signature: &[u8; 64],
) -> (r: Result<(Transaction, [u8; 32]), Error>)
    ensures
        !schnorr_verifies(signature@, *hash, commitment.public_key) ==> r == Err::<
            (Transaction, [u8; 32]),
            Error,
        >(Error::Signing),
        schnorr_verifies(signature@, *hash, commitment.public_key) ==> match late_refusal(
            commitment@,
            destination@,
            no_limit,
        ) {
            Some(error) => r == Err::<(Transaction, [u8; 32]), Error>(error),
            None => r is Ok && r->Ok_0.0@ == signed_reveal(
                previous_output,
                value,
                destination@,
                commitment@,
                signature@,
            ) && recovery_key_of(commitment@) == Some(r->Ok_0.1),
        },
        weight_of(signed_reveal(previous_output, value, destination@, commitment@, signature@))
            == reveal_weight(
            destination@.len(),
            commitment.reveal_script@.len(),
            commitment.spend.control_block@.len(),
        ),
        reveal_weight(
            destination@.len(),
            commitment.reveal_script@.len(),
            commitment.spend.control_block@.len(),
        ) <= u64::MAX,
{
    let valid: bool = verify_schnorr(signature, hash, &commitment.public_key);
    let mut witness: Vec<Vec<u8>> = Vec::new();
    witness.push(signature_bytes(signature));
    witness.push(copy_bytes(&commitment.reveal_script));
    witness.push(copy_bytes(&commitment.spend.control_block));
    let tx = reveal_transaction(previous_output, witness, value, destination);
    let weight: u64 = transaction_weight(&tx);
    proof {
        let signed = signed_reveal(previous_output, value, destination@, commitment@, signature@);
        assert(tx@.input[0].witness =~= signed.input[0].witness);
        assert(tx@.input =~= signed.input);
        assert(tx@ == signed);
        let sizes = input_sizes(tx@.input);
        assert(sizes[0].1 =~= seq![
            SCHNORR_SIGNATURE_SIZE as nat,
            commitment.reveal_script@.len(),
            commitment.spend.control_block@.len(),
        ]);
        assert(sizes =~= seq![
            (
                0nat,
                seq![
                    SCHNORR_SIGNATURE_SIZE as nat,
                    commitment.reveal_script@.len(),
                    commitment.spend.control_block@.len(),
                ],
            ),
        ]);
        assert(output_sizes(tx@.output) =~= seq![destination@.len()]);
    }
    if !valid {
        return Err(Error::Signing);
    }
    let recovery_key = match tap_tweak(&commitment.secret_key, commitment.spend.merkle_root) {
        Some(recovery_key) => recovery_key,
        None => {
            return Err(Error::RecoveryKey);
        },
    };
    let recovery_public = match x_only_public_key(&recovery_key) {
        Some(recovery_public) => recovery_public,
        None => {
            return Err(Error::RecoveryKey);
        },
    };
    if !same_bytes(&p2tr_script(&recovery_public), &commitment.commit_script) {
        return Err(Error::RecoveryKey);
    }
    match check_weight(weight, no_limit) {
        Ok(()) => Ok((tx, recovery_key)),
        Err(error) => Err(error),
    }
}

/// Builds and signs the reveal transaction of a commitment, and derives
/// the recovery key. But for the signature, whose bytes differ from call
/// to call, the result is told by the arguments.
///
/// The transaction spends the one output of `commit` that pays to the
/// commit script. That output pays the fee; what is left goes to
/// `destination`. The signature is made with the commitment's secret key
/// over the Taproot script-spend hash of the transaction, and is kept
/// only if the commitment's public key verifies it.
pub fn finish_reveal(
    commit: &Transaction,
    commitment: &Commitment,
    destination: &Vec<u8>,
    rate: FeeRate,
    no_limit: bool,
) -> (r: Result<(Transaction, [u8; 32]), Error>)
    ensures
        r matches Ok((tx, recovery_key)) ==> is_reveal(
            tx@,
            recovery_key,
            commit@,
            commitment@,
            destination@,
            rate,
            no_limit,
        ),
        reveal_refusal(commit@, commitment@, destination@, rate) matches Some(error) ==> r == Err::<
            (Transaction, [u8; 32]),
            Error,
        >(error),
        reveal_refusal(commit@, commitment@, destination@, rate) is None ==> reveal_weight(
            destination@.len(),
            commitment.reveal_script@.len(),
            commitment.spend.control_block@.len(),
        ) <= u64::MAX,
        reveal_refusal(commit@, commitment@, destination@, rate) is None ==> match r {
            Ok((tx, recovery_key)) => late_refusal(commitment@, destination@, no_limit) is None
                && recovery_key_of(commitment@) == Some(recovery_key) && tx@ == signed_reveal(
                prepared(commit@, commitment@, destination@, rate).0,
                prepared(commit@, commitment@, destination@, rate).1,
                destination@,
                commitment@,
                tx@.input[0].witness[0],
            ) && public_key_of(commitment.secret_key) is Some && signs(
                tx@.input[0].witness[0],
                signing_hash(commit@, commitment@, destination@, rate),
                commitment.public_key,
            ),
            Err(Error::Signing) => unsignable(commit@, commitment@, destination@, rate),
            Err(error) => late_refusal(commitment@, destination@, no_limit) == Some(error)
                && signing_hash(commit@, commitment@, destination@, rate) is Some
                && public_key_of(commitment.secret_key) is Some,
        },
{
    let (previous_output, value) = match prepare_reveal(commit, commitment, destination, rate) {
        Ok(prepared) => prepared,
        Err(error) => {
            return Err(error);
        },
    };
    let spent = &commit.output[previous_output.vout as usize];
    assert(spent@ == commit@.output[previous_output.vout as int]);
    let hash = match reveal_sighash(
        previous_output,
        value,
        destination,
        spent,
        &commitment.reveal_script,
    ) {
        Some(hash) => hash,
        None => {
            return Err(Error::Signing);
        },
    };
    let signature = match sign_schnorr(&hash, &commitment.secret_key) {
        Some(signature) => signature,
        None => {
            return Err(Error::Signing);
        },
    };
    assert(signature@.len() == 64);
    assert(prepared(commit@, commitment@, destination@, rate) == (previous_output, value));
    assert(signing_hash(commit@, commitment@, destination@, rate) == Some(hash));
    match seal_reveal(previous_output, value, destination, commitment, no_limit, &hash, &signature) {
        Ok((tx, recovery_key)) => {
            assert(tx@.input[0].witness[0] == signature@);
            assert(reveals(
                tx@,
                recovery_key,
                commit@,
                previous_output.vout as int,
                commitment@,
                destination@,
                rate,
                no_limit,
            ));
            Ok((tx, recovery_key))
        },
        Err(error) => {
            proof {
                if !schnorr_verifies(signature@, hash, commitment.public_key) {
                    let made = signature@;
                    assert(made.len() == 64 && !schnorr_verifies(
                        made,
                        hash,
                        commitment@.public_key,
                    ));
                    assert(exists|signature: Seq<u8>|
                        signature.len() == 64 && !#[trigger] schnorr_verifies(
                            signature,
                            hash,
                            commitment@.public_key,
                        ));
                    assert(unsignable(commit@, commitment@, destination@, rate));
                }
            }
            Err(error)
        },
    }
}

} // verus!
