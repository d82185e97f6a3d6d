use vstd::prelude::*;
use crate::bytes::{copy_bytes, zeros};
use crate::consensus::{
    dust_value, dust_value_of, lemma_signing_adds_weight, transaction_weight,
    unsigned_input_sizes, weight_of, weight_of_sizes,
};
use crate::error::Error;
use crate::fee_rate::FeeRate;
use crate::inscribed::{first_on, inscribed_on, Inscribed, InscriptionSet};
use crate::outpoint::{OutPoint, SatPoint};
use crate::reveal_tx::{new_input, unsigned_input};
use crate::transaction::{
    input_sizes, output_sizes, outputs_view, signed_input_sizes, sum_outputs,
    total_value, Transaction, TransactionView, TxIn, TxInView, TxOut, TxOutView,
    ENABLE_RBF_NO_LOCKTIME, SCHNORR_SIGNATURE_SIZE,
};
use crate::utxo::{amount_of, ascending, holds, lemma_one_place, Utxo, UtxoSet};

verus! {

/// The postage that an inscription carries unless another is asked for.
pub const DEFAULT_TARGET_POSTAGE: u64 = 10_000;

/// The sum of the values of some unspent outputs.
pub open spec fn total_of(utxos: Seq<Utxo>) -> nat
    decreases utxos.len(),
{
    if utxos.len() == 0 {
        0
    } else {
        total_of(utxos.drop_last()) + utxos.last().value as nat
    }
}

/// What an input brings in: the value of the output that it spends, as
/// `amounts` knows it.
pub open spec fn input_value(amounts: Seq<Utxo>, input: TxInView) -> nat {
    match amount_of(amounts, input.previous_output) {
        Some(value) => value as nat,
        None => 0,
    }
}

/// What some inputs bring in together.
pub open spec fn total_input(amounts: Seq<Utxo>, inputs: Seq<TxInView>) -> nat
    decreases inputs.len(),
{
    if inputs.len() == 0 {
        0
    } else {
        total_input(amounts, inputs.drop_last()) + input_value(amounts, inputs.last())
    }
}

/// The weight that the transaction has once each of its inputs is signed
/// by a Taproot key spend, with a witness of one Schnorr signature.
pub open spec fn signed_weight(tx: TransactionView) -> nat {
    weight_of_sizes(signed_input_sizes(tx.input.len()), output_sizes(tx.output))
}

/// The inscription that stands in the way of inscribing the satoshi: the
/// first one, in the order of satpoints, on the same output.
pub open spec fn conflict(inscriptions: Seq<Inscribed>, satpoint: SatPoint) -> Option<Error> {
    if inscribed_on(inscriptions, satpoint.outpoint) {
        let i = choose|i: int| first_on(inscriptions, satpoint.outpoint, i);
        if inscriptions[i].satpoint == satpoint {
            Some(Error::SatAlreadyInscribed { satpoint })
        } else {
            Some(
                Error::UtxoAlreadyInscribed {
                    outpoint: satpoint.outpoint,
                    inscription_id: inscriptions[i].id,
                    inscribed: inscriptions[i].satpoint,
                },
            )
        }
    } else {
        None
    }
}

/// The first place of an inscription on an output is one place only.
pub proof fn lemma_first_on_unique(inscriptions: Seq<Inscribed>, outpoint: OutPoint, i: int, j: int)
    requires
        first_on(inscriptions, outpoint, i),
        first_on(inscriptions, outpoint, j),
    ensures
        i == j,
{
}

/// Refuses a satoshi whose output bears an inscription already: the
/// satoshi itself, or another satoshi of the output.
pub fn check_not_inscribed(inscriptions: &InscriptionSet, satpoint: &SatPoint) -> (r: Result<
    (),
    Error,
>)
    ensures
        r == match conflict(inscriptions@, *satpoint) {
            Some(error) => Err::<(), Error>(error),
            None => Ok(()),
        },
{
    match inscriptions.first_inscribed_on(&satpoint.outpoint) {
        None => Ok(()),
        Some(i) => {
            let found = inscriptions.entry(i);
            proof {
                let chosen = choose|k: int| first_on(inscriptions@, satpoint.outpoint, k);
                lemma_first_on_unique(inscriptions@, satpoint.outpoint, i as int, chosen);
            }
            match found.satpoint.rank(satpoint) {
                crate::outpoint::Rank::Same => Err(
                    Error::SatAlreadyInscribed { satpoint: *satpoint },
                ),
                _ => Err(
                    Error::UtxoAlreadyInscribed {
                        outpoint: satpoint.outpoint,
                        inscription_id: found.id,
                        inscribed: found.satpoint,
                    },
                ),
            }
        },
    }
}

/// Whether the output at place `i` of `amounts` can be added as an input:
/// it bears no inscription, is not spent already, and is worth `minimum`
/// at least.
pub open spec fn suits(
    amounts: Seq<Utxo>,
    inscriptions: Seq<Inscribed>,
    used: Seq<OutPoint>,
    minimum: u64,
    i: int,
) -> bool {
    &&& 0 <= i < amounts.len()
    &&& !inscribed_on(inscriptions, amounts[i].outpoint)
    &&& !used.contains(amounts[i].outpoint)
    &&& amounts[i].value >= minimum
}

/// Whether `i` is the first place of `amounts` whose output can be added
/// as an input.
pub open spec fn first_suit(
    amounts: Seq<Utxo>,
    inscriptions: Seq<Inscribed>,
    used: Seq<OutPoint>,
    minimum: u64,
    i: int,
) -> bool {
    &&& suits(amounts, inscriptions, used, minimum, i)
    &&& forall|j: int| 0 <= j < i ==> !suits(amounts, inscriptions, used, minimum, j)
}

/// The output that is added as an input where `minimum` is needed: the
/// first, in the order of outpoints, that bears no inscription, is not
/// spent already, and is worth `minimum` at least.
pub open spec fn selected(
    amounts: Seq<Utxo>,
    inscriptions: Seq<Inscribed>,
    used: Seq<OutPoint>,
    minimum: u64,
) -> Option<Utxo> {
    if exists|i: int| suits(amounts, inscriptions, used, minimum, i) {
        Some(amounts[choose|i: int| first_suit(amounts, inscriptions, used, minimum, i)])
    } else {
        None
    }
}

/// The first place that suits is one place only.
pub proof fn lemma_selected(
    amounts: Seq<Utxo>,
    inscriptions: Seq<Inscribed>,
    used: Seq<OutPoint>,
    minimum: u64,
    i: int,
)
    requires
        first_suit(amounts, inscriptions, used, minimum, i),
    ensures
        selected(amounts, inscriptions, used, minimum) == Some(amounts[i]),
{
    let chosen = choose|k: int| first_suit(amounts, inscriptions, used, minimum, k);
    if chosen < i {
        assert(!suits(amounts, inscriptions, used, minimum, chosen));
    } else if i < chosen {
        assert(!suits(amounts, inscriptions, used, minimum, i));
    }
}

/// Whether `used` holds the outpoint.
fn is_used(used: &Vec<OutPoint>, outpoint: &OutPoint) -> (r: bool)
    ensures
        r == used@.contains(*outpoint),
{
    let mut i: usize = 0;
    while i < used.len()
        invariant
            i <= used@.len(),
            forall|j: int| 0 <= j < i ==> used@[j] != *outpoint,
        decreases used@.len() - i,
    {
        if used[i].same(outpoint) {
            return true;
        }
        i += 1;
    }
    false
}

/// The first output, in the order of outpoints, that can be added as an
/// input worth `minimum` at least.
pub fn select_cardinal_utxo(
    amounts: &UtxoSet,
    inscriptions: &InscriptionSet,
    used: &Vec<OutPoint>,
    minimum: u64,
) -> (r: Option<Utxo>)
    ensures
        r == selected(amounts@, inscriptions@, used@, minimum),
        match r {
            Some(utxo) => exists|i: int|
                #![trigger suits(amounts@, inscriptions@, used@, minimum, i)]
                suits(amounts@, inscriptions@, used@, minimum, i) && amounts@[i] == utxo,
            None => true,
        },
{
    let mut i: usize = 0;
    while i < amounts.len()
        invariant
            i <= amounts@.len(),
            forall|j: int| 0 <= j < i ==> !suits(amounts@, inscriptions@, used@, minimum, j),
        decreases amounts@.len() - i,
    {
        let utxo = amounts.entry(i);
        if utxo.value >= minimum && !is_used(used, &utxo.outpoint) {
            if inscriptions.first_inscribed_on(&utxo.outpoint).is_none() {
                assert(suits(amounts@, inscriptions@, used@, minimum, i as int));
                proof {
                    lemma_selected(amounts@, inscriptions@, used@, minimum, i as int);
                }
                return Some(utxo);
            }
        }
        i += 1;
    }
    None
}

/// Whether an output is worth less than its script's dust threshold.
pub open spec fn is_dust(output: TxOutView) -> bool {
    output.value < dust_value_of(output.script_pubkey)
}

/// Whether the output at place `i` is the first that is dust.
pub open spec fn first_dust(outputs: Seq<TxOutView>, i: int) -> bool {
    &&& 0 <= i < outputs.len()
    &&& is_dust(outputs[i])
    &&& forall|j: int| 0 <= j < i ==> !is_dust(#[trigger] outputs[j])
}

/// Whether some output is dust.
pub open spec fn any_dust(outputs: Seq<TxOutView>) -> bool {
    exists|i: int| 0 <= i < outputs.len() && is_dust(#[trigger] outputs[i])
}

/// Why outputs are refused as dust: the first of them that is worth less
/// than its script's dust threshold is reported with both values.
pub open spec fn dust_refusal(outputs: Seq<TxOutView>) -> Option<Error> {
    if any_dust(outputs) {
        let i = choose|i: int| first_dust(outputs, i);
        Some(
            Error::Dust {
                output_value: outputs[i].value,
                dust_value: dust_value_of(outputs[i].script_pubkey),
            },
        )
    } else {
        None
    }
}

/// Whether the outputs of `outputs` from place `lead` on are the outputs
/// asked for: their scripts in their order, with their values, but that
/// the last of them may carry more.
pub open spec fn carries(outputs: Seq<TxOutView>, lead: int, commit: Seq<TxOutView>) -> bool {
    &&& 0 <= lead
    &&& lead + commit.len() <= outputs.len()
    &&& forall|i: int|
        0 <= i < commit.len() ==> (#[trigger] outputs[lead + i]).script_pubkey
            == commit[i].script_pubkey
    &&& forall|i: int|
        0 <= i < commit.len() - 1 ==> (#[trigger] outputs[lead + i]).value == commit[i].value
    &&& commit.len() > 0 ==> outputs[lead + commit.len() - 1].value >= commit.last().value
}

/// Whether the satoshi `outgoing` is the first satoshi of the output at
/// place `lead`: the inputs before the one that holds it, and the
/// satoshis before it in its own output, fill the outputs before `lead`
/// exactly.
pub open spec fn lands_on(
    tx: TransactionView,
    amounts: Seq<Utxo>,
    outgoing: SatPoint,
    lead: int,
) -> bool {
    exists|k: int|
        0 <= k < tx.input.len() && (#[trigger] tx.input[k]).previous_output == outgoing.outpoint
            && total_input(amounts, tx.input.take(k)) + outgoing.offset == total_value(
            tx.output.take(lead),
        )
}

/// The place of the first commit output: an alignment output stands before
/// it where the satoshi is not the first of its output.
pub open spec fn lead_of(outgoing: SatPoint) -> int {
    if outgoing.offset > 0 {
        1
    } else {
        0
    }
}

/// Whether the inputs are unsigned, spend outputs that `amounts` knows and
/// that bear no inscription, and spend no output twice.
pub open spec fn spends_cardinal(
    inputs: Seq<TxInView>,
    inscriptions: Seq<Inscribed>,
    amounts: Seq<Utxo>,
) -> bool {
    &&& forall|i: int|
        0 <= i < inputs.len() ==> (#[trigger] inputs[i]) == unsigned_input(
            inputs[i].previous_output,
        )
    &&& forall|i: int|
        0 <= i < inputs.len() ==> holds(amounts, (#[trigger] inputs[i]).previous_output)
            && !inscribed_on(inscriptions, inputs[i].previous_output)
    &&& forall|i: int, j: int|
        0 <= i < j < inputs.len() ==> (#[trigger] inputs[i]).previous_output != (
        #[trigger] inputs[j]).previous_output
}

/// What a commit transaction owes: it is unsigned and spends cardinal
/// outputs of the wallet only; the satoshi to inscribe is the first of the
/// first commit output; the commit outputs follow one another in the order
/// asked for; at most one output, for change, follows them; no output is
/// dust; and the inputs bring in what the outputs carry plus the fee that
/// the rate asks of the signed transaction.
pub open spec fn is_commit(
    tx: TransactionView,
    outgoing: SatPoint,
    inscriptions: Seq<Inscribed>,
    amounts: Seq<Utxo>,
    commit: Seq<TxOutView>,
    fee_rate: FeeRate,
) -> bool {
    &&& tx.version == 1
    &&& tx.lock_time == 0
    &&& spends_cardinal(tx.input, inscriptions, amounts)
    &&& lands_on(tx, amounts, outgoing, lead_of(outgoing))
    &&& carries(tx.output, lead_of(outgoing), commit)
    &&& tx.output.len() <= lead_of(outgoing) + commit.len() + 1
    &&& forall|i: int| 0 <= i < tx.output.len() ==> !is_dust(#[trigger] tx.output[i])
    &&& signed_weight(tx) <= u64::MAX
    &&& total_input(amounts, tx.input) == total_value(tx.output) + fee_rate.spec_fee(
        signed_weight(tx) as u64,
    )
}

/// A commit transaction, once signed, weighs 66 weight units more for
/// each input, and two more for all, than it weighs unsigned.
pub proof fn lemma_commit_signed_weight(
    tx: TransactionView,
    outgoing: SatPoint,
    inscriptions: Seq<Inscribed>,
    amounts: Seq<Utxo>,
    commit: Seq<TxOutView>,
    fee_rate: FeeRate,
)
    requires
        is_commit(tx, outgoing, inscriptions, amounts, commit, fee_rate),
    ensures
        signed_weight(tx) == weight_of(tx) + 2 + 66 * tx.input.len(),
{
    let k = choose|k: int|
        0 <= k < tx.input.len() && (#[trigger] tx.input[k]).previous_output == outgoing.outpoint
            && total_input(amounts, tx.input.take(k)) + outgoing.offset == total_value(
            tx.output.take(lead_of(outgoing)),
        );
    assert forall|i: int| 0 <= i < tx.input.len() implies input_sizes(tx.input)[i] == (
        0nat,
        Seq::<nat>::empty(),
    ) by {
        assert(tx.input[i] == unsigned_input(tx.input[i].previous_output));
        assert(input_sizes(tx.input)[i].1 =~= Seq::<nat>::empty());
    }
    assert(input_sizes(tx.input) =~= unsigned_input_sizes(tx.input.len()));
    lemma_signing_adds_weight(tx.input.len(), output_sizes(tx.output));
}

/// Adding an output adds its value to the sum.
pub proof fn lemma_total_value_push(outputs: Seq<TxOutView>, output: TxOutView)
    ensures
        total_value(outputs.push(output)) == total_value(outputs) + output.value,
{
    assert(outputs.push(output).drop_last() =~= outputs);
}

/// Adding an unspent output adds its value to the sum.
pub proof fn lemma_total_of_push(utxos: Seq<Utxo>, utxo: Utxo)
    ensures
        total_of(utxos.push(utxo)) == total_of(utxos) + utxo.value,
{
    assert(utxos.push(utxo).drop_last() =~= utxos);
}

/// Inputs that spend outputs which `amounts` records bring in the values
/// recorded.
pub proof fn lemma_total_input(amounts: Seq<Utxo>, utxos: Seq<Utxo>, inputs: Seq<TxInView>)
    requires
        inputs.len() == utxos.len(),
        forall|i: int|
            0 <= i < utxos.len() ==> (#[trigger] inputs[i]).previous_output == utxos[i].outpoint,
        forall|i: int|
            0 <= i < utxos.len() ==> amount_of(amounts, (#[trigger] utxos[i]).outpoint) == Some(
                utxos[i].value,
            ),
    ensures
        total_input(amounts, inputs) == total_of(utxos),
    decreases utxos.len(),
{
    if utxos.len() > 0 {
        let n = utxos.len() - 1;
        assert(inputs.last() == inputs[n]);
        assert(utxos.last() == utxos[n]);
        assert forall|i: int| 0 <= i < n implies (#[trigger] inputs.drop_last()[i]).previous_output
            == utxos.drop_last()[i].outpoint by {
            assert(inputs.drop_last()[i] == inputs[i]);
        }
        assert forall|i: int| 0 <= i < n implies amount_of(
            amounts,
            (#[trigger] utxos.drop_last()[i]).outpoint,
        ) == Some(utxos.drop_last()[i].value) by {
            assert(utxos.drop_last()[i] == utxos[i]);
        }
        lemma_total_input(amounts, utxos.drop_last(), inputs.drop_last());
    }
}

/// A copy of an output.
pub fn copy_output(output: &TxOut) -> (copy: TxOut)
    ensures
        copy@ == output@,
{
    TxOut { value: output.value, script_pubkey: copy_bytes(&output.script_pubkey) }
}

/// Refuses outputs that are worth less than their scripts' dust
/// thresholds: the first such output is reported.
pub fn check_dust(outputs: &Vec<TxOut>) -> (r: Result<(), Error>)
    ensures
        r == match dust_refusal(outputs_view(outputs@)) {
            Some(error) => Err::<(), Error>(error),
            None => Ok(()),
        },
{
    let ghost view = outputs_view(outputs@);
    let mut i: usize = 0;
    while i < outputs.len()
        invariant
            i <= outputs@.len(),
            view == outputs_view(outputs@),
            forall|j: int| 0 <= j < i ==> !is_dust(#[trigger] view[j]),
        decreases outputs@.len() - i,
    {
        let dust = dust_value(&outputs[i].script_pubkey);
        if outputs[i].value < dust {
            proof {
                assert(is_dust(view[i as int]));
                assert(first_dust(view, i as int));
                let chosen = choose|k: int| first_dust(view, k);
                if chosen < i {
                    assert(!is_dust(view[chosen]));
                } else if i < chosen {
                    assert(!is_dust(view[i as int]));
                }
            }
            return Err(Error::Dust { output_value: outputs[i].value, dust_value: dust });
        }
        assert(!is_dust(view[i as int]));
        i += 1;
    }
    Ok(())
}

/// The weight of a transaction with `inputs` inputs, each signed by a
/// Taproot key spend, and with the scripts of `outputs`.
pub fn estimate_weight(inputs: usize, outputs: &Vec<TxOut>) -> (weight: u64)
    ensures
        weight == weight_of_sizes(
            signed_input_sizes(inputs as nat),
            output_sizes(outputs_view(outputs@)),
        ),
{
    let mut signed: Vec<TxIn> = Vec::new();
    while signed.len() < inputs
        invariant
            signed@.len() <= inputs,
            forall|i: int|
                0 <= i < signed@.len() ==> (#[trigger] signed@[i])@.script_sig.len() == 0
                    && signed@[i]@.witness.len() == 1 && signed@[i]@.witness[0].len()
                    == SCHNORR_SIGNATURE_SIZE,
        decreases inputs - signed@.len(),
    {
        let mut witness: Vec<Vec<u8>> = Vec::new();
        witness.push(zeros(SCHNORR_SIGNATURE_SIZE));
        signed.push(
            TxIn {
                previous_output: OutPoint::null(),
                script_sig: Vec::new(),
                sequence: ENABLE_RBF_NO_LOCKTIME,
                witness,
            },
        );
    }
    let mut copies: Vec<TxOut> = Vec::new();
    let mut i: usize = 0;
    while i < outputs.len()
        invariant
            i <= outputs@.len(),
            copies@.len() == i,
            forall|j: int| 0 <= j < i ==> (#[trigger] copies@[j])@ == outputs@[j]@,
        decreases outputs@.len() - i,
    {
        copies.push(copy_output(&outputs[i]));
        i += 1;
    }
    let estimate = Transaction { version: 1, lock_time: 0, input: signed, output: copies };
    proof {
        let sizes = input_sizes(estimate@.input);
        assert forall|i: int| 0 <= i < inputs implies sizes[i] == (
            0nat,
            seq![SCHNORR_SIGNATURE_SIZE as nat],
        ) by {
            assert(sizes[i].1 =~= seq![SCHNORR_SIGNATURE_SIZE as nat]);
        }
        assert(sizes =~= signed_input_sizes(inputs as nat));
        assert(output_sizes(estimate@.output) =~= output_sizes(outputs_view(outputs@)));
    }
    transaction_weight(&estimate)
}

/// The unsigned transaction that spends `inputs` into `outputs`.
pub fn assemble(inputs: &Vec<Utxo>, outputs: Vec<TxOut>) -> (tx: Transaction)
    ensures
        tx@.version == 1,
        tx@.lock_time == 0,
        tx@.output == outputs_view(outputs@),
        tx@.input.len() == inputs@.len(),
        forall|i: int|
            0 <= i < inputs@.len() ==> (#[trigger] tx@.input[i]) == unsigned_input(
                inputs@[i].outpoint,
            ),
        tx@ == unsigned(inputs@, outputs_view(outputs@)),
{
    let mut input: Vec<TxIn> = Vec::new();
    let mut i: usize = 0;
    while i < inputs.len()
        invariant
            i <= inputs@.len(),
            input@.len() == i,
            forall|j: int|
                0 <= j < i ==> (#[trigger] input@[j])@ == unsigned_input(inputs@[j].outpoint),
        decreases inputs@.len() - i,
    {
        input.push(new_input(inputs[i].outpoint));
        i += 1;
    }
    let tx = Transaction { version: 1, lock_time: 0, input, output: outputs };
    assert(tx@.input =~= unsigned(inputs@, tx@.output).input);
    tx
}

/// Whether each of `utxos` is recorded in `amounts` with its value and
/// bears no inscription, and none occurs twice.
pub open spec fn recorded(utxos: Seq<Utxo>, inscriptions: Seq<Inscribed>, amounts: Seq<Utxo>) -> bool {
    &&& forall|i: int|
        0 <= i < utxos.len() ==> amount_of(amounts, (#[trigger] utxos[i]).outpoint) == Some(
            utxos[i].value,
        ) && !inscribed_on(inscriptions, utxos[i].outpoint)
    &&& forall|i: int, j: int|
        0 <= i < j < utxos.len() ==> (#[trigger] utxos[i]).outpoint != (
        #[trigger] utxos[j]).outpoint
}

/// What aligning the satoshi leaves behind: the output that holds it as
/// the last input, before it at most one input that pads the alignment
/// output, and the alignment output where the satoshi is not the first of
/// its output. What comes in before the satoshi goes out before the
/// commit outputs.
pub open spec fn aligned(
    inputs: Seq<Utxo>,
    outputs: Seq<TxOutView>,
    outgoing: SatPoint,
    amount: u64,
    inscriptions: Seq<Inscribed>,
    amounts: Seq<Utxo>,
) -> bool {
    &&& 1 <= inputs.len() <= 2
    &&& inputs.last() == (Utxo { outpoint: outgoing.outpoint, value: amount })
    &&& recorded(inputs, inscriptions, amounts)
    &&& outputs.len() == lead_of(outgoing)
    &&& total_of(inputs.drop_last()) + outgoing.offset == total_value(outputs)
    &&& forall|i: int| 0 <= i < outputs.len() ==> !is_dust(#[trigger] outputs[i])
}

/// Brings the satoshi to the head of the first commit output: where other
/// satoshis precede it in its output, they go to an alignment output, to
/// the alignment script or else to the second change script; where they
/// are too few for an output, a cardinal output of the wallet is spent
/// before them to make them enough.
fn align(
    outgoing: SatPoint,
    amount: u64,
    inscriptions: &InscriptionSet,
    amounts: &UtxoSet,
    alignment: Option<Vec<u8>>,
    change: &[Vec<u8>; 2],
) -> (r: Result<(Vec<Utxo>, Vec<TxOut>), Error>)
    requires
        ascending(amounts@),
        amount_of(amounts@, outgoing.outpoint) == Some(amount),
        !inscribed_on(inscriptions@, outgoing.outpoint),
    ensures
        match r {
            Ok((inputs, outputs)) => aligned(
                inputs@,
                outputs_view(outputs@),
                outgoing,
                amount,
                inscriptions@,
                amounts@,
            ),
            Err(error) => error == Error::InsufficientFunds || error == Error::ValueOverflow,
        },
        match aligned_draft(
            outgoing,
            amount,
            inscriptions@,
            amounts@,
            alignment_script(script_view(alignment), change@[1]@),
        ) {
            Ok(draft) => r is Ok && r->Ok_0.0@ == draft.inputs && outputs_view(r->Ok_0.1@)
                == draft.outputs,
            Err(error) => r is Err && r->Err_0 == error,
        },
{
    let mut inputs: Vec<Utxo> = Vec::new();
    let mut outputs: Vec<TxOut> = Vec::new();
    let holder = Utxo { outpoint: outgoing.outpoint, value: amount };
    assert(outputs_view(outputs@) =~= Seq::<TxOutView>::empty());
    if outgoing.offset > 0 {
        let script = match alignment {
            Some(script) => script,
            None => copy_bytes(&change[1]),
        };
        let dust = dust_value(&script);
        let mut value = outgoing.offset;
        if value < dust {
            let mut used: Vec<OutPoint> = Vec::new();
            used.push(outgoing.outpoint);
            let pad = match select_cardinal_utxo(amounts, inscriptions, &used, dust - value) {
                Some(pad) => pad,
                None => {
                    return Err(Error::InsufficientFunds);
                },
            };
            if pad.value > u64::MAX - value {
                return Err(Error::ValueOverflow);
            }
            value = value + pad.value;
            proof {
                let i = choose|i: int|
                    #![trigger suits(amounts@, inscriptions@, used@, (dust - outgoing.offset) as u64, i)]
                    suits(amounts@, inscriptions@, used@, (dust - outgoing.offset) as u64, i)
                        && amounts@[i] == pad;
                lemma_one_place(amounts@, i);
                assert(used@[0] == outgoing.outpoint);
                assert(pad.outpoint != outgoing.outpoint);
            }
            inputs.push(pad);
            proof {
                lemma_total_of_push(Seq::<Utxo>::empty(), pad);
            }
        }
        let output = TxOut { value, script_pubkey: script };
        outputs.push(output);
        proof {
            assert(outputs_view(outputs@) =~= Seq::<TxOutView>::empty().push(outputs@[0]@));
            lemma_total_value_push(Seq::<TxOutView>::empty(), outputs@[0]@);
        }
    }
    let ghost before = inputs@;
    inputs.push(holder);
    proof {
        assert(inputs@.drop_last() =~= before);
        assert(inputs@ =~= before.push(holder));
        assert(before.len() == 0 ==> inputs@ =~= seq![holder]);
        assert(before.len() == 1 ==> inputs@ =~= seq![before[0], holder]);
        if outputs@.len() == 1 {
            assert(outputs_view(outputs@) =~= seq![outputs@[0]@]);
        }
    }
    Ok((inputs, outputs))
}

/// The sum of two sequences of outputs is the sum of their sums.
pub proof fn lemma_total_value_add(a: Seq<TxOutView>, b: Seq<TxOutView>)
    ensures
        total_value(a + b) == total_value(a) + total_value(b),
    decreases b.len(),
{
    if b.len() == 0 {
        assert(a + b =~= a);
    } else {
        assert((a + b).drop_last() =~= a + b.drop_last());
        lemma_total_value_add(a, b.drop_last());
    }
}

/// The outpoints of some unspent outputs.
fn outpoints_of(utxos: &Vec<Utxo>) -> (r: Vec<OutPoint>)
    ensures
        r@.len() == utxos@.len(),
        forall|i: int| 0 <= i < utxos@.len() ==> r@[i] == (#[trigger] utxos@[i]).outpoint,
        r@ == outpoints(utxos@),
{
    let mut r: Vec<OutPoint> = Vec::new();
    let mut i: usize = 0;
    while i < utxos.len()
        invariant
            i <= utxos@.len(),
            r@.len() == i,
            forall|j: int| 0 <= j < i ==> r@[j] == (#[trigger] utxos@[j]).outpoint,
        decreases utxos@.len() - i,
    {
        r.push(utxos[i].outpoint);
        i += 1;
    }
    assert(r@ =~= outpoints(utxos@));
    r
}

/// Appends copies of `more` to `outputs`.
fn append_outputs(outputs: &mut Vec<TxOut>, more: &Vec<TxOut>)
    ensures
        outputs_view(final(outputs)@) == outputs_view(old(outputs)@) + outputs_view(more@),
{
    let mut i: usize = 0;
    assert(outputs_view(outputs@) =~= outputs_view(old(outputs)@) + outputs_view(more@).take(0));
    while i < more.len()
        invariant
            i <= more@.len(),
            outputs_view(outputs@) == outputs_view(old(outputs)@) + outputs_view(more@).take(
                i as int,
            ),
        decreases more@.len() - i,
    {
        let ghost before = outputs_view(outputs@);
        outputs.push(copy_output(&more[i]));
        assert(outputs_view(outputs@) =~= before.push(more@[i as int]@));
        assert(outputs_view(outputs@) =~= outputs_view(old(outputs)@) + outputs_view(more@).take(
            i + 1,
        ));
        i += 1;
    }
    assert(outputs_view(more@).take(more@.len() as int) =~= outputs_view(more@));
}

/// No output is worth more than all outputs together.
pub proof fn lemma_value_within_total(outputs: Seq<TxOutView>, i: int)
    requires
        0 <= i < outputs.len(),
    ensures
        outputs[i].value <= total_value(outputs),
    decreases outputs.len(),
{
    if i < outputs.len() - 1 {
        lemma_value_within_total(outputs.drop_last(), i);
    }
}

/// The sum of three amounts, where it fits in 64 bits.
fn sum3(a: u64, b: u64, c: u64) -> (r: Option<u64>)
    ensures
        match r {
            Some(sum) => sum == a + b + c,
            None => a + b + c > u64::MAX,
        },
{
    if a > u64::MAX - b {
        return None;
    }
    let ab: u64 = a + b;
    if ab > u64::MAX - c {
        return None;
    }
    Some(ab + c)
}

/// Pays for the commit outputs and the fee, and settles what is left.
///
/// The output that holds the satoshi pays with what follows the satoshi
/// in it. Where that is too little, the first cardinal output of the
/// wallet that covers the rest is spent as well. What is left over after
/// the commit outputs and the fee goes to a change output, to
/// `change_script`, if it is enough to pay for that output and not to be
/// dust there; else it stays on the last commit output.
fn fund(
    inputs: Vec<Utxo>,
    outputs: Vec<TxOut>,
    outgoing: SatPoint,
    amount: u64,
    inscriptions: &InscriptionSet,
    amounts: &UtxoSet,
    commit: &Vec<TxOut>,
    change_script: Vec<u8>,
    fee_rate: FeeRate,
) -> (r: Result<Transaction, Error>)
    requires
        ascending(amounts@),
        aligned(inputs@, outputs_view(outputs@), outgoing, amount, inscriptions@, amounts@),
        outgoing.offset < amount,
        commit@.len() >= 1,
        total_value(outputs_view(commit@)) <= u64::MAX,
        forall|i: int| 0 <= i < commit@.len() ==> !is_dust(#[trigger] outputs_view(commit@)[i]),
    ensures
        match r {
            Ok(tx) => is_commit(
                tx@,
                outgoing,
                inscriptions@,
                amounts@,
                outputs_view(commit@),
                fee_rate,
            ),
            Err(error) => error == Error::InsufficientFunds || error == Error::ValueOverflow,
        },
        built(r) == funded_commit(
            inputs@,
            outputs_view(outputs@) + outputs_view(commit@),
            (amount - outgoing.offset) as u64,
            total_value(outputs_view(commit@)) as u64,
            inscriptions@,
            amounts@,
            change_script@,
            fee_rate,
        ),
{
    let mut inputs = inputs;
    let mut outputs = outputs;
    let ghost inputs0 = inputs@;
    let ghost lead = outputs_view(outputs@);
    let ghost asked = outputs_view(commit@);
    let wanted: u64 = match sum_outputs(commit) {
        Some(wanted) => wanted,
        None => {
            return Err(Error::ValueOverflow);
        },
    };
    append_outputs(&mut outputs, commit);
    let mut available: u64 = amount - outgoing.offset;
    let mut fee: u64 = fee_rate.fee(estimate_weight(inputs.len(), &outputs));
    if wanted > u64::MAX - fee {
        return Err(Error::ValueOverflow);
    }
    proof {
        lemma_total_of_push(inputs0.drop_last(), inputs0.last());
        assert(inputs0.drop_last().push(inputs0.last()) =~= inputs0);
    }
    if available < wanted + fee {
        let more_fee: u64 = fee_rate.fee(estimate_weight(inputs.len() + 1, &outputs));
        if wanted > u64::MAX - more_fee {
            return Err(Error::ValueOverflow);
        }
        let need: u64 = wanted + more_fee;
        let minimum: u64 = if need > available {
            need - available
        } else {
            0
        };
        let used = outpoints_of(&inputs);
        let extra = match select_cardinal_utxo(amounts, inscriptions, &used, minimum) {
            Some(extra) => extra,
            None => {
                return Err(Error::InsufficientFunds);
            },
        };
        if extra.value > u64::MAX - available {
            return Err(Error::ValueOverflow);
        }
        proof {
            let i = choose|i: int|
                #![trigger suits(amounts@, inscriptions@, used@, minimum, i)]
                suits(amounts@, inscriptions@, used@, minimum, i) && amounts@[i] == extra;
            lemma_one_place(amounts@, i);
            assert forall|j: int| 0 <= j < inputs0.len() implies (#[trigger] inputs0[j]).outpoint
                != extra.outpoint by {
                assert(used@[j] == inputs0[j].outpoint);
            }
            lemma_total_of_push(inputs0, extra);
        }
        available = available + extra.value;
        inputs.push(extra);
        fee = more_fee;
    }
    let ghost plain = outputs_view(outputs@);
    assert(inputs@.take(inputs0.len() as int) =~= inputs0);
    assert(plain == lead + asked);
    assert(recorded(inputs@, inscriptions@, amounts@));
    assert(total_of(inputs@) == total_of(inputs0.drop_last()) + outgoing.offset + available);
    assert(available >= wanted + fee);
    assert(fee == fee_rate.spec_fee(
        weight_of_sizes(signed_input_sizes(inputs@.len()), output_sizes(plain)) as u64,
    ));
    let change_dust: u64 = dust_value(&change_script);
    outputs.push(TxOut { value: 0, script_pubkey: change_script });
    let ghost placeholder = outputs@[outputs@.len() - 1]@;
    assert(outputs_view(outputs@) =~= plain.push(placeholder));
    let change_fee: u64 = fee_rate.fee(estimate_weight(inputs.len(), &outputs));
    let affordable: bool = match sum3(wanted, change_fee, change_dust) {
        Some(total) => total <= available,
        None => false,
    };
    let spare = match outputs.pop() {
        Some(spare) => spare,
        None => {
            return Err(Error::ValueOverflow);
        },
    };
    assert(outputs_view(outputs@) =~= plain);
    proof {
        lemma_total_value_add(lead, asked);
    }
    if affordable {
        let change_value: u64 = available - wanted - change_fee;
        let TxOut { value: _, script_pubkey } = spare;
        outputs.push(TxOut { value: change_value, script_pubkey });
        let ghost change_output = outputs@[outputs@.len() - 1]@;
        let ghost settled = outputs_view(outputs@);
        let tx = assemble(&inputs, outputs);
        proof {
            assert(settled =~= plain.push(change_output));
            lemma_total_value_push(plain, change_output);
            assert(output_sizes(settled) =~= output_sizes(plain.push(placeholder)));
            assert(settled.take(lead.len() as int) =~= lead);
            lemma_settled(
                tx@,
                inputs@,
                inputs0,
                lead,
                asked,
                settled,
                outgoing,
                amount,
                inscriptions@,
                amounts@,
            );
            assert(tx@.output.len() <= lead_of(outgoing) + asked.len() + 1);
            assert(carries(tx@.output, lead_of(outgoing), asked)) by {
                assert forall|i: int| 0 <= i < asked.len() implies (#[trigger] settled[lead.len()
                    + i]) == asked[i] by {
                    assert(plain[lead.len() + i] == asked[i]);
                }
            }
            assert forall|i: int| 0 <= i < settled.len() implies !is_dust(
                #[trigger] settled[i],
            ) by {
                if i < lead.len() {
                    assert(settled[i] == lead[i]);
                } else if i < plain.len() {
                    assert(settled[i] == asked[i - lead.len()]);
                }
            }
        }
        Ok(tx)
    } else {
        let residual: u64 = available - wanted - fee;
        let last = match outputs.pop() {
            Some(last) => last,
            None => {
                return Err(Error::ValueOverflow);
            },
        };
        let ghost asked_last = asked.last();
        proof {
            assert(last@ == plain[plain.len() - 1]);
            assert(plain[plain.len() - 1] == asked_last);
            lemma_value_within_total(asked, asked.len() - 1);
        }
        let TxOut { value, script_pubkey } = last;
        outputs.push(TxOut { value: value + residual, script_pubkey });
        let ghost raised = outputs@[outputs@.len() - 1]@;
        let ghost settled = outputs_view(outputs@);
        let tx = assemble(&inputs, outputs);
        proof {
            assert(settled =~= plain.drop_last().push(raised));
            lemma_total_value_push(plain.drop_last(), raised);
            assert(plain.drop_last().push(asked_last) =~= plain);
            lemma_total_value_push(plain.drop_last(), asked_last);
            assert(output_sizes(settled) =~= output_sizes(plain));
            assert(settled.take(lead.len() as int) =~= lead);
            lemma_settled(
                tx@,
                inputs@,
                inputs0,
                lead,
                asked,
                settled,
                outgoing,
                amount,
                inscriptions@,
                amounts@,
            );
            assert(carries(tx@.output, lead_of(outgoing), asked)) by {
                assert forall|i: int| 0 <= i < asked.len() - 1 implies (#[trigger] settled[lead.len()
                    + i]) == asked[i] by {
                    assert(plain[lead.len() + i] == asked[i]);
                }
                assert(settled[lead.len() + asked.len() - 1] == raised);
            }
            assert forall|i: int| 0 <= i < settled.len() implies !is_dust(
                #[trigger] settled[i],
            ) by {
                if i < lead.len() {
                    assert(settled[i] == lead[i]);
                } else if i < plain.len() - 1 {
                    assert(settled[i] == asked[i - lead.len()]);
                } else {
                    assert(!is_dust(asked[asked.len() - 1]));
                }
            }
        }
        Ok(tx)
    }
}

/// What holds of a transaction assembled from aligned inputs, to which an
/// input may have been added, and from outputs that begin with the
/// alignment outputs: it spends cardinal outputs, the satoshi lands on the
/// output after the alignment outputs, and its inputs bring in what the
/// unspent outputs are worth.
proof fn lemma_settled(
    tx: TransactionView,
    inputs: Seq<Utxo>,
    inputs0: Seq<Utxo>,
    lead: Seq<TxOutView>,
    asked: Seq<TxOutView>,
    settled: Seq<TxOutView>,
    outgoing: SatPoint,
    amount: u64,
    inscriptions: Seq<Inscribed>,
    amounts: Seq<Utxo>,
)
    requires
        aligned(inputs0, lead, outgoing, amount, inscriptions, amounts),
        recorded(inputs, inscriptions, amounts),
        inputs0.len() <= inputs.len(),
        inputs.take(inputs0.len() as int) == inputs0,
        tx.output == settled,
        settled.len() >= lead.len(),
        settled.take(lead.len() as int) == lead,
        tx.input.len() == inputs.len(),
        forall|i: int|
            0 <= i < inputs.len() ==> (#[trigger] tx.input[i]) == unsigned_input(
                inputs[i].outpoint,
            ),
    ensures
        spends_cardinal(tx.input, inscriptions, amounts),
        lands_on(tx, amounts, outgoing, lead_of(outgoing)),
        total_input(amounts, tx.input) == total_of(inputs),
{
    lemma_total_input(amounts, inputs, tx.input);
    let k = inputs0.len() - 1;
    assert(inputs[k] == inputs0[k]);
    assert(tx.input[k].previous_output == outgoing.outpoint);
    assert(inputs.take(k) =~= inputs0.drop_last());
    assert forall|i: int| 0 <= i < k implies (#[trigger] tx.input.take(k)[i]).previous_output
        == inputs.take(k)[i].outpoint by {
        assert(tx.input.take(k)[i] == tx.input[i]);
    }
    assert forall|i: int| 0 <= i < k implies amount_of(
        amounts,
        (#[trigger] inputs.take(k)[i]).outpoint,
    ) == Some(inputs.take(k)[i].value) by {
        assert(inputs.take(k)[i] == inputs[i]);
    }
    lemma_total_input(amounts, inputs.take(k), tx.input.take(k));
    assert(spends_cardinal(tx.input, inscriptions, amounts)) by {
        assert forall|i: int| 0 <= i < tx.input.len() implies holds(
            amounts,
            (#[trigger] tx.input[i]).previous_output,
        ) && !inscribed_on(inscriptions, tx.input[i].previous_output) by {
            assert(amount_of(amounts, inputs[i].outpoint) is Some);
        }
        assert forall|i: int, j: int| 0 <= i < j < tx.input.len() implies (
        #[trigger] tx.input[i]).previous_output != (#[trigger] tx.input[j]).previous_output by {
            assert(inputs[i].outpoint != inputs[j].outpoint);
        }
    }
}

/// The inputs and outputs of a transaction that is being built.
pub ghost struct Draft {
    pub inputs: Seq<Utxo>,
    pub outputs: Seq<TxOutView>,
}

/// The script as a byte string, if there is one.
pub open spec fn script_view(script: Option<Vec<u8>>) -> Option<Seq<u8>> {
    match script {
        Some(script) => Some(script@),
        None => None,
    }
}

/// The transaction as a view, if there is one.
pub open spec fn built(r: Result<Transaction, Error>) -> Result<TransactionView, Error> {
    match r {
        Ok(tx) => Ok(tx@),
        Err(error) => Err(error),
    }
}

/// The script of the alignment output: the alignment script, or else the
/// second change script.
pub open spec fn alignment_script(alignment: Option<Seq<u8>>, second_change: Seq<u8>) -> Seq<u8> {
    match alignment {
        Some(script) => script,
        None => second_change,
    }
}

/// The script of the change output: the second change script, or the
/// first where the second has gone to the alignment output.
pub open spec fn change_script(
    outgoing: SatPoint,
    alignment: Option<Seq<u8>>,
    first_change: Seq<u8>,
    second_change: Seq<u8>,
) -> Seq<u8> {
    if outgoing.offset > 0 && alignment is None {
        first_change
    } else {
        second_change
    }
}

/// What aligning the satoshi gives. The output that holds the satoshi is
/// the last input. Where satoshis precede it in that output, they go to
/// an alignment output, to `script`; where they are fewer than the
/// script's dust threshold, the first cardinal output of the wallet that
/// makes them enough is spent before them and goes to the alignment
/// output too.
pub open spec fn aligned_draft(
    outgoing: SatPoint,
    amount: u64,
    inscriptions: Seq<Inscribed>,
    amounts: Seq<Utxo>,
    script: Seq<u8>,
) -> Result<Draft, Error> {
    let holder = Utxo { outpoint: outgoing.outpoint, value: amount };
    if outgoing.offset == 0 {
        Ok(Draft { inputs: seq![holder], outputs: Seq::empty() })
    } else if outgoing.offset >= dust_value_of(script) {
        Ok(
            Draft {
                inputs: seq![holder],
                outputs: seq![TxOutView { value: outgoing.offset, script_pubkey: script }],
            },
        )
    } else {
        match selected(
            amounts,
            inscriptions,
            seq![outgoing.outpoint],
            (dust_value_of(script) - outgoing.offset) as u64,
        ) {
            None => Err(Error::InsufficientFunds),
            Some(pad) => if outgoing.offset + pad.value > u64::MAX {
                Err(Error::ValueOverflow)
            } else {
                Ok(
                    Draft {
                        inputs: seq![pad, holder],
                        outputs: seq![
                            TxOutView {
                                value: (outgoing.offset + pad.value) as u64,
                                script_pubkey: script,
                            },
                        ],
                    },
                )
            },
        }
    }
}

/// The fee that `rate` asks of a transaction with `inputs` signed inputs
/// and the scripts of `outputs`.
pub open spec fn draft_fee(rate: FeeRate, inputs: nat, outputs: Seq<TxOutView>) -> u64 {
    rate.spec_fee(weight_of_sizes(signed_input_sizes(inputs), output_sizes(outputs)) as u64)
}

/// The outpoints of some unspent outputs.
pub open spec fn outpoints(utxos: Seq<Utxo>) -> Seq<OutPoint> {
    Seq::new(utxos.len(), |i: int| utxos[i].outpoint)
}

/// The unsigned transaction that spends `inputs` into `outputs`.
pub open spec fn unsigned(inputs: Seq<Utxo>, outputs: Seq<TxOutView>) -> TransactionView {
    TransactionView {
        version: 1,
        lock_time: 0,
        input: Seq::new(inputs.len(), |i: int| unsigned_input(inputs[i].outpoint)),
        output: outputs,
    }
}

/// The outputs once what is left over is settled. `available` is what
/// the inputs bring in after the alignment output, `wanted` what the
/// commit outputs ask for, `fee` the fee without a change output. What
/// is left over goes to a change output, to `script`, if after the fee
/// with that output it is no dust there; else it stays on the last
/// output.
pub open spec fn settle(
    outputs: Seq<TxOutView>,
    inputs: nat,
    available: u64,
    wanted: u64,
    fee: u64,
    script: Seq<u8>,
    rate: FeeRate,
) -> Seq<TxOutView> {
    let change_fee = draft_fee(
        rate,
        inputs,
        outputs.push(TxOutView { value: 0, script_pubkey: script }),
    );
    if wanted + change_fee + dust_value_of(script) <= available {
        outputs.push(
            TxOutView { value: (available - wanted - change_fee) as u64, script_pubkey: script },
        )
    } else {
        outputs.drop_last().push(
            TxOutView {
                value: (outputs.last().value + available - wanted - fee) as u64,
                script_pubkey: outputs.last().script_pubkey,
            },
        )
    }
}

/// The transaction that pays for `outputs`, whose last outputs ask for
/// `wanted` together, out of `inputs`, which bring in `available` after
/// the alignment output. Where that is too little for the outputs and
/// the fee, the first cardinal output of the wallet that covers the rest,
/// with the fee for one more input, is spent as well.
pub open spec fn funded_commit(
    inputs: Seq<Utxo>,
    outputs: Seq<TxOutView>,
    available: u64,
    wanted: u64,
    inscriptions: Seq<Inscribed>,
    amounts: Seq<Utxo>,
    script: Seq<u8>,
    rate: FeeRate,
) -> Result<TransactionView, Error> {
    let fee = draft_fee(rate, inputs.len(), outputs);
    let more = draft_fee(rate, inputs.len() + 1, outputs);
    if wanted + fee > u64::MAX {
        Err(Error::ValueOverflow)
    } else if available >= wanted + fee {
        Ok(unsigned(inputs, settle(outputs, inputs.len(), available, wanted, fee, script, rate)))
    } else if wanted + more > u64::MAX {
        Err(Error::ValueOverflow)
    } else {
        let minimum = if wanted + more > available {
            (wanted + more - available) as u64
        } else {
            0u64
        };
        match selected(amounts, inscriptions, outpoints(inputs), minimum) {
            None => Err(Error::InsufficientFunds),
            Some(extra) => if available + extra.value > u64::MAX {
                Err(Error::ValueOverflow)
            } else {
                Ok(
                    unsigned(
                        inputs.push(extra),
                        settle(
                            outputs,
                            inputs.len() + 1,
                            (available + extra.value) as u64,
                            wanted,
                            more,
                            script,
                            rate,
                        ),
                    ),
                )
            },
        }
    }
}

/// The commit transaction: what `build_transaction_with_values` returns.
///
/// The satoshi is refused where its output bears an inscription, is not
/// the wallet's, or does not reach as far as the offset; the outputs
/// asked for, where one of them is dust or their sum does not fit in 64
/// bits. Then the satoshi is aligned, the outputs asked for follow the
/// alignment output, and the transaction is funded and settled.
pub open spec fn commit_of(
    outgoing: SatPoint,
    inscriptions: Seq<Inscribed>,
    amounts: Seq<Utxo>,
    commit: Seq<TxOutView>,
    alignment: Option<Seq<u8>>,
    first_change: Seq<u8>,
    second_change: Seq<u8>,
    rate: FeeRate,
) -> Result<TransactionView, Error> {
    match refusal(outgoing, inscriptions, amounts) {
        Some(error) => Err(error),
        None => match dust_refusal(commit) {
            Some(error) => Err(error),
            None => if total_value(commit) > u64::MAX {
                Err(Error::ValueOverflow)
            } else {
                let amount = amount_of(amounts, outgoing.outpoint)->Some_0;
                match aligned_draft(
                    outgoing,
                    amount,
                    inscriptions,
                    amounts,
                    alignment_script(alignment, second_change),
                ) {
                    Err(error) => Err(error),
                    Ok(draft) => funded_commit(
                        draft.inputs,
                        draft.outputs + commit,
                        (amount - outgoing.offset) as u64,
                        total_value(commit) as u64,
                        inscriptions,
                        amounts,
                        change_script(outgoing, alignment, first_change, second_change),
                        rate,
                    ),
                }
            },
        },
    }
}

/// Builds commit transactions.
pub struct TransactionBuilder {}

/// Why the builder turns the satoshi down before it looks at the outputs
/// asked for: its output bears an inscription, is not the wallet's, or
/// does not reach as far as the offset.
pub open spec fn refusal(
    outgoing: SatPoint,
    inscriptions: Seq<Inscribed>,
    amounts: Seq<Utxo>,
) -> Option<Error> {
    match conflict(inscriptions, outgoing) {
        Some(error) => Some(error),
        None => match amount_of(amounts, outgoing.outpoint) {
            None => Some(Error::NotInWallet { satpoint: outgoing }),
            Some(amount) => if outgoing.offset >= amount {
                Some(
                    Error::OutOfRange {
                        satpoint: outgoing,
                        max: if amount == 0 {
                            0
                        } else {
                            (amount - 1) as u64
                        },
                    },
                )
            } else {
                None
            },
        },
    }
}

impl TransactionBuilder {
    /// Builds the unsigned commit transaction: it spends the output that
    /// holds the satoshi `outgoing`, brings the satoshi to the head of the
    /// first of the outputs `commit`, which it pays in their order, and
    /// pays its fee at `fee_rate`.
    pub fn build_transaction_with_values(
        outgoing: SatPoint,
        inscriptions: &InscriptionSet,
        amounts: &UtxoSet,
        commit: &Vec<TxOut>,
        alignment: Option<Vec<u8>>,
        change: &[Vec<u8>; 2],
        fee_rate: FeeRate,
    ) -> (r: Result<Transaction, Error>)
        requires
            commit@.len() >= 1,
        ensures
            built(r) == commit_of(
                outgoing,
                inscriptions@,
                amounts@,
                outputs_view(commit@),
                script_view(alignment),
                change@[0]@,
                change@[1]@,
                fee_rate,
            ),
            r matches Ok(tx) ==> is_commit(
                tx@,
                outgoing,
                inscriptions@,
                amounts@,
                outputs_view(commit@),
                fee_rate,
            ),
    {
        match check_not_inscribed(inscriptions, &outgoing) {
            Err(error) => {
                return Err(error);
            },
            Ok(()) => {},
        }
        let amount: u64 = match amounts.get(&outgoing.outpoint) {
            Some(amount) => amount,
            None => {
                return Err(Error::NotInWallet { satpoint: outgoing });
            },
        };
        if outgoing.offset >= amount {
            return Err(
                Error::OutOfRange {
                    satpoint: outgoing,
                    max: if amount == 0 {
                        0
                    } else {
                        amount - 1
                    },
                },
            );
        }
        match check_dust(commit) {
            Err(error) => {
                return Err(error);
            },
            Ok(()) => {},
        }
        if sum_outputs(commit).is_none() {
            return Err(Error::ValueOverflow);
        }
        let change_script = if outgoing.offset > 0 && alignment.is_none() {
            copy_bytes(&change[0])
        } else {
            copy_bytes(&change[1])
        };
        let (inputs, outputs) = match align(
            outgoing,
            amount,
            inscriptions,
            amounts,
            alignment,
            change,
        ) {
            Ok(aligned) => aligned,
            Err(error) => {
                return Err(error);
            },
        };
        fund(
            inputs,
            outputs,
            outgoing,
            amount,
            inscriptions,
            amounts,
            commit,
            change_script,
            fee_rate,
        )
    }
}

} // verus!
