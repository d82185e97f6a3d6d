use vstd::prelude::*;
use crate::bytes::copy_bytes;
use crate::commitment::{commit_to, commitment_of, Commitment, CommitmentView};
use crate::consensus::{txid_of, MAX_STANDARD_TX_WEIGHT};
use crate::error::Error;
use crate::fee_rate::FeeRate;
use crate::inscribed::{inscribed_on, Inscribed, InscriptionSet};
use crate::inscription::Inscription;
use crate::keys::fresh_secret_key;
use crate::outpoint::{InscriptionId, OutPoint, SatPoint};
use crate::plan::{
    answers, commitments_of, commitments_refusal, early_refusal, is_plan,
    lemma_commitments_refusal_stays, lemma_plan_links, lemma_reveals_refusal_stays,
    paid_commit_fee, paid_reveal_fee, planned_commit, request_of, reveals_refusal,
    signing_refusal, unsignable_at, wanted_outputs, Plan, Request,
};
use crate::reveal_tx::{build_reveal_transaction, finish_reveal, is_reveal, reveal_fee};
use crate::transaction::{
    outputs_view, sum_outputs, total_value, Transaction, TransactionView, TxInView, TxOut,
};
use crate::transaction_builder::{
    check_not_inscribed, conflict, refusal, total_input, TransactionBuilder,
    DEFAULT_TARGET_POSTAGE,
};
use crate::utxo::{holds, Utxo, UtxoSet};

verus! {

/// Whether `i` is the first place of `utxos` whose output bears no
/// inscription.
pub open spec fn first_cardinal(utxos: Seq<Utxo>, inscriptions: Seq<Inscribed>, i: int) -> bool {
    &&& 0 <= i < utxos.len()
    &&& !inscribed_on(inscriptions, utxos[i].outpoint)
    &&& forall|j: int| 0 <= j < i ==> inscribed_on(inscriptions, (#[trigger] utxos[j]).outpoint)
}

/// Whether the wallet holds an output that bears no inscription.
pub open spec fn has_cardinal(utxos: Seq<Utxo>, inscriptions: Seq<Inscribed>) -> bool {
    exists|i: int| 0 <= i < utxos.len() && !inscribed_on(inscriptions, (#[trigger] utxos[i]).outpoint)
}

/// The satoshi to inscribe: the one named or, where none is named, the
/// first satoshi of the wallet's first output that bears no inscription.
pub open spec fn chosen_satpoint(
    satpoint: Option<SatPoint>,
    inscriptions: Seq<Inscribed>,
    utxos: Seq<Utxo>,
) -> Option<SatPoint> {
    match satpoint {
        Some(named) => Some(named),
        None => if has_cardinal(utxos, inscriptions) {
            let i = choose|i: int| first_cardinal(utxos, inscriptions, i);
            Some(SatPoint { outpoint: utxos[i].outpoint, offset: 0 })
        } else {
            None
        },
    }
}

/// Picks the satoshi to inscribe; fails where none is named and the
/// wallet holds no output without an inscription.
pub fn choose_satpoint(
    satpoint: Option<SatPoint>,
    inscriptions: &InscriptionSet,
    utxos: &UtxoSet,
) -> (r: Result<SatPoint, Error>)
    ensures
        r == match chosen_satpoint(satpoint, inscriptions@, utxos@) {
            Some(chosen) => Ok::<SatPoint, Error>(chosen),
            None => Err(Error::NoCardinalUtxos),
        },
{
    match satpoint {
        Some(named) => Ok(named),
        None => {
            let mut i: usize = 0;
            while i < utxos.len()
                invariant
                    satpoint is None,
                    i <= utxos@.len(),
                    forall|j: int|
                        0 <= j < i ==> inscribed_on(
                            inscriptions@,
                            (#[trigger] utxos@[j]).outpoint,
                        ),
                decreases utxos@.len() - i,
            {
                let utxo = utxos.entry(i);
                if inscriptions.first_inscribed_on(&utxo.outpoint).is_none() {
                    proof {
                        assert(first_cardinal(utxos@, inscriptions@, i as int));
                        let chosen = choose|k: int| first_cardinal(utxos@, inscriptions@, k);
                        assert(chosen == i);
                    }
                    return Ok(SatPoint { outpoint: utxo.outpoint, offset: 0 });
                }
                i += 1;
            }
            Err(Error::NoCardinalUtxos)
        },
    }
}

/// When the planner may refuse with an error, whatever keys it draws.
/// That no satoshi could be chosen, that the chosen one bears an
/// inscription or is not the wallet's, and that a reveal transaction is
/// too heavy, is reported of such requests only. The other refusals
/// depend on the keys as well; a fee rate is never refused, and no wallet
/// is asked.
pub open spec fn may_refuse(
    error: Error,
    chosen: Option<SatPoint>,
    inscriptions: Seq<Inscribed>,
    utxos: Seq<Utxo>,
    no_limit: bool,
) -> bool {
    match error {
        Error::NoCardinalUtxos => chosen is None,
        Error::SatAlreadyInscribed { .. } | Error::UtxoAlreadyInscribed { .. } => chosen is Some
            && conflict(inscriptions, chosen->Some_0) == Some(error),
        Error::NotInWallet { .. } | Error::OutOfRange { .. } => chosen is Some && refusal(
            chosen->Some_0,
            inscriptions,
            utxos,
        ) == Some(error),
        Error::WeightExceeded { weight } => !no_limit && weight > MAX_STANDARD_TX_WEIGHT,
        Error::InvalidFeeRate | Error::RecoveryKeyImport => false,
        _ => chosen is Some && conflict(inscriptions, chosen->Some_0) is None,
    }
}

/// What is reported of a plan: the satoshi, the ids of the commit
/// transaction and of the reveal transactions, which are the ids of the
/// inscriptions too, and the fees that all of them pay together.
#[derive(Clone, Debug, PartialEq, Eq)]
pub struct Output {
    pub satpoint: SatPoint,
    pub commit: [u8; 32],
    pub inscriptions: Vec<InscriptionId>,
    pub reveals: Vec<[u8; 32]>,
    pub fees: u64,
}

/// The fees that the first `n` reveal transactions pay together.
pub open spec fn paid_reveal_fees(commit: TransactionView, reveals: Seq<Transaction>, n: int) -> int
    decreases n,
{
    if n <= 0 {
        0
    } else {
        paid_reveal_fees(commit, reveals, n - 1) + paid_reveal_fee(commit, reveals[n - 1]@)
    }
}

/// Whether `output` reports the plan: its satoshi, the ids of its
/// transactions, and the fees that they pay, the commit transaction out
/// of the wallet's outputs and each reveal transaction out of the commit
/// output that it spends.
pub open spec fn reports(output: Output, plan: Plan, utxos: Seq<Utxo>) -> bool {
    &&& output.satpoint == plan.satpoint
    &&& output.commit == txid_of(plan.commit_tx@)
    &&& output.reveals@.len() == plan.reveal_txs@.len()
    &&& output.inscriptions@.len() == plan.reveal_txs@.len()
    &&& forall|i: int|
        0 <= i < plan.reveal_txs@.len() ==> (#[trigger] output.reveals@[i]) == txid_of(
            plan.reveal_txs@[i]@,
        ) && output.inscriptions@[i].txid == output.reveals@[i]
    &&& output.fees == paid_commit_fee(plan.commit_tx@, utxos) + paid_reveal_fees(
        plan.commit_tx@,
        plan.reveal_txs@,
        plan.reveal_txs@.len() as int,
    )
}

/// Whether each reveal transaction has one input and one output, and
/// spends an output of the commit transaction that is worth no less than
/// its own output.
pub open spec fn reveals_spend_commit(plan: Plan) -> bool {
    forall|k: int|
        0 <= k < plan.reveal_txs@.len() ==> {
            let reveal = (#[trigger] plan.reveal_txs@[k])@;
            &&& reveal.input.len() == 1
            &&& reveal.output.len() == 1
            &&& reveal.input[0].previous_output.vout < plan.commit_tx@.output.len()
            &&& plan.commit_tx@.output[reveal.input[0].previous_output.vout as int].value
                >= reveal.output[0].value
        }
}

/// Whether the fees of a plan can be told and fit in 64 bits: `utxos`
/// holds what the commit transaction spends, and what all transactions
/// pay together is no more than 64 bits hold.
pub open spec fn fees_fit(plan: Plan, utxos: Seq<Utxo>) -> bool {
    fee_defined(plan.commit_tx@, utxos) && paid_commit_fee(plan.commit_tx@, utxos)
        + paid_reveal_fees(plan.commit_tx@, plan.reveal_txs@, plan.reveal_txs@.len() as int)
        <= u64::MAX
}

/// The first reveal transactions pay no more than all of them.
pub proof fn lemma_paid_reveal_fees_grow(plan: Plan, m: int, n: int)
    requires
        reveals_spend_commit(plan),
        0 <= m <= n <= plan.reveal_txs@.len(),
    ensures
        paid_reveal_fees(plan.commit_tx@, plan.reveal_txs@, m) <= paid_reveal_fees(
            plan.commit_tx@,
            plan.reveal_txs@,
            n,
        ),
    decreases n - m,
{
    if m < n {
        lemma_paid_reveal_fees_grow(plan, m, n - 1);
        assert(paid_reveal_fee(plan.commit_tx@, plan.reveal_txs@[n - 1]@) >= 0);
    }
}

/// Whether `r` is what a run answers a request with the keys: a plan and
/// its report only where nothing refuses the request and the fees fit;
/// the signing error only where signing may fail; any other error only
/// where it is the refusal that the request and the keys give, or where
/// the plan is made and its fees do not fit.
pub open spec fn run_answers(
    r: Result<(Plan, Output), Error>,
    keys: Seq<[u8; 32]>,
    chosen: Option<SatPoint>,
    request: Request,
    utxos: Seq<Utxo>,
) -> bool {
    match r {
        Ok((plan, output)) => answers(Ok(plan), keys, chosen, request) && reports(
            output,
            plan,
            utxos,
        ) && fees_fit(plan, utxos),
        Err(Error::Signing) => answers(Err(Error::Signing), keys, chosen, request),
        Err(error) => answers(Err(error), keys, chosen, request) || (error
            == Error::ValueOverflow && exists|plan: Plan|
            #[trigger] answers(Ok(plan), keys, chosen, request) && !fees_fit(plan, utxos)),
    }
}

/// Reports a plan: the ids of its transactions and the fees that they
/// pay together.
fn report(plan: &Plan, utxos: &UtxoSet) -> (r: Result<Output, Error>)
    requires
        reveals_spend_commit(*plan),
    ensures
        match r {
            Ok(output) => reports(output, *plan, utxos@) && fees_fit(*plan, utxos@),
            Err(error) => error == Error::ValueOverflow && !fees_fit(*plan, utxos@),
        },
{
    let mut fees: u64 = match Inscribe::checked_fee(&plan.commit_tx, utxos) {
        Some(fee) => fee,
        None => {
            return Err(Error::ValueOverflow);
        },
    };
    let commit = plan.commit_tx.txid();
    let mut reveals: Vec<[u8; 32]> = Vec::new();
    let mut ids: Vec<InscriptionId> = Vec::new();
    let mut i: usize = 0;
    while i < plan.reveal_txs.len()
        invariant
            reveals_spend_commit(*plan),
            i <= plan.reveal_txs@.len(),
            reveals@.len() == i,
            ids@.len() == i,
            forall|k: int|
                0 <= k < i ==> (#[trigger] reveals@[k]) == txid_of(plan.reveal_txs@[k]@)
                    && ids@[k].txid == reveals@[k],
            fees == paid_commit_fee(plan.commit_tx@, utxos@) + paid_reveal_fees(
                plan.commit_tx@,
                plan.reveal_txs@,
                i as int,
            ),
        decreases plan.reveal_txs@.len() - i,
    {
        let reveal = &plan.reveal_txs[i];
        let ghost view = plan.reveal_txs@[i as int]@;
        assert(view.input[0] == reveal.input@[0]@);
        assert(view.output[0] == reveal.output@[0]@);
        let vout: usize = reveal.input[0].previous_output.vout as usize;
        assert(plan.commit_tx@.output[vout as int] == plan.commit_tx.output@[vout as int]@);
        let fee: u64 = plan.commit_tx.output[vout].value - reveal.output[0].value;
        if fee > u64::MAX - fees {
            proof {
                lemma_paid_reveal_fees_grow(*plan, i + 1, plan.reveal_txs@.len() as int);
            }
            return Err(Error::ValueOverflow);
        }
        fees = fees + fee;
        let txid = reveal.txid();
        reveals.push(txid);
        ids.push(InscriptionId { txid });
        i += 1;
    }
    Ok(Output { satpoint: plan.satpoint, commit, inscriptions: ids, reveals, fees })
}

/// What a user chose for inscribing.
#[derive(Clone, Debug, PartialEq, Eq)]
pub struct Inscribe {
    pub satpoint: Option<SatPoint>,
    pub fee_rate: FeeRate,
    pub commit_fee_rate: Option<FeeRate>,
    pub no_backup: bool,
    pub no_limit: bool,
    pub dry_run: bool,
    pub alignment: Option<Vec<u8>>,
    pub postage: Option<u64>,
}

/// Whether the fee of a transaction can be told from `utxos`: they hold
/// each output that it spends, and what its inputs bring in fits in 64
/// bits and covers its outputs.
pub open spec fn fee_defined(tx: TransactionView, utxos: Seq<Utxo>) -> bool {
    &&& forall|i: int| 0 <= i < tx.input.len() ==> holds(utxos, (#[trigger] tx.input[i]).previous_output)
    &&& total_value(tx.output) <= total_input(utxos, tx.input) <= u64::MAX
}

/// What the first `n` inputs bring in is no more than what all bring in.
pub proof fn lemma_total_input_grows(utxos: Seq<Utxo>, inputs: Seq<TxInView>, n: int)
    requires
        0 <= n <= inputs.len(),
    ensures
        total_input(utxos, inputs.take(n)) <= total_input(utxos, inputs),
    decreases inputs.len() - n,
{
    if n == inputs.len() {
        assert(inputs.take(n) =~= inputs);
    } else {
        lemma_total_input_grows(utxos, inputs, n + 1);
        assert(inputs.take(n + 1).drop_last() =~= inputs.take(n));
    }
}

/// What the inputs of a transaction bring in, where `utxos` holds each
/// output that they spend and the sum fits in 64 bits.
pub fn sum_inputs(tx: &Transaction, utxos: &UtxoSet) -> (r: Option<u64>)
    ensures
        match r {
            Some(sum) => sum == total_input(utxos@, tx@.input) && forall|i: int|
                0 <= i < tx@.input.len() ==> holds(utxos@, (#[trigger] tx@.input[i]).previous_output),
            None => total_input(utxos@, tx@.input) > u64::MAX || exists|i: int|
                0 <= i < tx@.input.len() && !holds(utxos@, (#[trigger] tx@.input[i]).previous_output),
        },
{
    let ghost inputs = tx@.input;
    let mut sum: u64 = 0;
    let mut i: usize = 0;
    assert(inputs.take(0) =~= Seq::<TxInView>::empty());
    while i < tx.input.len()
        invariant
            i <= tx.input@.len(),
            inputs == tx@.input,
            inputs.len() == tx.input@.len(),
            sum == total_input(utxos@, inputs.take(i as int)),
            forall|k: int| 0 <= k < i ==> holds(utxos@, (#[trigger] inputs[k]).previous_output),
        decreases tx.input@.len() - i,
    {
        proof {
            assert(inputs.take(i + 1).drop_last() =~= inputs.take(i as int));
            assert(inputs.take(i + 1).last() == inputs[i as int]);
            assert(inputs[i as int] == tx.input@[i as int]@);
        }
        let value: u64 = match utxos.get(&tx.input[i].previous_output) {
            Some(value) => value,
            None => {
                assert(!holds(utxos@, inputs[i as int].previous_output));
                return None;
            },
        };
        if value > u64::MAX - sum {
            proof {
                lemma_total_input_grows(utxos@, inputs, i + 1);
            }
            return None;
        }
        sum = sum + value;
        i += 1;
    }
    assert(inputs.take(i as int) =~= inputs);
    Some(sum)
}

/// The views of some commitments.
pub open spec fn commitment_views(commitments: Seq<Commitment>) -> Seq<CommitmentView> {
    Seq::new(commitments.len(), |i: int| commitments[i]@)
}

/// As many fresh secret keys as asked for.
fn fresh_keys(n: usize) -> (keys: Vec<[u8; 32]>)
    ensures
        keys@.len() == n,
{
    let mut keys: Vec<[u8; 32]> = Vec::new();
    while keys.len() < n
        invariant
            keys@.len() <= n,
        decreases n - keys@.len(),
    {
        keys.push(fresh_secret_key());
    }
    keys
}

/// What is done with a plan once it is made.
#[derive(Clone, Copy, Debug, PartialEq, Eq, Structural)]
pub enum Action {
    /// The plan is reported; nothing is signed or sent.
    Report,
    /// The commit transaction is signed by the wallet and sent, the reveal
    /// transactions are sent after it, and what was sent is reported.
    /// Before that the recovery keys are put into the wallet if `backup`
    /// is set.
    Broadcast { backup: bool },
}

impl Inscribe {
    /// What is done with the plan: a dry run reports it; else it is
    /// sent, after the recovery keys are backed up unless the user chose
    /// not to.
    pub fn action(&self) -> (action: Action)
        ensures
            action == if self.dry_run {
                Action::Report
            } else {
                (Action::Broadcast { backup: !self.no_backup })
            },
    {
        if self.dry_run {
            Action::Report
        } else {
            Action::Broadcast { backup: !self.no_backup }
        }
    }

    /// The fee that a transaction pays: what its inputs bring in, as
    /// `utxos` knows the outputs that they spend, less what its outputs
    /// carry. `None` where the fee cannot be told.
    pub fn checked_fee(tx: &Transaction, utxos: &UtxoSet) -> (fee: Option<u64>)
        ensures
            fee is Some <==> fee_defined(tx@, utxos@),
            fee matches Some(fee) ==> fee == total_input(utxos@, tx@.input) - total_value(
                tx@.output,
            ),
    {
        let brought: u64 = match sum_inputs(tx, utxos) {
            Some(brought) => brought,
            None => {
                return None;
            },
        };
        let carried: u64 = match sum_outputs(&tx.output) {
            Some(carried) => carried,
            None => {
                return None;
            },
        };
        if carried > brought {
            return None;
        }
        Some(brought - carried)
    }

    /// The fee that a transaction pays: what its inputs bring in, as
    /// `utxos` knows the outputs that they spend, less what its outputs
    /// carry.
    pub fn calculate_fee(tx: &Transaction, utxos: &UtxoSet) -> (fee: u64)
        requires
            fee_defined(tx@, utxos@),
        ensures
            fee == total_input(utxos@, tx@.input) - total_value(tx@.output),
    {
        match Inscribe::checked_fee(tx, utxos) {
            Some(fee) => fee,
            None => 0,
        }
    }

    /// Plans the transactions that inscribe `inscription`, one after the
    /// other, on the satoshi `satpoint`, or on the first satoshi of the
    /// wallet's first cardinal output where none is named.
    ///
    /// A fresh key pair is made for each inscription. The commit
    /// transaction pays to the Taproot output of each pair, which commits
    /// to the inscription's reveal script; each reveal transaction spends
    /// its output to `destination` and shows the script.
    pub fn create_inscription_transactions(
        satpoint: Option<SatPoint>,
        inscription: &Vec<Inscription>,
        inscriptions: &InscriptionSet,
        utxos: &UtxoSet,
        change: &[Vec<u8>; 2],
        destination: &Vec<u8>,
        alignment: Option<Vec<u8>>,
        commit_fee_rate: FeeRate,
        reveal_fee_rate: FeeRate,
        no_limit: bool,
        postage: u64,
    ) -> (r: Result<Plan, Error>)
        requires
            inscription@.len() >= 1,
            forall|i: int|
                0 <= i < inscription@.len() ==> (#[trigger] inscription@[i])@.content_type.len()
                    < 0x1_0000_0000,
        ensures
            chosen_satpoint(satpoint, inscriptions@, utxos@) is None ==> r == Err::<Plan, Error>(
                Error::NoCardinalUtxos,
            ),
            chosen_satpoint(satpoint, inscriptions@, utxos@) matches Some(chosen) ==> (conflict(
                inscriptions@,
                chosen,
            ) matches Some(error) ==> r == Err::<Plan, Error>(error)),
            exists|keys: Seq<[u8; 32]>|
                #[trigger] answers(
                    r,
                    keys,
                    chosen_satpoint(satpoint, inscriptions@, utxos@),
                    request_of(
                        inscription@,
                        inscriptions@,
                        utxos@,
                        change@,
                        destination@,
                        alignment,
                        commit_fee_rate,
                        reveal_fee_rate,
                        no_limit,
                        postage,
                    ),
                ),
            r matches Err(error) ==> may_refuse(
                error,
                chosen_satpoint(satpoint, inscriptions@, utxos@),
                inscriptions@,
                utxos@,
                no_limit,
            ),
    {
        let ghost request = request_of(
            inscription@,
            inscriptions@,
            utxos@,
            change@,
            destination@,
            alignment,
            commit_fee_rate,
            reveal_fee_rate,
            no_limit,
            postage,
        );
        let keys = fresh_keys(inscription.len());
        let r = Inscribe::plan_with_keys(
            &keys,
            satpoint,
            inscription,
            inscriptions,
            utxos,
            change,
            destination,
            alignment,
            commit_fee_rate,
            reveal_fee_rate,
            no_limit,
            postage,
        );
        assert(answers(r, keys@, chosen_satpoint(satpoint, inscriptions@, utxos@), request));
        r
    }

    /// Plans the transactions that inscribe `inscription` with the keys
    /// `keys`, the key at each place for the inscription at that place.
    /// But for the signatures, the plan is told by the arguments.
    pub fn plan_with_keys(
        keys: &Vec<[u8; 32]>,
        satpoint: Option<SatPoint>,
        inscription: &Vec<Inscription>,
        inscriptions: &InscriptionSet,
        utxos: &UtxoSet,
        change: &[Vec<u8>; 2],
        destination: &Vec<u8>,
        alignment: Option<Vec<u8>>,
        commit_fee_rate: FeeRate,
        reveal_fee_rate: FeeRate,
        no_limit: bool,
        postage: u64,
    ) -> (r: Result<Plan, Error>)
        requires
            keys@.len() == inscription@.len(),
            inscription@.len() >= 1,
            forall|i: int|
                0 <= i < inscription@.len() ==> (#[trigger] inscription@[i])@.content_type.len()
                    < 0x1_0000_0000,
        ensures
            answers(
                r,
                keys@,
                chosen_satpoint(satpoint, inscriptions@, utxos@),
                request_of(
                    inscription@,
                    inscriptions@,
                    utxos@,
                    change@,
                    destination@,
                    alignment,
                    commit_fee_rate,
                    reveal_fee_rate,
                    no_limit,
                    postage,
                ),
            ),
            early_refusal(
                keys@,
                chosen_satpoint(satpoint, inscriptions@, utxos@),
                request_of(
                    inscription@,
                    inscriptions@,
                    utxos@,
                    change@,
                    destination@,
                    alignment,
                    commit_fee_rate,
                    reveal_fee_rate,
                    no_limit,
                    postage,
                ),
            ) matches Some(error) ==> r == Err::<Plan, Error>(error),
            r matches Err(error) ==> may_refuse(
                error,
                chosen_satpoint(satpoint, inscriptions@, utxos@),
                inscriptions@,
                utxos@,
                no_limit,
            ),
    {
        let ghost request = request_of(
            inscription@,
            inscriptions@,
            utxos@,
            change@,
            destination@,
            alignment,
            commit_fee_rate,
            reveal_fee_rate,
            no_limit,
            postage,
        );
        let chosen = match choose_satpoint(satpoint, inscriptions, utxos) {
            Ok(chosen) => chosen,
            Err(error) => {
                return Err(error);
            },
        };
        match check_not_inscribed(inscriptions, &chosen) {
            Ok(()) => {},
            Err(error) => {
                return Err(error);
            },
        }
        let mut commitments: Vec<Commitment> = Vec::new();
        let mut wanted: Vec<TxOut> = Vec::new();
        let mut i: usize = 0;
        assert(outputs_view(wanted@) =~= wanted_outputs(
            commitment_views(commitments@),
            destination@,
            reveal_fee_rate,
            postage,
        ));
        while i < inscription.len()
            invariant
                chosen_satpoint(satpoint, inscriptions@, utxos@) == Some(chosen),
                conflict(inscriptions@, chosen) is None,
                keys@.len() == inscription@.len(),
                request == request_of(
                    inscription@,
                    inscriptions@,
                    utxos@,
                    change@,
                    destination@,
                    alignment,
                    commit_fee_rate,
                    reveal_fee_rate,
                    no_limit,
                    postage,
                ),
                commitments_refusal(keys@, request, i as int) is None,
                i <= inscription@.len(),
                commitments@.len() == i,
                wanted@.len() == i,
                forall|k: int|
                    0 <= k < inscription@.len() ==> (
                    #[trigger] inscription@[k])@.content_type.len() < 0x1_0000_0000,
                forall|k: int|
                    0 <= k < i ==> commitment_of(keys@[k], inscription@[k]@) == Some(
                        (#[trigger] commitments@[k])@,
                    ) && reveal_fee(commitments@[k]@, destination@, reveal_fee_rate) + postage
                        <= u64::MAX,
                outputs_view(wanted@) == wanted_outputs(
                    commitment_views(commitments@),
                    destination@,
                    reveal_fee_rate,
                    postage,
                ),
            decreases inscription@.len() - i,
        {
            assert(request.inscription[i as int] == inscription@[i as int]@);
            let commitment = match commit_to(&inscription[i], keys[i]) {
                Ok(commitment) => commitment,
                Err(error) => {
                    proof {
                        assert(commitments_refusal(keys@, request, i + 1) == Some(error));
                        lemma_commitments_refusal_stays(
                            keys@,
                            request,
                            i + 1,
                            keys@.len() as int,
                        );
                    }
                    return Err(error);
                },
            };
            let (_, fee) = build_reveal_transaction(
                &commitment.spend.control_block,
                reveal_fee_rate,
                OutPoint::null(),
                TxOut { value: 0, script_pubkey: copy_bytes(destination) },
                &commitment.reveal_script,
            );
            if postage > u64::MAX - fee {
                proof {
                    assert(commitments_refusal(keys@, request, i + 1) == Some(
                        Error::ValueOverflow,
                    ));
                    lemma_commitments_refusal_stays(keys@, request, i + 1, keys@.len() as int);
                }
                return Err(Error::ValueOverflow);
            }
            assert(commitments_refusal(keys@, request, i + 1) is None);
            let ghost asked = outputs_view(wanted@);
            let ghost made = commitments@;
            assert(fee == reveal_fee(commitment@, destination@, reveal_fee_rate));
            wanted.push(
                TxOut { value: fee + postage, script_pubkey: copy_bytes(&commitment.commit_script) },
            );
            commitments.push(commitment);
            proof {
                let now = wanted_outputs(
                    commitment_views(commitments@),
                    destination@,
                    reveal_fee_rate,
                    postage,
                );
                assert(outputs_view(wanted@).len() == now.len());
                assert forall|k: int| 0 <= k < now.len() implies outputs_view(wanted@)[k]
                    == now[k] by {
                    if k < i {
                        assert(outputs_view(wanted@)[k] == asked[k]);
                        assert(commitments@[k] == made[k]);
                    }
                }
                assert(outputs_view(wanted@) =~= now);
            }
            i += 1;
        }
        proof {
            assert(commitment_views(commitments@) =~= commitments_of(keys@, request));
        }
        let ghost made = commitments_of(keys@, request);
        let commit_tx = match TransactionBuilder::build_transaction_with_values(
            chosen,
            inscriptions,
            utxos,
            &wanted,
            alignment,
            change,
            commit_fee_rate,
        ) {
            Ok(commit_tx) => commit_tx,
            Err(error) => {
                return Err(error);
            },
        };
        assert(planned_commit(keys@, chosen, request) == Ok::<TransactionView, Error>(
            commit_tx@,
        ));
        let mut reveal_txs: Vec<Transaction> = Vec::new();
        let mut recovery_keys: Vec<[u8; 32]> = Vec::new();
        let mut i: usize = 0;
        while i < commitments.len()
            invariant
                chosen_satpoint(satpoint, inscriptions@, utxos@) == Some(chosen),
                conflict(inscriptions@, chosen) is None,
                request == request_of(
                    inscription@,
                    inscriptions@,
                    utxos@,
                    change@,
                    destination@,
                    alignment,
                    commit_fee_rate,
                    reveal_fee_rate,
                    no_limit,
                    postage,
                ),
                early_refusal(keys@, Some(chosen), request) is None,
                planned_commit(keys@, chosen, request) == Ok::<TransactionView, Error>(
                    commit_tx@,
                ),
                made == commitment_views(commitments@),
                made == commitments_of(keys@, request),
                keys@.len() == commitments@.len(),
                keys@.len() == inscription@.len(),
                request.destination == destination@,
                request.reveal_fee_rate == reveal_fee_rate,
                request.no_limit == no_limit,
                reveals_refusal(commit_tx@, made, request, i as int) is None,
                i <= commitments@.len(),
                reveal_txs@.len() == i,
                recovery_keys@.len() == i,
                forall|k: int|
                    0 <= k < i ==> is_reveal(
                        (#[trigger] reveal_txs@[k])@,
                        recovery_keys@[k],
                        commit_tx@,
                        commitments@[k]@,
                        destination@,
                        reveal_fee_rate,
                        no_limit,
                    ),
            decreases commitments@.len() - i,
        {
            let (reveal_tx, recovery_key) = match finish_reveal(
                &commit_tx,
                &commitments[i],
                destination,
                reveal_fee_rate,
                no_limit,
            ) {
                Ok(finished) => finished,
                Err(error) => {
                    proof {
                        assert(made[i as int] == commitments@[i as int]@);
                        if error != Error::Signing {
                            assert(reveals_refusal(commit_tx@, made, request, i + 1) == Some(
                                error,
                            ));
                            lemma_reveals_refusal_stays(
                                commit_tx@,
                                made,
                                request,
                                i + 1,
                                keys@.len() as int,
                            );
                        } else {
                            assert(unsignable_at(keys@, chosen, request, i as int));
                            assert(signing_refusal(keys@, Some(chosen), request));
                        }
                    }
                    return Err(error);
                },
            };
            proof {
                assert(made[i as int] == commitments@[i as int]@);
                assert(reveals_refusal(commit_tx@, made, request, i + 1) is None);
            }
            reveal_txs.push(reveal_tx);
            recovery_keys.push(recovery_key);
            i += 1;
        }
        let plan = Plan { satpoint: chosen, commit_tx, reveal_txs, recovery_keys };
        proof {
            let made = commitments_of(keys@, request);
            assert(made == commitment_views(commitments@));
            assert forall|k: int| 0 <= k < keys@.len() implies commitment_of(
                #[trigger] keys@[k],
                request.inscription[k],
            ) is Some && reveal_fee(made[k], request.destination, request.reveal_fee_rate)
                + request.postage <= u64::MAX by {
                assert(commitment_of(keys@[k], inscription@[k]@) == Some(commitments@[k]@));
                assert(made[k] == commitments@[k]@);
            }
            assert forall|k: int| 0 <= k < keys@.len() implies is_reveal(
                (#[trigger] plan.reveal_txs@[k])@,
                plan.recovery_keys@[k],
                plan.commit_tx@,
                made[k],
                request.destination,
                request.reveal_fee_rate,
                request.no_limit,
            ) by {
                assert(made[k] == commitments@[k]@);
            }
        }
        assert(is_plan(plan, keys@, request));
        Ok(plan)
    }

    /// The fee rate of the commit transaction: the one chosen for it, or
    /// else the fee rate of the reveal transactions.
    pub open spec fn spec_commit_fee_rate(self) -> FeeRate {
        match self.commit_fee_rate {
            Some(rate) => rate,
            None => self.fee_rate,
        }
    }

    /// The postage: the one chosen, or else 10000 satoshis.
    pub open spec fn spec_postage(self) -> u64 {
        match self.postage {
            Some(postage) => postage,
            None => DEFAULT_TARGET_POSTAGE,
        }
    }

    /// The request that the user's choices make of the planner.
    pub open spec fn spec_request(
        self,
        inscription: Seq<Inscription>,
        inscribed: Seq<Inscribed>,
        utxos: Seq<Utxo>,
        change: Seq<Vec<u8>>,
        destination: Seq<u8>,
    ) -> Request {
        request_of(
            inscription,
            inscribed,
            utxos,
            change,
            destination,
            self.alignment,
            self.spec_commit_fee_rate(),
            self.fee_rate,
            self.no_limit,
            self.spec_postage(),
        )
    }

    /// Plans the inscription that the user chose and reports it.
    ///
    /// The wallet's unspent outputs, the satoshis inscribed already, two
    /// change scripts and the script that receives the inscriptions are
    /// handed in; nothing is signed for the wallet and nothing is sent.
    pub fn run(
        &self,
        inscription: &Vec<Inscription>,
        inscriptions: &InscriptionSet,
        utxos: &UtxoSet,
        change: &[Vec<u8>; 2],
        destination: &Vec<u8>,
    ) -> (r: Result<(Plan, Output), Error>)
        requires
            inscription@.len() >= 1,
            forall|i: int|
                0 <= i < inscription@.len() ==> (#[trigger] inscription@[i])@.content_type.len()
                    < 0x1_0000_0000,
        ensures
            chosen_satpoint(self.satpoint, inscriptions@, utxos@) is None ==> r == Err::<
                (Plan, Output),
                Error,
            >(Error::NoCardinalUtxos),
            chosen_satpoint(self.satpoint, inscriptions@, utxos@) matches Some(chosen) ==> (
            conflict(inscriptions@, chosen) matches Some(error) ==> r == Err::<
                (Plan, Output),
                Error,
            >(error)),
            exists|keys: Seq<[u8; 32]>|
                #[trigger] run_answers(
                    r,
                    keys,
                    chosen_satpoint(self.satpoint, inscriptions@, utxos@),
                    self.spec_request(inscription@, inscriptions@, utxos@, change@, destination@),
                    utxos@,
                ),
            r matches Err(error) ==> may_refuse(
                error,
                chosen_satpoint(self.satpoint, inscriptions@, utxos@),
                inscriptions@,
                utxos@,
                self.no_limit,
            ),
    {
        let commit_fee_rate = match self.commit_fee_rate {
            Some(rate) => rate,
            None => self.fee_rate,
        };
        let postage: u64 = match self.postage {
            Some(postage) => postage,
            None => DEFAULT_TARGET_POSTAGE,
        };
        let alignment = match &self.alignment {
            Some(script) => Some(copy_bytes(script)),
            None => None,
        };
        let ghost chosen = chosen_satpoint(self.satpoint, inscriptions@, utxos@);
        let ghost request = self.spec_request(
            inscription@,
            inscriptions@,
            utxos@,
            change@,
            destination@,
        );
        assert(request == request_of(
            inscription@,
            inscriptions@,
            utxos@,
            change@,
            destination@,
            alignment,
            commit_fee_rate,
            self.fee_rate,
            self.no_limit,
            postage,
        ));
        let planned = Inscribe::create_inscription_transactions(
            self.satpoint,
            inscription,
            inscriptions,
            utxos,
            change,
            destination,
            alignment,
            commit_fee_rate,
            self.fee_rate,
            self.no_limit,
            postage,
        );
        let ghost keys = choose|keys: Seq<[u8; 32]>| answers(planned, keys, chosen, request);
        assert(answers(planned, keys, chosen, request));
        let plan = match planned {
            Ok(plan) => plan,
            Err(error) => {
                let r: Result<(Plan, Output), Error> = Err(error);
                assert(run_answers(r, keys, chosen, request, utxos@));
                return r;
            },
        };
        assert(answers(Ok(plan), keys, chosen, request));
        proof {
            lemma_plan_links(plan, keys, request);
        }
        match report(&plan, utxos) {
            Ok(output) => {
                let r: Result<(Plan, Output), Error> = Ok((plan, output));
                assert(run_answers(r, keys, chosen, request, utxos@));
                r
            },
            Err(error) => {
                let r: Result<(Plan, Output), Error> = Err(error);
                assert(run_answers(r, keys, chosen, request, utxos@));
                r
            },
        }
    }
}

} // verus!
