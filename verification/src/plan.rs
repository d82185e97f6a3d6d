use vstd::prelude::*;
use crate::commitment::{commitment_of, CommitmentView};
use crate::consensus::{txid_of, weight_of};
use crate::error::Error;
use crate::fee_rate::FeeRate;
use crate::inscribed::Inscribed;
use crate::inscription::{
    lemma_reveal_script_round_trip, read_reveal_script, Inscription, InscriptionView,
};
use crate::keys::{public_key_of, schnorr_verifies};
use crate::outpoint::SatPoint;
use crate::reveal_tx::{
    is_reveal, late_refusal, pays_once, reveal_fee, reveal_refusal, reveal_sighash_of, reveals,
    unsignable, unsigned_input,
};
use crate::script::p2tr_script_bytes;
use crate::transaction::{signals_rbf, total_value, Transaction, TransactionView, TxOutView};
use crate::transaction_builder::{
    commit_of, conflict, is_commit, lead_of, script_view, signed_weight, total_input,
};
use crate::utxo::Utxo;

verus! {

/// What the planner hands back: the satoshi that is inscribed, the commit
/// transaction, still unsigned, and for each inscription, in their order,
/// its signed reveal transaction and its recovery key.
#[derive(Clone, Debug, PartialEq, Eq)]
pub struct Plan {
    pub satpoint: SatPoint,
    pub commit_tx: Transaction,
    pub reveal_txs: Vec<Transaction>,
    pub recovery_keys: Vec<[u8; 32]>,
}

/// The outputs that the commit transaction is asked for: to each
/// commitment's script, the fee of its reveal transaction and the postage.
pub open spec fn wanted_outputs(
    commitments: Seq<CommitmentView>,
    destination: Seq<u8>,
    rate: FeeRate,
    postage: u64,
) -> Seq<TxOutView> {
    Seq::new(
        commitments.len(),
        |i: int|
            TxOutView {
                value: (reveal_fee(commitments[i], destination, rate) + postage) as u64,
                script_pubkey: commitments[i].commit_script,
            },
    )
}

/// What a plan is asked for: what to inscribe, what the wallet holds and
/// what is inscribed already, where change, the inscriptions and the
/// alignment output go, and the fee rates, the limit and the postage.
pub ghost struct Request {
    pub inscription: Seq<InscriptionView>,
    pub inscribed: Seq<Inscribed>,
    pub utxos: Seq<Utxo>,
    pub first_change: Seq<u8>,
    pub second_change: Seq<u8>,
    pub destination: Seq<u8>,
    pub alignment: Option<Seq<u8>>,
    pub commit_fee_rate: FeeRate,
    pub reveal_fee_rate: FeeRate,
    pub no_limit: bool,
    pub postage: u64,
}

/// The views of some inscriptions.
pub open spec fn inscription_views(inscription: Seq<Inscription>) -> Seq<InscriptionView> {
    Seq::new(inscription.len(), |i: int| inscription[i]@)
}

/// The request that the arguments of the planner make.
pub open spec fn request_of(
    inscription: Seq<Inscription>,
    inscribed: Seq<Inscribed>,
    utxos: Seq<Utxo>,
    change: Seq<Vec<u8>>,
    destination: Seq<u8>,
    alignment: Option<Vec<u8>>,
    commit_fee_rate: FeeRate,
    reveal_fee_rate: FeeRate,
    no_limit: bool,
    postage: u64,
) -> Request {
    Request {
        inscription: inscription_views(inscription),
        inscribed,
        utxos,
        first_change: change[0]@,
        second_change: change[1]@,
        destination,
        alignment: script_view(alignment),
        commit_fee_rate,
        reveal_fee_rate,
        no_limit,
        postage,
    }
}

/// The commitments of the keys to the inscriptions of a request, one for
/// one: the commitment at place `i` is that of the key at place `i` to
/// the inscription at place `i`.
pub open spec fn commitments_of(keys: Seq<[u8; 32]>, request: Request) -> Seq<CommitmentView> {
    Seq::new(keys.len(), |i: int| commitment_of(keys[i], request.inscription[i])->Some_0)
}

/// Whether the plan answers the request with the keys. There is a key
/// for each inscription, and it can commit to it; the commit transaction
/// is the one that the builder makes for the satoshi and for the outputs
/// that pay to each commitment's script, in their order, the fee of its
/// reveal transaction and the postage; and each reveal transaction
/// reveals its commitment.
pub open spec fn is_plan(plan: Plan, keys: Seq<[u8; 32]>, request: Request) -> bool {
    let commitments = commitments_of(keys, request);
    let wanted = wanted_outputs(
        commitments_of(keys, request),
        request.destination,
        request.reveal_fee_rate,
        request.postage,
    );
    &&& keys.len() == request.inscription.len()
    &&& plan.reveal_txs@.len() == request.inscription.len()
    &&& plan.recovery_keys@.len() == request.inscription.len()
    &&& forall|i: int|
        0 <= i < keys.len() ==> commitment_of(#[trigger] keys[i], request.inscription[i]) is Some
            && reveal_fee(commitments[i], request.destination, request.reveal_fee_rate)
            + request.postage <= u64::MAX
    &&& commit_of(
        plan.satpoint,
        request.inscribed,
        request.utxos,
        wanted,
        request.alignment,
        request.first_change,
        request.second_change,
        request.commit_fee_rate,
    ) == Ok::<TransactionView, Error>(plan.commit_tx@)
    &&& is_commit(
        plan.commit_tx@,
        plan.satpoint,
        request.inscribed,
        request.utxos,
        wanted,
        request.commit_fee_rate,
    )
    &&& forall|i: int|
        0 <= i < keys.len() ==> is_reveal(
            (#[trigger] plan.reveal_txs@[i])@,
            plan.recovery_keys@[i],
            plan.commit_tx@,
            commitments_of(keys, request)[i],
            request.destination,
            request.reveal_fee_rate,
            request.no_limit,
        )
}

/// Why the first `n` keys cannot commit to their inscriptions, if they
/// cannot: a key that is no secret key or whose Taproot output cannot be
/// made, or a reveal fee that with the postage does not fit in 64 bits.
/// The first failure, in the order of the inscriptions, is reported.
pub open spec fn commitments_refusal(keys: Seq<[u8; 32]>, request: Request, n: int) -> Option<
    Error,
>
    decreases n,
{
    if n <= 0 {
        None
    } else {
        match commitments_refusal(keys, request, n - 1) {
            Some(error) => Some(error),
            None => match commitment_of(keys[n - 1], request.inscription[n - 1]) {
                None => Some(Error::Commitment),
                Some(commitment) => if reveal_fee(
                    commitment,
                    request.destination,
                    request.reveal_fee_rate,
                ) + request.postage > u64::MAX {
                    Some(Error::ValueOverflow)
                } else {
                    None
                },
            },
        }
    }
}

/// Why the first `n` reveal transactions are refused, signing aside: the
/// first failure, in the order of the inscriptions, to find and to spend
/// the commit output, to recover, or to keep the weight.
pub open spec fn reveals_refusal(
    commit: TransactionView,
    commitments: Seq<CommitmentView>,
    request: Request,
    n: int,
) -> Option<Error>
    decreases n,
{
    if n <= 0 {
        None
    } else {
        match reveals_refusal(commit, commitments, request, n - 1) {
            Some(error) => Some(error),
            None => match reveal_refusal(
                commit,
                commitments[n - 1],
                request.destination,
                request.reveal_fee_rate,
            ) {
                Some(error) => Some(error),
                None => late_refusal(commitments[n - 1], request.destination, request.no_limit),
            },
        }
    }
}

/// The commit transaction of a request with the keys.
pub open spec fn planned_commit(keys: Seq<[u8; 32]>, chosen: SatPoint, request: Request) -> Result<
    TransactionView,
    Error,
> {
    commit_of(
        chosen,
        request.inscribed,
        request.utxos,
        wanted_outputs(
            commitments_of(keys, request),
            request.destination,
            request.reveal_fee_rate,
            request.postage,
        ),
        request.alignment,
        request.first_change,
        request.second_change,
        request.commit_fee_rate,
    )
}

/// Why a request is refused before any reveal transaction is made: no
/// satoshi to inscribe is found, the one found bears an inscription, a
/// key cannot commit, or the commit transaction cannot be built.
pub open spec fn early_refusal(
    keys: Seq<[u8; 32]>,
    chosen: Option<SatPoint>,
    request: Request,
) -> Option<Error> {
    match chosen {
        None => Some(Error::NoCardinalUtxos),
        Some(chosen) => match conflict(request.inscribed, chosen) {
            Some(error) => Some(error),
            None => match commitments_refusal(keys, request, keys.len() as int) {
                Some(error) => Some(error),
                None => match planned_commit(keys, chosen, request) {
                    Err(error) => Some(error),
                    Ok(_) => None,
                },
            },
        }
    }
}

/// Why a request is refused with the keys, signing aside.
pub open spec fn plan_refusal(
    keys: Seq<[u8; 32]>,
    chosen: Option<SatPoint>,
    request: Request,
) -> Option<Error> {
    match early_refusal(keys, chosen, request) {
        Some(error) => Some(error),
        None => reveals_refusal(
            planned_commit(keys, chosen->Some_0, request)->Ok_0,
            commitments_of(keys, request),
            request,
            keys.len() as int,
        ),
    }
}

/// Whether the reveal transaction at place `i` is the one that cannot be
/// signed: those before it are made, it is prepared, and its signing may
/// fail.
pub open spec fn unsignable_at(
    keys: Seq<[u8; 32]>,
    chosen: SatPoint,
    request: Request,
    i: int,
) -> bool {
    let commit = planned_commit(keys, chosen, request)->Ok_0;
    let commitments = commitments_of(keys, request);
    &&& 0 <= i < keys.len()
    &&& reveals_refusal(commit, commitments, request, i) is None
    &&& reveal_refusal(commit, commitments[i], request.destination, request.reveal_fee_rate)
        is None
    &&& unsignable(commit, commitments[i], request.destination, request.reveal_fee_rate)
}

/// Whether a request may be refused with the keys because a reveal
/// transaction cannot be signed: nothing is refused before the reveal
/// transactions, and one of them is the one that cannot be signed.
pub open spec fn signing_refusal(
    keys: Seq<[u8; 32]>,
    chosen: Option<SatPoint>,
    request: Request,
) -> bool {
    early_refusal(keys, chosen, request) is None && exists|i: int|
        #[trigger] unsignable_at(keys, chosen->Some_0, request, i)
}

/// Whether `r` is what planning answers a request with the keys: a plan
/// only where nothing refuses the request; the signing error only where
/// signing may fail; any other error only where it is the refusal that
/// the request and the keys give.
pub open spec fn answers(
    r: Result<Plan, Error>,
    keys: Seq<[u8; 32]>,
    chosen: Option<SatPoint>,
    request: Request,
) -> bool {
    &&& keys.len() == request.inscription.len()
    &&& match r {
        Ok(plan) => chosen == Some(plan.satpoint) && plan_refusal(keys, chosen, request) is None
            && is_plan(plan, keys, request),
        Err(Error::Signing) => signing_refusal(keys, chosen, request),
        Err(error) => plan_refusal(keys, chosen, request) == Some(error),
    }
}

/// A failure among the first commitments is a failure among all.
pub proof fn lemma_commitments_refusal_stays(
    keys: Seq<[u8; 32]>,
    request: Request,
    m: int,
    n: int,
)
    requires
        m <= n,
        commitments_refusal(keys, request, m) is Some,
    ensures
        commitments_refusal(keys, request, n) == commitments_refusal(keys, request, m),
    decreases n - m,
{
    if m < n {
        lemma_commitments_refusal_stays(keys, request, m, n - 1);
    }
}

/// A failure among the first reveal transactions is a failure among all.
pub proof fn lemma_reveals_refusal_stays(
    commit: TransactionView,
    commitments: Seq<CommitmentView>,
    request: Request,
    m: int,
    n: int,
)
    requires
        m <= n,
        reveals_refusal(commit, commitments, request, m) is Some,
    ensures
        reveals_refusal(commit, commitments, request, n) == reveals_refusal(
            commit,
            commitments,
            request,
            m,
        ),
    decreases n - m,
{
    if m < n {
        lemma_reveals_refusal_stays(commit, commitments, request, m, n - 1);
    }
}

/// What a reveal transaction pays as its fee: the value of the commit
/// output that it spends, less the value of its own output.
pub open spec fn paid_reveal_fee(commit: TransactionView, reveal: TransactionView) -> int {
    commit.output[reveal.input[0].previous_output.vout as int].value - reveal.output[0].value
}

/// What the commit transaction pays as its fee: what its inputs bring in,
/// less what its outputs carry.
pub open spec fn paid_commit_fee(commit: TransactionView, utxos: Seq<Utxo>) -> int {
    total_input(utxos, commit.input) - total_value(commit.output)
}

/// Linkage of reveal and commit: each reveal transaction of a plan has
/// one input and one output; the input spends an output of the commit
/// transaction, the one output that pays to its commitment's script,
/// which is the output that the commit transaction made for it; so no two
/// reveal transactions spend the same output.
pub proof fn lemma_plan_links(plan: Plan, keys: Seq<[u8; 32]>, request: Request)
    requires
        is_plan(plan, keys, request),
    ensures
        forall|i: int|
            0 <= i < request.inscription.len() ==> {
                let reveal = (#[trigger] plan.reveal_txs@[i])@;
                &&& reveal.input.len() == 1
                &&& reveal.output.len() == 1
                &&& reveal.input[0].previous_output.txid == txid_of(plan.commit_tx@)
                &&& reveal.input[0].previous_output.vout == lead_of(plan.satpoint) + i
                &&& pays_once(
                    plan.commit_tx@.output,
                    commitments_of(keys, request)[i].commit_script,
                    reveal.input[0].previous_output.vout as int,
                )
                &&& reveals(
                    reveal,
                    plan.recovery_keys@[i],
                    plan.commit_tx@,
                    reveal.input[0].previous_output.vout as int,
                    commitments_of(keys, request)[i],
                    request.destination,
                    request.reveal_fee_rate,
                    request.no_limit,
                )
            },
        forall|i: int, j: int|
            0 <= i < j < request.inscription.len() ==> (
            #[trigger] plan.reveal_txs@[i])@.input[0].previous_output != (
            #[trigger] plan.reveal_txs@[j])@.input[0].previous_output,
{
    let commit = plan.commit_tx@;
    let wanted = wanted_outputs(
        commitments_of(keys, request),
        request.destination,
        request.reveal_fee_rate,
        request.postage,
    );
    let lead = lead_of(plan.satpoint);
    assert forall|i: int| 0 <= i < request.inscription.len() implies {
        let reveal = (#[trigger] plan.reveal_txs@[i])@;
        &&& reveal.input.len() == 1
        &&& reveal.output.len() == 1
        &&& reveal.input[0].previous_output.txid == txid_of(plan.commit_tx@)
        &&& reveal.input[0].previous_output.vout == lead_of(plan.satpoint) + i
        &&& pays_once(
            plan.commit_tx@.output,
            commitments_of(keys, request)[i].commit_script,
            reveal.input[0].previous_output.vout as int,
        )
        &&& reveals(
            reveal,
            plan.recovery_keys@[i],
            plan.commit_tx@,
            reveal.input[0].previous_output.vout as int,
            commitments_of(keys, request)[i],
            request.destination,
            request.reveal_fee_rate,
            request.no_limit,
        )
    } by {
        let reveal = plan.reveal_txs@[i]@;
        assert(is_reveal(
            reveal,
            plan.recovery_keys@[i],
            commit,
            commitments_of(keys, request)[i],
            request.destination,
            request.reveal_fee_rate,
            request.no_limit,
        ));
        let vout = choose|vout: int|
            #![trigger pays_once(commit.output, commitments_of(keys, request)[i].commit_script, vout)]
            pays_once(commit.output, commitments_of(keys, request)[i].commit_script, vout) && reveals(
                reveal,
                plan.recovery_keys@[i],
                commit,
                vout,
                commitments_of(keys, request)[i],
                request.destination,
                request.reveal_fee_rate,
                request.no_limit,
            );
        assert(commit.output[lead + i].script_pubkey == wanted[i].script_pubkey);
        assert(vout == lead + i);
    }
}

/// Replacement by fee: every input of every transaction of a plan has a
/// sequence number below `0xFFFFFFFE`.
pub proof fn lemma_plan_signals_rbf(plan: Plan, keys: Seq<[u8; 32]>, request: Request)
    requires
        is_plan(plan, keys, request),
    ensures
        signals_rbf(plan.commit_tx@),
        forall|i: int|
            0 <= i < request.inscription.len() ==> signals_rbf((#[trigger] plan.reveal_txs@[i])@),
{
    lemma_plan_links(plan, keys, request);
    assert forall|k: int| 0 <= k < plan.commit_tx@.input.len() implies (
    #[trigger] plan.commit_tx@.input[k]).sequence < 0xFFFF_FFFE by {
        assert(plan.commit_tx@.input[k] == unsigned_input(
            plan.commit_tx@.input[k].previous_output,
        ));
    }
}

/// Fee accuracy and conservation of satoshis: the commit transaction
/// pays, as the difference of its inputs and its outputs, the fee that the
/// commit fee rate asks of its signed weight; each reveal transaction
/// pays, as the difference of the commit output that it spends and its
/// own output, the fee that the reveal fee rate asks of its weight.
pub proof fn lemma_plan_pays_fees(plan: Plan, keys: Seq<[u8; 32]>, request: Request)
    requires
        is_plan(plan, keys, request),
    ensures
        signed_weight(plan.commit_tx@) <= u64::MAX,
        paid_commit_fee(plan.commit_tx@, request.utxos) == request.commit_fee_rate.spec_fee(
            signed_weight(plan.commit_tx@) as u64,
        ),
        forall|i: int|
            0 <= i < request.inscription.len() ==> weight_of((#[trigger] plan.reveal_txs@[i])@)
                <= u64::MAX && paid_reveal_fee(plan.commit_tx@, plan.reveal_txs@[i]@)
                == request.reveal_fee_rate.spec_fee(weight_of(plan.reveal_txs@[i]@) as u64),
{
    lemma_plan_links(plan, keys, request);
    assert forall|i: int| 0 <= i < request.inscription.len() implies weight_of(
        (#[trigger] plan.reveal_txs@[i])@,
    ) <= u64::MAX && paid_reveal_fee(plan.commit_tx@, plan.reveal_txs@[i]@)
        == request.reveal_fee_rate.spec_fee(weight_of(plan.reveal_txs@[i]@) as u64) by {
        assert(commitment_of(keys[i], request.inscription[i]) is Some);
    }
}

/// Signatures: the first witness item of each reveal transaction is a
/// signature that the public key of the inscription's key verifies for
/// the Taproot script-spend hash of that transaction, which spends its
/// commit output through the reveal script.
pub proof fn lemma_plan_signs(plan: Plan, keys: Seq<[u8; 32]>, request: Request)
    requires
        is_plan(plan, keys, request),
    ensures
        forall|i: int|
            0 <= i < request.inscription.len() ==> {
                let reveal = (#[trigger] plan.reveal_txs@[i])@;
                let hash = reveal_sighash_of(
                    reveal.input[0].previous_output,
                    reveal.output[0].value,
                    request.destination,
                    plan.commit_tx@.output[reveal.input[0].previous_output.vout as int],
                    reveal.input[0].witness[1],
                );
                &&& hash is Some
                &&& public_key_of(keys[i]) is Some
                &&& schnorr_verifies(
                    reveal.input[0].witness[0],
                    hash->Some_0,
                    public_key_of(keys[i])->Some_0,
                )
            },
{
    lemma_plan_links(plan, keys, request);
    assert forall|i: int| 0 <= i < request.inscription.len() implies {
        let reveal = (#[trigger] plan.reveal_txs@[i])@;
        let hash = reveal_sighash_of(
            reveal.input[0].previous_output,
            reveal.output[0].value,
            request.destination,
            plan.commit_tx@.output[reveal.input[0].previous_output.vout as int],
            reveal.input[0].witness[1],
        );
        &&& hash is Some
        &&& public_key_of(keys[i]) is Some
        &&& schnorr_verifies(
            reveal.input[0].witness[0],
            hash->Some_0,
            public_key_of(keys[i])->Some_0,
        )
    } by {
        assert(commitment_of(keys[i], request.inscription[i]) is Some);
    }
}

/// Recovery and round trip: the script that pays to the public key of
/// each recovery key is the script of the commit output that its reveal
/// transaction spends, and reading the reveal script in the witness of
/// each reveal transaction gives back the inscription, byte for byte.
pub proof fn lemma_plan_recovers(plan: Plan, keys: Seq<[u8; 32]>, request: Request)
    requires
        is_plan(plan, keys, request),
        forall|i: int|
            0 <= i < request.inscription.len() ==> (
            #[trigger] request.inscription[i]).content_type.len() < 0x1_0000_0000,
    ensures
        forall|i: int|
            0 <= i < request.inscription.len() ==> {
                let reveal = (#[trigger] plan.reveal_txs@[i])@;
                let spent = plan.commit_tx@.output[reveal.input[0].previous_output.vout as int];
                &&& public_key_of(plan.recovery_keys@[i]) is Some
                &&& p2tr_script_bytes(public_key_of(plan.recovery_keys@[i])->Some_0@)
                    == spent.script_pubkey
                &&& read_reveal_script(reveal.input[0].witness[1]) == Some(request.inscription[i])
            },
{
    lemma_plan_links(plan, keys, request);
    assert forall|i: int| 0 <= i < request.inscription.len() implies {
        let reveal = (#[trigger] plan.reveal_txs@[i])@;
        let spent = plan.commit_tx@.output[reveal.input[0].previous_output.vout as int];
        &&& public_key_of(plan.recovery_keys@[i]) is Some
        &&& p2tr_script_bytes(public_key_of(plan.recovery_keys@[i])->Some_0@)
            == spent.script_pubkey
        &&& read_reveal_script(reveal.input[0].witness[1]) == Some(request.inscription[i])
    } by {
        assert(commitment_of(keys[i], request.inscription[i]) is Some);
        lemma_reveal_script_round_trip(
            commitments_of(keys, request)[i].public_key@,
            request.inscription[i],
        );
    }
}

} // verus!
