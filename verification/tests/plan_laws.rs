use bitcoin::secp256k1::{KeyPair, Message, Secp256k1, XOnlyPublicKey};
use bitcoin::util::sighash::{Prevouts, SighashCache};
use bitcoin::util::taproot::{LeafVersion, TapLeafHash, TaprootBuilder};
use bitcoin::{PackedLockTime, SchnorrSighashType, Script, Sequence, Witness};
use ord::error::Error;
use ord::fee_rate::FeeRate;
use ord::inscribe::Inscribe;
use ord::inscribed::InscriptionSet;
use ord::inscription::Inscription;
use ord::outpoint::{InscriptionId, OutPoint, SatPoint};
use ord::plan::Plan;
use ord::transaction::Transaction;
use ord::transaction_builder::DEFAULT_TARGET_POSTAGE;
use ord::utxo::UtxoSet;
use std::str::FromStr;

fn outpoint(n: u8) -> OutPoint {
    OutPoint { txid: [n * 16 + n; 32], vout: n as u32 }
}

fn script(address: &str) -> Vec<u8> {
    bitcoin::Address::from_str(address).unwrap().script_pubkey().to_bytes()
}

fn change() -> [Vec<u8>; 2] {
    [
        script("tb1qjsv26lap3ffssj6hfy8mzn0lg5vte6a42j75ww"),
        script("tb1qakxxzv9n7706kc3xdcycrtfv8cqv62hnwexc0l"),
    ]
}

fn recipient() -> Vec<u8> {
    script("tb1q6en7qjxgw4ev8xwx94pzdry6a6ky7wlfeqzunz")
}

fn utxos(entries: &[(OutPoint, u64)]) -> UtxoSet {
    let mut set = UtxoSet::new();
    for (outpoint, value) in entries {
        set.insert(*outpoint, *value);
    }
    set
}

fn inscriptions() -> Vec<Inscription> {
    vec![
        Inscription::new(b"text/plain".to_vec(), b"first".to_vec()),
        Inscription::new(b"image/png".to_vec(), vec![7u8; 1500]),
        Inscription::new(b"text/plain".to_vec(), Vec::new()),
    ]
}

fn wallet() -> UtxoSet {
    utxos(&[(outpoint(1), 30_000), (outpoint(2), 50_000), (outpoint(3), 5_000)])
}

fn plan_with(
    satpoint: Option<SatPoint>,
    alignment: Option<Vec<u8>>,
    commit_rate: (u64, u64),
    reveal_rate: (u64, u64),
    postage: u64,
) -> Result<Plan, Error> {
    Inscribe::create_inscription_transactions(
        satpoint,
        &inscriptions(),
        &InscriptionSet::new(),
        &wallet(),
        &change(),
        &recipient(),
        alignment,
        FeeRate::new(commit_rate.0, commit_rate.1).unwrap(),
        FeeRate::new(reveal_rate.0, reveal_rate.1).unwrap(),
        false,
        postage,
    )
}

fn outside(tx: &Transaction) -> bitcoin::Transaction {
    bitcoin::Transaction {
        version: tx.version,
        lock_time: PackedLockTime(tx.lock_time),
        input: tx
            .input
            .iter()
            .map(|input| bitcoin::TxIn {
                previous_output: bitcoin::OutPoint::new(
                    bitcoin::hashes::Hash::from_inner(input.previous_output.txid),
                    input.previous_output.vout,
                ),
                script_sig: Script::from(input.script_sig.clone()),
                sequence: Sequence(input.sequence),
                witness: Witness::from_vec(input.witness.clone()),
            })
            .collect(),
        output: tx
            .output
            .iter()
            .map(|output| bitcoin::TxOut {
                value: output.value,
                script_pubkey: Script::from(output.script_pubkey.clone()),
            })
            .collect(),
    }
}

fn signed_weight(tx: &Transaction) -> u64 {
    let mut signed = outside(tx);
    for input in signed.input.iter_mut() {
        input.witness = Witness::from_vec(vec![vec![0; 64]]);
    }
    signed.weight() as u64
}

fn ceil_fee(numerator: u64, denominator: u64, weight: u64) -> u64 {
    let n = numerator as u128 * weight as u128;
    let d = 4 * denominator as u128;
    ((n + d - 1) / d) as u64
}

#[test]
fn fees_are_what_the_rates_ask_of_the_weights() {
    let plan = plan_with(None, None, (33, 10), (21, 10), DEFAULT_TARGET_POSTAGE).unwrap();
    let wallet = wallet();

    let paid = Inscribe::calculate_fee(&plan.commit_tx, &wallet);
    assert_eq!(paid, ceil_fee(33, 10, signed_weight(&plan.commit_tx)));

    for reveal in &plan.reveal_txs {
        let spent = &plan.commit_tx.output[reveal.input[0].previous_output.vout as usize];
        let paid = spent.value - reveal.output[0].value;
        assert_eq!(paid, ceil_fee(21, 10, reveal.weight()));
        assert_eq!(reveal.weight(), outside(reveal).weight() as u64);
    }
}

#[test]
fn every_input_opts_in_to_replacement() {
    let plan = plan_with(Some(SatPoint { outpoint: outpoint(1), offset: 7 }), None, (1, 1), (1, 1), 10_000)
        .unwrap();
    for input in &plan.commit_tx.input {
        assert!(input.sequence < 0xFFFF_FFFE);
    }
    for reveal in &plan.reveal_txs {
        assert_eq!(reveal.input.len(), 1);
        assert_eq!(reveal.input[0].sequence, 0xFFFF_FFFD);
    }
}

#[test]
fn satoshis_are_conserved() {
    let plan = plan_with(None, None, (2, 1), (1, 1), DEFAULT_TARGET_POSTAGE).unwrap();
    let mut known = wallet();

    let brought: u64 = plan.commit_tx.input.iter().map(|input| known.get(&input.previous_output).unwrap()).sum();
    let carried: u64 = plan.commit_tx.output.iter().map(|output| output.value).sum();
    assert_eq!(brought, carried + Inscribe::calculate_fee(&plan.commit_tx, &known));

    let commit_txid = plan.commit_tx.txid();
    for reveal in &plan.reveal_txs {
        assert_eq!(reveal.input[0].previous_output.txid, commit_txid);
        let vout = reveal.input[0].previous_output.vout;
        known.insert(reveal.input[0].previous_output, plan.commit_tx.output[vout as usize].value);
        let fee = Inscribe::calculate_fee(reveal, &known);
        assert_eq!(plan.commit_tx.output[vout as usize].value, reveal.output[0].value + fee);
    }
}

#[test]
fn reveal_scripts_give_the_inscriptions_back() {
    let plan = plan_with(None, None, (1, 1), (1, 1), DEFAULT_TARGET_POSTAGE).unwrap();
    let inscriptions = inscriptions();
    assert_eq!(plan.reveal_txs.len(), inscriptions.len());
    for (reveal, inscription) in plan.reveal_txs.iter().zip(inscriptions) {
        assert_eq!(reveal.input[0].witness.len(), 3);
        assert_eq!(Inscription::from_reveal_script(&reveal.input[0].witness[1]), Some(inscription));
    }
}

#[test]
fn each_reveal_spends_its_own_commit_output() {
    let plan = plan_with(None, None, (1, 1), (1, 1), DEFAULT_TARGET_POSTAGE).unwrap();
    let secp = Secp256k1::new();
    let commit_txid = outside(&plan.commit_tx).txid();
    assert_eq!(plan.commit_tx.txid(), bitcoin::hashes::Hash::into_inner(commit_txid));

    let mut spent = Vec::new();
    for (i, reveal) in plan.reveal_txs.iter().enumerate() {
        let previous = reveal.input[0].previous_output;
        assert_eq!(previous.txid, bitcoin::hashes::Hash::into_inner(commit_txid));
        assert_eq!(previous.vout as usize, i);
        assert!(!spent.contains(&previous.vout));
        spent.push(previous.vout);

        let reveal_script = Script::from(reveal.input[0].witness[1].clone());
        let internal_key = XOnlyPublicKey::from_slice(&reveal_script.as_bytes()[1..33]).unwrap();
        let info = TaprootBuilder::new()
            .add_leaf(0, reveal_script.clone())
            .unwrap()
            .finalize(&secp, internal_key)
            .unwrap();
        let commit_script = Script::new_v1_p2tr_tweaked(info.output_key());
        let output = &plan.commit_tx.output[previous.vout as usize];
        assert_eq!(output.script_pubkey, commit_script.to_bytes());
        assert_eq!(
            plan.commit_tx.output.iter().filter(|o| o.script_pubkey == output.script_pubkey).count(),
            1
        );
        let control_block = info.control_block(&(reveal_script, LeafVersion::TapScript)).unwrap();
        assert_eq!(reveal.input[0].witness[2], control_block.serialize());
        assert_eq!(reveal.output[0].script_pubkey, recipient());
    }
}

#[test]
fn reveal_signatures_are_valid() {
    let plan = plan_with(None, None, (1, 1), (1, 1), DEFAULT_TARGET_POSTAGE).unwrap();
    let secp = Secp256k1::new();
    for reveal in &plan.reveal_txs {
        let tx = outside(reveal);
        let spent = &plan.commit_tx.output[reveal.input[0].previous_output.vout as usize];
        let prevout = bitcoin::TxOut {
            value: spent.value,
            script_pubkey: Script::from(spent.script_pubkey.clone()),
        };
        let reveal_script = Script::from(reveal.input[0].witness[1].clone());
        let hash = SighashCache::new(&tx)
            .taproot_script_spend_signature_hash(
                0,
                &Prevouts::All(&[prevout]),
                TapLeafHash::from_script(&reveal_script, LeafVersion::TapScript),
                SchnorrSighashType::Default,
            )
            .unwrap();
        let signature =
            bitcoin::secp256k1::schnorr::Signature::from_slice(&reveal.input[0].witness[0]).unwrap();
        let key = XOnlyPublicKey::from_slice(&reveal_script.as_bytes()[1..33]).unwrap();
        let message = Message::from_slice(&bitcoin::hashes::Hash::into_inner(hash)).unwrap();
        assert!(secp.verify_schnorr(&signature, &message, &key).is_ok());
    }
}

#[test]
fn recovery_keys_open_the_commit_outputs() {
    let plan = plan_with(None, None, (1, 1), (1, 1), DEFAULT_TARGET_POSTAGE).unwrap();
    let secp = Secp256k1::new();
    assert_eq!(plan.recovery_keys.len(), plan.reveal_txs.len());
    for (reveal, recovery_key) in plan.reveal_txs.iter().zip(&plan.recovery_keys) {
        let pair = KeyPair::from_seckey_slice(&secp, recovery_key).unwrap();
        let (public_key, _parity) = XOnlyPublicKey::from_keypair(&pair);
        let mut script = vec![0x51, 0x20];
        script.extend_from_slice(&public_key.serialize());
        let spent = &plan.commit_tx.output[reveal.input[0].previous_output.vout as usize];
        assert_eq!(spent.script_pubkey, script);
        assert_ne!(&reveal.input[0].witness[1][1..33], &public_key.serialize()[..]);
    }
}

#[test]
fn keys_are_fresh_for_each_inscription_and_each_plan() {
    let first = plan_with(None, None, (1, 1), (1, 1), DEFAULT_TARGET_POSTAGE).unwrap();
    let second = plan_with(None, None, (1, 1), (1, 1), DEFAULT_TARGET_POSTAGE).unwrap();
    let mut keys: Vec<[u8; 32]> = Vec::new();
    keys.extend(&first.recovery_keys);
    keys.extend(&second.recovery_keys);
    for i in 0..keys.len() {
        for j in 0..i {
            assert_ne!(keys[i], keys[j]);
        }
    }
}

#[test]
fn target_satoshi_lands_at_the_head_of_the_first_commit_output() {
    let satpoint = SatPoint { outpoint: outpoint(2), offset: 1_000 };
    let alignment = script("tb1qakxxzv9n7706kc3xdcycrtfv8cqv62hnwexc0l");
    let plan = plan_with(Some(satpoint), Some(alignment.clone()), (1, 1), (1, 1), 10_000).unwrap();
    assert_eq!(plan.satpoint, satpoint);
    assert_eq!(plan.commit_tx.input[0].previous_output, outpoint(2));
    assert_eq!(plan.commit_tx.output[0].value, 1_000);
    assert_eq!(plan.commit_tx.output[0].script_pubkey, alignment);
    assert_eq!(plan.reveal_txs[0].input[0].previous_output.vout, 1);
    assert_eq!(plan.reveal_txs[1].input[0].previous_output.vout, 2);
    assert_eq!(plan.reveal_txs[2].input[0].previous_output.vout, 3);
    assert_eq!(plan.commit_tx.output.len(), 5);
    assert_eq!(plan.commit_tx.output[4].script_pubkey, change()[1]);
}

#[test]
fn small_alignment_is_padded_by_a_cardinal_output_spent_first() {
    let satpoint = SatPoint { outpoint: outpoint(2), offset: 10 };
    let plan = plan_with(Some(satpoint), None, (1, 1), (1, 1), 10_000).unwrap();
    assert_eq!(plan.commit_tx.input[0].previous_output, outpoint(1));
    assert_eq!(plan.commit_tx.input[1].previous_output, outpoint(2));
    assert_eq!(plan.commit_tx.output[0].value, 30_000 + 10);
    assert_eq!(plan.commit_tx.output[0].script_pubkey, change()[1]);
    assert_eq!(plan.reveal_txs[0].input[0].previous_output.vout, 1);
    let last = plan.commit_tx.output.last().unwrap();
    assert_eq!(last.script_pubkey, change()[0]);
}

#[test]
fn an_output_is_added_where_the_first_cannot_pay() {
    let satpoint = SatPoint { outpoint: outpoint(3), offset: 0 };
    let plan = plan_with(Some(satpoint), None, (1, 1), (1, 1), 10_000).unwrap();
    assert_eq!(plan.commit_tx.input.len(), 2);
    assert_eq!(plan.commit_tx.input[0].previous_output, outpoint(3));
    assert_eq!(plan.commit_tx.input[1].previous_output, outpoint(1));
    let wallet = wallet();
    assert_eq!(
        Inscribe::calculate_fee(&plan.commit_tx, &wallet),
        (signed_weight(&plan.commit_tx) + 3) / 4
    );
    assert_eq!(Inscribe::checked_fee(&plan.commit_tx, &UtxoSet::new()), None);
}

#[test]
fn reveal_output_below_dust_is_refused() {
    let error = plan_with(None, None, (1, 1), (1, 1), 250).unwrap_err();
    assert_eq!(error, Error::RevealDust);
    assert!(error.message().contains("commit transaction output would be dust"));
}

#[test]
fn commit_output_below_p2tr_dust_is_refused() {
    let error = Inscribe::create_inscription_transactions(
        None,
        &vec![Inscription::new(b"text/plain".to_vec(), b"ord".to_vec())],
        &InscriptionSet::new(),
        &wallet(),
        &change(),
        &recipient(),
        None,
        FeeRate::new(1, 1).unwrap(),
        FeeRate::new(1, 1000).unwrap(),
        false,
        328,
    )
    .unwrap_err();
    assert_eq!(error, Error::Dust { output_value: 329, dust_value: 330 });
    assert_eq!(error.message(), "output value is below dust value: 329 < 330");
}

#[test]
fn inscribed_satpoints_are_refused() {
    let mut inscribed = InscriptionSet::new();
    let id = InscriptionId { txid: [0xab; 32] };
    inscribed.insert(SatPoint { outpoint: outpoint(2), offset: 5 }, id);
    let plan = |satpoint| {
        Inscribe::create_inscription_transactions(
            Some(satpoint),
            &inscriptions(),
            &inscribed,
            &wallet(),
            &change(),
            &recipient(),
            None,
            FeeRate::new(1, 1).unwrap(),
            FeeRate::new(1, 1).unwrap(),
            false,
            5_000,
        )
    };
    let same = SatPoint { outpoint: outpoint(2), offset: 5 };
    let error = plan(same).unwrap_err();
    assert_eq!(error, Error::SatAlreadyInscribed { satpoint: same });
    assert_eq!(
        error.message(),
        format!("sat at {}:2:5 already inscribed", "22".repeat(32))
    );
    let other = SatPoint { outpoint: outpoint(2), offset: 6 };
    let error = plan(other).unwrap_err();
    assert_eq!(
        error,
        Error::UtxoAlreadyInscribed { outpoint: outpoint(2), inscription_id: id, inscribed: same }
    );
    assert_eq!(
        error.message(),
        format!(
            "utxo {}:2 already inscribed with inscription {} on sat {}:2:5",
            "22".repeat(32),
            "ab".repeat(32),
            "22".repeat(32)
        )
    );
    assert!(plan(SatPoint { outpoint: outpoint(1), offset: 6 }).is_ok());
}

#[test]
fn satpoints_outside_the_wallet_are_refused() {
    let missing = SatPoint { outpoint: outpoint(9), offset: 0 };
    let error = plan_with(Some(missing), None, (1, 1), (1, 1), 10_000).unwrap_err();
    assert_eq!(error, Error::NotInWallet { satpoint: missing });
    let beyond = SatPoint { outpoint: outpoint(3), offset: 5_000 };
    let error = plan_with(Some(beyond), None, (1, 1), (1, 1), 10_000).unwrap_err();
    assert_eq!(error, Error::OutOfRange { satpoint: beyond, max: 4_999 });
    assert_eq!(
        error.message(),
        format!("outgoing satpoint {}:3:5000 offset higher than maximum 4999", "33".repeat(32))
    );
}

#[test]
fn too_little_in_the_wallet_is_refused() {
    let error = plan_with(None, None, (1, 1), (1, 1), 40_000).unwrap_err();
    assert_eq!(error, Error::InsufficientFunds);
    let error = plan_with(None, None, (1, 1), (1, 1), u64::MAX).unwrap_err();
    assert_eq!(error, Error::ValueOverflow);
}

#[test]
fn transactions_are_encoded_as_the_outside_crate_encodes_them() {
    let plan = plan_with(Some(SatPoint { outpoint: outpoint(2), offset: 3 }), None, (1, 1), (1, 1), 10_000)
        .unwrap();
    assert_eq!(plan.commit_tx.serialize(), bitcoin::consensus::serialize(&outside(&plan.commit_tx)));
    assert_eq!(plan.commit_tx.weight(), outside(&plan.commit_tx).weight() as u64);
    for reveal in &plan.reveal_txs {
        assert_eq!(reveal.serialize(), bitcoin::consensus::serialize(&outside(reveal)));
        assert_eq!(reveal.txid(), bitcoin::hashes::Hash::into_inner(outside(reveal).txid()));
    }
}

fn plan_with_keys(keys: &Vec<[u8; 32]>) -> Result<Plan, Error> {
    Inscribe::plan_with_keys(
        keys,
        None,
        &inscriptions(),
        &InscriptionSet::new(),
        &wallet(),
        &change(),
        &recipient(),
        None,
        FeeRate::new(1, 1).unwrap(),
        FeeRate::new(1, 1).unwrap(),
        false,
        DEFAULT_TARGET_POSTAGE,
    )
}

#[test]
fn the_keys_tell_the_plan_but_for_the_signatures() {
    let keys = vec![[1u8; 32], [2u8; 32], [3u8; 32]];
    let first = plan_with_keys(&keys).unwrap();
    let second = plan_with_keys(&keys).unwrap();
    assert_eq!(first.satpoint, second.satpoint);
    assert_eq!(first.commit_tx, second.commit_tx);
    assert_eq!(first.recovery_keys, second.recovery_keys);
    for (a, b) in first.reveal_txs.iter().zip(&second.reveal_txs) {
        assert_eq!(a.txid(), b.txid());
        assert_eq!(a.output, b.output);
        assert_eq!(a.input[0].witness[1..], b.input[0].witness[1..]);
        assert_eq!(a.input[0].witness[0].len(), 64);
        assert_ne!(a.input[0].witness[0], b.input[0].witness[0]);
    }
    let secp = Secp256k1::new();
    for (reveal, key) in first.reveal_txs.iter().zip(&keys) {
        let pair = KeyPair::from_seckey_slice(&secp, key).unwrap();
        let (public_key, _parity) = XOnlyPublicKey::from_keypair(&pair);
        assert_eq!(&reveal.input[0].witness[1][1..33], &public_key.serialize()[..]);
    }
    let other = plan_with_keys(&vec![[1u8; 32], [2u8; 32], [4u8; 32]]).unwrap();
    assert_eq!(first.commit_tx.output[0], other.commit_tx.output[0]);
    assert_ne!(first.commit_tx.output[2], other.commit_tx.output[2]);
}

#[test]
fn bytes_that_are_no_key_cannot_commit() {
    let error = plan_with_keys(&vec![[1u8; 32], [0u8; 32], [3u8; 32]]).unwrap_err();
    assert_eq!(error, Error::Commitment);
    assert_eq!(error.message(), "could not commit to the reveal script");
    let error = plan_with_keys(&vec![[1u8; 32], [2u8; 32], [0xffu8; 32]]).unwrap_err();
    assert_eq!(error, Error::Commitment);
}

#[test]
fn equal_keys_for_equal_inscriptions_leave_no_one_commit_output() {
    let twice = vec![
        Inscription::new(b"text/plain".to_vec(), b"same".to_vec()),
        Inscription::new(b"text/plain".to_vec(), b"same".to_vec()),
    ];
    let error = Inscribe::plan_with_keys(
        &vec![[5u8; 32], [5u8; 32]],
        None,
        &twice,
        &InscriptionSet::new(),
        &wallet(),
        &change(),
        &recipient(),
        None,
        FeeRate::new(1, 1).unwrap(),
        FeeRate::new(1, 1).unwrap(),
        false,
        DEFAULT_TARGET_POSTAGE,
    )
    .unwrap_err();
    assert_eq!(error, Error::CommitOutput);
    assert_eq!(error.message(), "could not find the one commit output of an inscription");
}
