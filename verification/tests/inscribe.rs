use ord::error::Error;
use ord::fee_rate::FeeRate;
use ord::inscribe::Inscribe;
use ord::plan::Plan;
use ord::inscribed::InscriptionSet;
use ord::inscription::Inscription;
use ord::outpoint::{InscriptionId, OutPoint, SatPoint};
use ord::transaction_builder::DEFAULT_TARGET_POSTAGE;
use ord::utxo::UtxoSet;
use std::str::FromStr;

const COIN_VALUE: u64 = 100_000_000;
const MAX_STANDARD_TX_WEIGHT: u32 = 400_000;

fn outpoint(n: u8) -> OutPoint {
    assert!(n < 16);
    OutPoint { txid: [n * 16 + n; 32], vout: n as u32 }
}

fn satpoint(n: u8, offset: u64) -> SatPoint {
    SatPoint { outpoint: outpoint(n), offset }
}

fn inscription_id(n: u8) -> InscriptionId {
    InscriptionId { txid: [n * 16 + n; 32] }
}

fn inscription(content_type: &str, body: impl AsRef<[u8]>) -> Inscription {
    Inscription::new(content_type.as_bytes().to_vec(), body.as_ref().to_vec())
}

fn script(address: &str) -> Vec<u8> {
    bitcoin::Address::from_str(address).unwrap().script_pubkey().to_bytes()
}

fn change(n: u64) -> Vec<u8> {
    script(match n {
        0 => "tb1qjsv26lap3ffssj6hfy8mzn0lg5vte6a42j75ww",
        1 => "tb1qakxxzv9n7706kc3xdcycrtfv8cqv62hnwexc0l",
        _ => panic!(),
    })
}

fn recipient() -> Vec<u8> {
    script("tb1q6en7qjxgw4ev8xwx94pzdry6a6ky7wlfeqzunz")
}

fn utxos(entries: &[(OutPoint, u64)]) -> UtxoSet {
    let mut set = UtxoSet::new();
    for (outpoint, value) in entries {
        set.insert(*outpoint, *value);
    }
    set
}

fn inscribed(entries: &[(SatPoint, InscriptionId)]) -> InscriptionSet {
    let mut set = InscriptionSet::new();
    for (satpoint, id) in entries {
        set.insert(*satpoint, *id);
    }
    set
}

fn rate(numerator: u64, denominator: u64) -> FeeRate {
    FeeRate::new(numerator, denominator).unwrap()
}

fn plan(
    satpoint: Option<SatPoint>,
    inscription: Vec<Inscription>,
    inscriptions: InscriptionSet,
    utxos: UtxoSet,
    commit_fee_rate: FeeRate,
    reveal_fee_rate: FeeRate,
    no_limit: bool,
) -> Result<Plan, Error> {
    Inscribe::create_inscription_transactions(
        satpoint,
        &inscription,
        &inscriptions,
        &utxos,
        &[change(0), change(1)],
        &recipient(),
        None,
        commit_fee_rate,
        reveal_fee_rate,
        no_limit,
        DEFAULT_TARGET_POSTAGE,
    )
}

#[test]
fn reveal_transaction_pays_fee() {
    let plan = plan(
        Some(satpoint(1, 0)),
        vec![inscription("text/plain", "ord")],
        InscriptionSet::new(),
        utxos(&[(outpoint(1), 20000)]),
        rate(1, 1),
        rate(1, 1),
        false,
    )
    .unwrap();

    let fee = (plan.reveal_txs[0].weight() as f64 / 4.0).ceil() as u64;

    assert_eq!(
        plan.reveal_txs[0].output[0].value,
        20000 - fee - (20000 - plan.commit_tx.output[0].value),
    );
}

#[test]
fn inscript_tansactions_opt_in_to_rbf() {
    let plan = plan(
        Some(satpoint(1, 0)),
        vec![inscription("text/plain", "ord")],
        InscriptionSet::new(),
        utxos(&[(outpoint(1), 20000)]),
        rate(1, 1),
        rate(1, 1),
        false,
    )
    .unwrap();

    assert!(plan.commit_tx.is_explicitly_rbf());
    assert!(plan.reveal_txs[0].is_explicitly_rbf());
}

#[test]
fn inscribe_with_no_satpoint_and_no_cardinal_utxos() {
    let error = plan(
        None,
        vec![inscription("text/plain", "ord")],
        inscribed(&[(satpoint(1, 0), inscription_id(1))]),
        utxos(&[(outpoint(1), 1000)]),
        rate(1, 1),
        rate(1, 1),
        false,
    )
    .unwrap_err()
    .message();

    assert!(error.contains("wallet contains no cardinal utxos"), "{}", error);
}

#[test]
fn inscribe_with_no_satpoint_and_enough_cardinal_utxos() {
    let plan = plan(
        None,
        vec![inscription("text/plain", "ord")],
        inscribed(&[(satpoint(1, 0), inscription_id(1))]),
        utxos(&[(outpoint(1), 20_000), (outpoint(2), 20_000)]),
        rate(1, 1),
        rate(1, 1),
        false,
    );

    assert!(plan.is_ok());
    assert_eq!(plan.unwrap().satpoint, satpoint(2, 0));
}

#[test]
fn inscribe_with_custom_fee_rate() {
    let fee_rate = 3.3;

    let plan = plan(
        None,
        vec![inscription("text/plain", "ord")],
        inscribed(&[(satpoint(1, 0), inscription_id(1))]),
        utxos(&[(outpoint(1), 10_000), (outpoint(2), 20_000)]),
        rate(33, 10),
        rate(33, 10),
        false,
    )
    .unwrap();

    let sig_vbytes = 17.0;
    let fee = (fee_rate * (plan.commit_tx.weight() as f64 / 4.0 + sig_vbytes)).ceil() as u64;

    let reveal_value = plan.commit_tx.output.iter().map(|o| o.value).reduce(|acc, i| acc + i).unwrap();

    assert_eq!(reveal_value, 20_000 - fee);

    let fee = (fee_rate * (plan.reveal_txs[0].weight() as f64 / 4.0)).ceil() as u64;

    assert_eq!(
        plan.reveal_txs[0].output[0].value,
        20_000 - fee - (20_000 - plan.commit_tx.output[0].value),
    );
}

#[test]
fn inscribe_with_commit_fee_rate() {
    let commit_fee_rate = 3.3;
    let fee_rate = 1.0;

    let plan = plan(
        None,
        vec![inscription("text/plain", "ord")],
        inscribed(&[(satpoint(1, 0), inscription_id(1))]),
        utxos(&[(outpoint(1), 10_000), (outpoint(2), 20_000)]),
        rate(33, 10),
        rate(1, 1),
        false,
    )
    .unwrap();

    let sig_vbytes = 17.0;
    let fee = (commit_fee_rate * (plan.commit_tx.weight() as f64 / 4.0 + sig_vbytes)).ceil() as u64;

    let reveal_value = plan.commit_tx.output.iter().map(|o| o.value).reduce(|acc, i| acc + i).unwrap();

    assert_eq!(reveal_value, 20_000 - fee);

    let fee = (fee_rate * (plan.reveal_txs[0].weight() as f64 / 4.0)).ceil() as u64;

    assert_eq!(
        plan.reveal_txs[0].output[0].value,
        20_000 - fee - (20_000 - plan.commit_tx.output[0].value),
    );
}

#[test]
fn inscribe_over_max_standard_tx_weight() {
    let error = plan(
        None,
        vec![inscription("text/plain", [0; MAX_STANDARD_TX_WEIGHT as usize])],
        InscriptionSet::new(),
        utxos(&[(outpoint(1), 50 * COIN_VALUE)]),
        rate(1, 1),
        rate(1, 1),
        false,
    )
    .unwrap_err()
    .message();

    assert!(
        error.contains(&format!(
            "reveal transaction weight greater than {MAX_STANDARD_TX_WEIGHT} (MAX_STANDARD_TX_WEIGHT): 402799"
        )),
        "{}",
        error
    );
}

#[test]
fn inscribe_with_no_max_standard_tx_weight() {
    let plan = plan(
        None,
        vec![inscription("text/plain", [0; MAX_STANDARD_TX_WEIGHT as usize])],
        InscriptionSet::new(),
        utxos(&[(outpoint(1), 50 * COIN_VALUE)]),
        rate(1, 1),
        rate(1, 1),
        true,
    )
    .unwrap();

    assert!(plan.reveal_txs[0].serialize().len() >= MAX_STANDARD_TX_WEIGHT as usize);
}
