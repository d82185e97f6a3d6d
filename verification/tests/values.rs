use ord::error::Error;
use ord::fee_rate::FeeRate;
use ord::inscribe::{choose_satpoint, Inscribe};
use ord::inscribed::InscriptionSet;
use ord::outpoint::{InscriptionId, OutPoint, Rank, SatPoint};
use ord::recovery::{check_import, import_descriptor, recovery_descriptor, recovery_label, Network};
use ord::reveal_tx::{
    build_reveal_transaction, check_weight, finish_reveal, prepare_reveal, reveal_sighash,
    reveal_value, seal_reveal, unique_output,
};
use ord::script::p2tr_script;
use ord::transaction::{Transaction, TxIn, TxOut};
use ord::transaction_builder::{check_dust, check_not_inscribed, select_cardinal_utxo, TransactionBuilder};
use ord::utxo::{Utxo, UtxoSet};

fn outpoint(n: u8) -> OutPoint {
    OutPoint { txid: [n; 32], vout: n as u32 }
}

#[test]
fn fee_is_the_rate_times_a_quarter_of_the_weight_rounded_up() {
    let one = FeeRate::new(1, 1).unwrap();
    assert_eq!(one.fee(0), 0);
    assert_eq!(one.fee(1), 1);
    assert_eq!(one.fee(4), 1);
    assert_eq!(one.fee(5), 2);
    assert_eq!(one.fee(561), 141);
    let custom = FeeRate::new(33, 10).unwrap();
    assert_eq!(custom.fee(40), 33);
    assert_eq!(custom.fee(41), 34);
    assert_eq!(custom.fee(616 + 68), (3.3f64 * 171.0).ceil() as u64);
    assert_eq!(FeeRate::new(0, 5).unwrap().fee(1_000_000), 0);
    assert_eq!(FeeRate::new(u64::MAX, 1).unwrap().fee(u64::MAX), u64::MAX);
    assert_eq!(FeeRate::new(u64::MAX, u64::MAX).unwrap().fee(u64::MAX), 4611686018427387904);
}

#[test]
fn fee_rate_without_denominator_is_refused() {
    let error = FeeRate::new(3, 0).unwrap_err();
    assert_eq!(error, Error::InvalidFeeRate);
    assert_eq!(error.message(), "invalid fee rate");
    let rate = FeeRate::new(7, 2).unwrap();
    assert_eq!((rate.numerator(), rate.denominator()), (7, 2));
}

#[test]
fn outpoints_are_ordered_by_id_then_index() {
    let low = OutPoint { txid: [1; 32], vout: 9 };
    let mut high = low;
    high.txid[31] = 2;
    assert_eq!(low.rank(&high), Rank::Before);
    assert_eq!(high.rank(&low), Rank::After);
    assert_eq!(low.rank(&low), Rank::Same);
    assert_eq!(low.rank(&OutPoint { txid: [1; 32], vout: 10 }), Rank::Before);
    let mut first = low;
    first.txid[0] = 0;
    first.txid[31] = 0xff;
    assert_eq!(first.rank(&low), Rank::Before);
    assert_eq!(low.cmp(&high), std::cmp::Ordering::Less);
    assert_eq!(first.cmp(&low), std::cmp::Ordering::Less);
    assert!(low.same(&low) && !low.same(&high));
    let a = SatPoint { outpoint: low, offset: 1 };
    let b = SatPoint { outpoint: low, offset: 2 };
    assert_eq!(a.rank(&b), Rank::Before);
    assert_eq!(b.rank(&a), Rank::After);
    assert_eq!(SatPoint { outpoint: high, offset: 0 }.rank(&b), Rank::After);
    let null = OutPoint::null();
    assert_eq!((null.txid, null.vout), ([0; 32], u32::MAX));
}

#[test]
fn utxo_set_keeps_order_and_one_value_for_each_outpoint() {
    let mut set = UtxoSet::new();
    set.insert(outpoint(3), 30);
    set.insert(outpoint(1), 10);
    set.insert(outpoint(2), 20);
    set.insert(outpoint(1), 11);
    assert_eq!(set.len(), 3);
    assert_eq!(set.entry(0), Utxo { outpoint: outpoint(1), value: 11 });
    assert_eq!(set.entry(1), Utxo { outpoint: outpoint(2), value: 20 });
    assert_eq!(set.entry(2), Utxo { outpoint: outpoint(3), value: 30 });
    assert_eq!(set.get(&outpoint(2)), Some(20));
    assert_eq!(set.get(&outpoint(4)), None);
    assert_eq!(set.clone(), set);
}

#[test]
fn inscription_set_finds_the_first_inscription_on_an_outpoint() {
    let mut set = InscriptionSet::new();
    let id = |n| InscriptionId { txid: [n; 32] };
    set.insert(SatPoint { outpoint: outpoint(2), offset: 9 }, id(1));
    set.insert(SatPoint { outpoint: outpoint(2), offset: 4 }, id(2));
    set.insert(SatPoint { outpoint: outpoint(1), offset: 0 }, id(3));
    set.insert(SatPoint { outpoint: outpoint(2), offset: 4 }, id(4));
    assert_eq!(set.len(), 3);
    assert_eq!(set.first_inscribed_on(&outpoint(2)), Some(1));
    assert_eq!(set.entry(1).id, id(4));
    assert_eq!(set.first_inscribed_on(&outpoint(3)), None);
    assert_eq!(set.get(&SatPoint { outpoint: outpoint(2), offset: 9 }), Some(id(1)));
    assert_eq!(set.get(&SatPoint { outpoint: outpoint(2), offset: 5 }), None);

    let on_four = SatPoint { outpoint: outpoint(2), offset: 4 };
    assert_eq!(
        check_not_inscribed(&set, &on_four),
        Err(Error::SatAlreadyInscribed { satpoint: on_four })
    );
    let on_nine = SatPoint { outpoint: outpoint(2), offset: 9 };
    assert_eq!(
        check_not_inscribed(&set, &on_nine),
        Err(Error::UtxoAlreadyInscribed { outpoint: outpoint(2), inscription_id: id(4), inscribed: on_four })
    );
    assert_eq!(check_not_inscribed(&set, &SatPoint { outpoint: outpoint(3), offset: 4 }), Ok(()));
}

#[test]
fn the_first_cardinal_output_is_chosen() {
    let mut utxos = UtxoSet::new();
    utxos.insert(outpoint(3), 1);
    utxos.insert(outpoint(2), 1);
    utxos.insert(outpoint(1), 1);
    let mut inscribed = InscriptionSet::new();
    inscribed.insert(SatPoint { outpoint: outpoint(1), offset: 0 }, InscriptionId { txid: [0; 32] });
    assert_eq!(choose_satpoint(None, &inscribed, &utxos), Ok(SatPoint { outpoint: outpoint(2), offset: 0 }));
    let named = SatPoint { outpoint: outpoint(9), offset: 3 };
    assert_eq!(choose_satpoint(Some(named), &inscribed, &utxos), Ok(named));
    assert_eq!(choose_satpoint(None, &inscribed, &UtxoSet::new()), Err(Error::NoCardinalUtxos));
    inscribed.insert(SatPoint { outpoint: outpoint(2), offset: 1 }, InscriptionId { txid: [0; 32] });
    inscribed.insert(SatPoint { outpoint: outpoint(3), offset: 2 }, InscriptionId { txid: [0; 32] });
    assert_eq!(choose_satpoint(None, &inscribed, &utxos), Err(Error::NoCardinalUtxos));
    assert_eq!(
        select_cardinal_utxo(&utxos, &InscriptionSet::new(), &vec![outpoint(1)], 1),
        Some(Utxo { outpoint: outpoint(2), value: 1 })
    );
    assert_eq!(select_cardinal_utxo(&utxos, &InscriptionSet::new(), &vec![], 2), None);
    assert_eq!(select_cardinal_utxo(&utxos, &inscribed, &vec![], 0), None);
}

#[test]
fn reveal_value_pays_the_fee_and_must_not_be_dust() {
    assert_eq!(reveal_value(10_000, 141, 294), Ok(9_859));
    assert_eq!(reveal_value(435, 141, 294), Ok(294));
    assert_eq!(reveal_value(434, 141, 294), Err(Error::RevealDust));
    assert_eq!(reveal_value(141, 141, 0), Ok(0));
    let error = reveal_value(140, 141, 0).unwrap_err();
    assert_eq!(error, Error::InsufficientToPayFee);
    assert_eq!(error.message(), "commit transaction output value insufficient to pay transaction fee");
}

#[test]
fn weight_is_limited_unless_no_limit_is_asked_for() {
    assert_eq!(check_weight(400_000, false), Ok(()));
    assert_eq!(check_weight(400_001, false), Err(Error::WeightExceeded { weight: 400_001 }));
    assert_eq!(check_weight(400_001, true), Ok(()));
    assert_eq!(check_weight(u64::MAX, true), Ok(()));
}

#[test]
fn the_one_output_of_a_script_is_found() {
    let out = |script: &[u8]| TxOut { value: 1, script_pubkey: script.to_vec() };
    let outputs = vec![out(b"a"), out(b"b"), out(b"a"), out(b"c")];
    assert_eq!(unique_output(&outputs, &b"b".to_vec()), Some(1));
    assert_eq!(unique_output(&outputs, &b"c".to_vec()), Some(3));
    assert_eq!(unique_output(&outputs, &b"a".to_vec()), None);
    assert_eq!(unique_output(&outputs, &b"d".to_vec()), None);
}

#[test]
fn reveal_template_has_one_unsigned_input_and_the_output() {
    let output = TxOut { value: 5, script_pubkey: vec![0x51, 0x20, 1, 2, 3] };
    let (tx, fee) = build_reveal_transaction(
        &vec![0xc0; 33],
        FeeRate::new(2, 1).unwrap(),
        outpoint(4),
        output.clone(),
        &vec![0xac; 100],
    );
    assert_eq!(
        tx,
        Transaction {
            version: 1,
            lock_time: 0,
            input: vec![TxIn {
                previous_output: outpoint(4),
                script_sig: Vec::new(),
                sequence: 0xFFFF_FFFD,
                witness: Vec::new(),
            }],
            output: vec![output],
        }
    );
    let weight = 4 * (4 + 1 + 41 + 1 + 8 + 1 + 5 + 4) + 2 + 1 + 65 + 101 + 34;
    assert_eq!(fee, (weight + 1) / 2);
    assert_eq!(tx.weight(), 4 * (4 + 1 + 41 + 1 + 8 + 1 + 5 + 4));
    assert!(tx.is_explicitly_rbf());
    assert_eq!(tx.serialize().len(), 65);
}

#[test]
fn taproot_scripts_and_dust_thresholds() {
    let script = p2tr_script(&[0x11; 32]);
    let mut expected = vec![0x51, 0x20];
    expected.extend_from_slice(&[0x11; 32]);
    assert_eq!(script, expected);
    assert_eq!(check_dust(&vec![TxOut { value: 330, script_pubkey: script.clone() }]), Ok(()));
    assert_eq!(
        check_dust(&vec![
            TxOut { value: 330, script_pubkey: script.clone() },
            TxOut { value: 329, script_pubkey: script.clone() },
            TxOut { value: 0, script_pubkey: script.clone() },
        ]),
        Err(Error::Dust { output_value: 329, dust_value: 330 })
    );
    assert_eq!(
        check_dust(&vec![TxOut { value: 476, script_pubkey: vec![0x76, 0xa9] }]),
        Err(Error::Dust { output_value: 476, dust_value: 3 * (32 + 4 + 1 + 107 + 4 + 8 + 3) })
    );
}

#[test]
fn commit_builder_leaves_small_change_on_the_last_output() {
    let mut utxos = UtxoSet::new();
    utxos.insert(outpoint(1), 10_400);
    let script = p2tr_script(&[0x11; 32]);
    let change = [p2tr_script(&[0x22; 32]), p2tr_script(&[0x33; 32])];
    let commit = vec![TxOut { value: 10_000, script_pubkey: script.clone() }];
    let tx = TransactionBuilder::build_transaction_with_values(
        SatPoint { outpoint: outpoint(1), offset: 0 },
        &InscriptionSet::new(),
        &utxos,
        &commit,
        None,
        &change,
        FeeRate::new(1, 1).unwrap(),
    )
    .unwrap();
    assert_eq!(tx.output.len(), 1);
    let fee = Inscribe::calculate_fee(&tx, &utxos);
    assert_eq!(fee, (tx.weight() + 68 + 3) / 4);
    assert_eq!(tx.output[0].value, 10_400 - fee);
    assert_eq!(tx.output[0].script_pubkey, script);

    utxos.insert(outpoint(1), 10_000);
    let error = TransactionBuilder::build_transaction_with_values(
        SatPoint { outpoint: outpoint(1), offset: 0 },
        &InscriptionSet::new(),
        &utxos,
        &commit,
        None,
        &change,
        FeeRate::new(1, 1).unwrap(),
    )
    .unwrap_err();
    assert_eq!(error, Error::InsufficientFunds);
    assert_eq!(
        error.message(),
        "wallet does not contain enough cardinal UTXOs, please add additional funds to wallet."
    );
}

#[test]
fn recovery_keys_are_backed_up_as_descriptors() {
    let key = [0x42u8; 32];
    let secret = bitcoin::secp256k1::SecretKey::from_slice(&key).unwrap();
    for (network, outside) in [
        (Network::Bitcoin, bitcoin::Network::Bitcoin),
        (Network::Testnet, bitcoin::Network::Testnet),
        (Network::Signet, bitcoin::Network::Signet),
        (Network::Regtest, bitcoin::Network::Regtest),
    ] {
        let wif = bitcoin::PrivateKey::new(secret, outside).to_wif();
        assert_eq!(recovery_descriptor(&key, network), Some(format!("rawtr({wif})").into_bytes()));
        assert_eq!(
            import_descriptor(&key, network, "abcd1234"),
            Some(format!("rawtr({wif})#abcd1234").into_bytes())
        );
    }
    assert_eq!(recovery_descriptor(&[0; 32], Network::Bitcoin), None);
    assert_eq!(import_descriptor(&[0xff; 32], Network::Signet, "x"), None);
    assert_eq!(recovery_label(), "commit tx recovery key");
}

#[test]
fn a_failed_import_is_reported() {
    assert_eq!(check_import(&vec![]), Ok(()));
    assert_eq!(check_import(&vec![true, true]), Ok(()));
    let error = check_import(&vec![true, false, true]).unwrap_err();
    assert_eq!(error, Error::RecoveryKeyImport);
    assert_eq!(error.message(), "commit tx recovery key import failed");
}

#[test]
fn fee_rates_are_read_from_decimal_numbers() {
    let parts = |text: &str| FeeRate::parse(text).map(|rate| (rate.numerator(), rate.denominator()));
    assert_eq!(parts("3.3"), Ok((33, 10)));
    assert_eq!(parts("1"), Ok((1, 1)));
    assert_eq!(parts("0"), Ok((0, 1)));
    assert_eq!(parts("10."), Ok((10, 1)));
    assert_eq!(parts(".5"), Ok((5, 10)));
    assert_eq!(parts("0.001"), Ok((1, 1000)));
    assert_eq!(parts("007.250"), Ok((7250, 1000)));
    assert_eq!(parts("18446744073709551615"), Ok((u64::MAX, 1)));
    assert_eq!(parts("0.0000000000000000001"), Ok((1, 10_000_000_000_000_000_000)));
    for bad in ["", ".", "1.2.3", "-1", "+1", "1e3", "inf", "NaN", " 1", "1 ", "18446744073709551616", "0.00000000000000000001", "1,5"] {
        assert_eq!(parts(bad), Err(Error::InvalidFeeRate), "{:?}", bad);
    }
    assert_eq!(FeeRate::parse("3.3").unwrap().fee(684), FeeRate::new(33, 10).unwrap().fee(684));
    for rate in [0.0f64, 1.0, 3.3, 0.1, 12.5, 1000.0] {
        let exact = FeeRate::parse(&rate.to_string()).unwrap();
        for weight in [0u64, 1, 4, 437, 561, 616, 684, 40_000, 402_799] {
            assert_eq!(exact.fee(weight), (rate * (weight as f64 / 4.0)).ceil() as u64, "{rate} {weight}");
        }
    }
}

#[test]
fn a_key_commits_to_an_inscription() {
    let inscription = ord::inscription::Inscription::new(b"text/plain".to_vec(), b"ord".to_vec());
    let commitment = ord::commitment::commit_to(&inscription, [9u8; 32]).unwrap();
    let secp = bitcoin::secp256k1::Secp256k1::new();
    let pair = bitcoin::secp256k1::KeyPair::from_seckey_slice(&secp, &[9u8; 32]).unwrap();
    let (public_key, _parity) = bitcoin::secp256k1::XOnlyPublicKey::from_keypair(&pair);
    assert_eq!(commitment.secret_key, [9u8; 32]);
    assert_eq!(commitment.public_key, public_key.serialize());
    assert_eq!(commitment.reveal_script, inscription.reveal_script(&public_key.serialize()));
    assert_eq!(commitment.spend.control_block.len(), 33);
    assert_eq!(commitment.spend.control_block[0] & 0xfe, 0xc0);
    assert_eq!(&commitment.spend.control_block[1..], &public_key.serialize()[..]);
    assert!(commitment.spend.merkle_root.is_some());
    assert_eq!(commitment.commit_script, p2tr_script(&commitment.spend.output_key));
    assert_ne!(commitment.spend.output_key, commitment.public_key);
    assert_eq!(ord::commitment::commit_to(&inscription, [0u8; 32]), Err(Error::Commitment));
}

#[test]
fn outpoints_are_ordered_as_the_outside_crate_orders_them() {
    let mut points = Vec::new();
    for (first, last, vout) in [(0u8, 0u8, 0u32), (0, 1, 7), (1, 0, 0), (1, 0, 1), (0xff, 0, 0), (0x7f, 0xff, 3), (1, 0, u32::MAX)] {
        let mut txid = [0x10u8; 32];
        txid[0] = first;
        txid[31] = last;
        points.push(OutPoint { txid, vout });
    }
    for a in &points {
        for b in &points {
            let outside_a = bitcoin::OutPoint::new(bitcoin::hashes::Hash::from_inner(a.txid), a.vout);
            let outside_b = bitcoin::OutPoint::new(bitcoin::hashes::Hash::from_inner(b.txid), b.vout);
            let expected = match outside_a.cmp(&outside_b) {
                std::cmp::Ordering::Less => Rank::Before,
                std::cmp::Ordering::Equal => Rank::Same,
                std::cmp::Ordering::Greater => Rank::After,
            };
            assert_eq!(a.rank(b), expected);
        }
    }
}

fn commit_for(commitment: &ord::commitment::Commitment, value: u64) -> Transaction {
    Transaction {
        version: 1,
        lock_time: 0,
        input: vec![TxIn {
            previous_output: outpoint(1),
            script_sig: Vec::new(),
            sequence: 0xFFFF_FFFD,
            witness: Vec::new(),
        }],
        output: vec![
            TxOut { value: 999, script_pubkey: vec![0x51] },
            TxOut { value, script_pubkey: commitment.commit_script.clone() },
        ],
    }
}

fn outside_tx(tx: &Transaction) -> bitcoin::Transaction {
    bitcoin::consensus::deserialize(&tx.serialize()).unwrap()
}

fn sign(hash: &[u8; 32], secret_key: &[u8; 32]) -> [u8; 64] {
    let secp = bitcoin::secp256k1::Secp256k1::new();
    let pair = bitcoin::secp256k1::KeyPair::from_seckey_slice(&secp, secret_key).unwrap();
    let message = bitcoin::secp256k1::Message::from_slice(hash).unwrap();
    *secp.sign_schnorr(&message, &pair).as_ref()
}

#[test]
fn a_reveal_is_prepared_sealed_and_finished() {
    let inscription = ord::inscription::Inscription::new(b"text/plain".to_vec(), b"ord".to_vec());
    let commitment = ord::commitment::commit_to(&inscription, [9u8; 32]).unwrap();
    let destination = vec![0x00, 0x14, 1, 2, 3, 4, 5, 6, 7, 8, 9, 10, 11, 12, 13, 14, 15, 16, 17, 18, 19, 20];
    let rate = FeeRate::new(1, 1).unwrap();
    let commit = commit_for(&commitment, 10_000);

    let (previous_output, value) = prepare_reveal(&commit, &commitment, &destination, rate).unwrap();
    assert_eq!(previous_output, OutPoint { txid: commit.txid(), vout: 1 });

    let hash =
        reveal_sighash(previous_output, value, &destination, &commit.output[1], &commitment.reveal_script).unwrap();
    let unsigned = Transaction {
        version: 1,
        lock_time: 0,
        input: vec![TxIn { previous_output, script_sig: Vec::new(), sequence: 0xFFFF_FFFD, witness: Vec::new() }],
        output: vec![TxOut { value, script_pubkey: destination.clone() }],
    };
    let expected = bitcoin::util::sighash::SighashCache::new(&outside_tx(&unsigned))
        .taproot_script_spend_signature_hash(
            0,
            &bitcoin::util::sighash::Prevouts::All(&[bitcoin::TxOut {
                value: 10_000,
                script_pubkey: bitcoin::Script::from(commitment.commit_script.clone()),
            }]),
            bitcoin::util::taproot::TapLeafHash::from_script(
                &bitcoin::Script::from(commitment.reveal_script.clone()),
                bitcoin::util::taproot::LeafVersion::TapScript,
            ),
            bitcoin::SchnorrSighashType::Default,
        )
        .unwrap();
    assert_eq!(hash, bitcoin::hashes::Hash::into_inner(expected));
    assert_ne!(
        reveal_sighash(previous_output, value + 1, &destination, &commit.output[1], &commitment.reveal_script),
        Some(hash)
    );

    let signature = sign(&hash, &[9u8; 32]);
    let (tx, recovery_key) =
        seal_reveal(previous_output, value, &destination, &commitment, false, &hash, &signature).unwrap();
    assert_eq!(value, 10_000 - (tx.weight() + 3) / 4);
    assert_eq!(
        tx,
        Transaction {
            version: 1,
            lock_time: 0,
            input: vec![TxIn {
                previous_output,
                script_sig: Vec::new(),
                sequence: 0xFFFF_FFFD,
                witness: vec![
                    signature.to_vec(),
                    commitment.reveal_script.clone(),
                    commitment.spend.control_block.clone()
                ],
            }],
            output: vec![TxOut { value, script_pubkey: destination.clone() }],
        }
    );
    for forged in [[7u8; 64], sign(&[1u8; 32], &[9u8; 32]), sign(&hash, &[8u8; 32])] {
        assert_eq!(
            seal_reveal(previous_output, value, &destination, &commitment, true, &hash, &forged),
            Err(Error::Signing)
        );
    }

    let (finished, finished_key) = finish_reveal(&commit, &commitment, &destination, rate, false).unwrap();
    assert_eq!(finished.output, tx.output);
    assert_eq!(finished.input[0].previous_output, previous_output);
    assert_eq!(finished.input[0].witness[1..], tx.input[0].witness[1..]);
    assert_eq!(finished_key, recovery_key);
    assert_ne!(recovery_key, commitment.secret_key);
    let mut made = [0u8; 64];
    made.copy_from_slice(&finished.input[0].witness[0]);
    assert!(seal_reveal(previous_output, value, &destination, &commitment, false, &hash, &made).is_ok());

    assert_eq!(
        prepare_reveal(&commit_for(&commitment, 100), &commitment, &destination, rate),
        Err(Error::InsufficientToPayFee)
    );
    assert_eq!(
        prepare_reveal(&commit_for(&commitment, 400), &commitment, &destination, rate),
        Err(Error::RevealDust)
    );
    let mut twice = commit_for(&commitment, 10_000);
    twice.output[0].script_pubkey = commitment.commit_script.clone();
    assert_eq!(prepare_reveal(&twice, &commitment, &destination, rate), Err(Error::CommitOutput));
    twice.output.clear();
    assert_eq!(prepare_reveal(&twice, &commitment, &destination, rate), Err(Error::CommitOutput));
}

#[test]
fn a_reveal_that_cannot_be_signed_or_recovered_is_refused() {
    let inscription = ord::inscription::Inscription::new(b"text/plain".to_vec(), b"ord".to_vec());
    let good = ord::commitment::commit_to(&inscription, [9u8; 32]).unwrap();
    let destination = vec![0x51, 0x20];
    let rate = FeeRate::new(1, 1).unwrap();

    let mut keyless = good.clone();
    keyless.secret_key = [0u8; 32];
    let error = finish_reveal(&commit_for(&keyless, 10_000), &keyless, &destination, rate, false).unwrap_err();
    assert_eq!(error, Error::Signing);
    assert_eq!(error.message(), "could not sign the reveal transaction");

    let mut other = good.clone();
    other.secret_key = [8u8; 32];
    let error = finish_reveal(&commit_for(&other, 10_000), &other, &destination, rate, false).unwrap_err();
    assert_eq!(error, Error::Signing);

    let mut astray = good.clone();
    astray.commit_script = p2tr_script(&[3u8; 32]);
    let error = finish_reveal(&commit_for(&astray, 10_000), &astray, &destination, rate, false).unwrap_err();
    assert_eq!(error, Error::RecoveryKey);
    assert_eq!(error.message(), "recovery key does not open the commit output");

    let mut heavy = good.clone();
    heavy.reveal_script = vec![0x51; 400_000];
    assert_eq!(
        finish_reveal(&commit_for(&heavy, 200_000), &heavy, &destination, rate, false),
        Err(Error::WeightExceeded { weight: 4 * (4 + 1 + 41 + 1 + 8 + 1 + 2 + 4) + 2 + 1 + 65 + 5 + 400_000 + 34 })
    );
    assert!(finish_reveal(&commit_for(&heavy, 200_000), &heavy, &destination, rate, true).is_ok());
    let large = ord::inscription::Inscription::new(b"text/plain".to_vec(), vec![0u8; 400_000]);
    let large = ord::commitment::commit_to(&large, [9u8; 32]).unwrap();
    let error = finish_reveal(&commit_for(&large, 200_000), &large, &destination, rate, false).unwrap_err();
    assert!(matches!(error, Error::WeightExceeded { weight } if weight > 400_000));
    assert!(finish_reveal(&commit_for(&large, 200_000), &large, &destination, rate, true).is_ok());
}
