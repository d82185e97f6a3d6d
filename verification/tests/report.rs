use ord::fee_rate::FeeRate;
use ord::inscribe::{Action, Inscribe};
use ord::inscribed::InscriptionSet;
use ord::inscription::Inscription;
use ord::outpoint::{InscriptionId, OutPoint, SatPoint};
use ord::utxo::UtxoSet;

fn inscribe(postage: Option<u64>, commit_fee_rate: Option<FeeRate>) -> Inscribe {
    Inscribe {
        satpoint: None,
        fee_rate: FeeRate::new(2, 1).unwrap(),
        commit_fee_rate,
        no_backup: false,
        no_limit: false,
        dry_run: true,
        alignment: None,
        postage,
    }
}

fn wallet() -> UtxoSet {
    let mut utxos = UtxoSet::new();
    utxos.insert(OutPoint { txid: [5; 32], vout: 0 }, 100_000);
    utxos
}

fn script(byte: u8) -> Vec<u8> {
    let mut script = vec![0x00, 0x14];
    script.extend_from_slice(&[byte; 20]);
    script
}

#[test]
fn a_run_reports_ids_and_fees() {
    let inscriptions = vec![
        Inscription::new(b"text/plain".to_vec(), b"one".to_vec()),
        Inscription::new(b"text/plain".to_vec(), b"two".to_vec()),
    ];
    let wallet = wallet();
    let (plan, output) = inscribe(None, None)
        .run(&inscriptions, &InscriptionSet::new(), &wallet, &[script(1), script(2)], &script(3))
        .unwrap();

    assert_eq!(output.satpoint, SatPoint { outpoint: OutPoint { txid: [5; 32], vout: 0 }, offset: 0 });
    assert_eq!(output.satpoint, plan.satpoint);
    assert_eq!(output.commit, plan.commit_tx.txid());
    assert_eq!(output.reveals, vec![plan.reveal_txs[0].txid(), plan.reveal_txs[1].txid()]);
    assert_eq!(
        output.inscriptions,
        vec![InscriptionId { txid: output.reveals[0] }, InscriptionId { txid: output.reveals[1] }]
    );
    assert_ne!(output.reveals[0], output.reveals[1]);

    let commit_fee = Inscribe::calculate_fee(&plan.commit_tx, &wallet);
    let reveal_fees: u64 = plan
        .reveal_txs
        .iter()
        .map(|reveal| {
            plan.commit_tx.output[reveal.input[0].previous_output.vout as usize].value - reveal.output[0].value
        })
        .sum();
    assert_eq!(output.fees, commit_fee + reveal_fees);
    assert_eq!(commit_fee, (plan.commit_tx.weight() + 68 + 1) / 2);
    for reveal in &plan.reveal_txs {
        assert_eq!(reveal.output[0].value, 10_000);
        assert_eq!(reveal.output[0].script_pubkey, script(3));
    }
}

#[test]
fn a_run_uses_the_postage_and_the_commit_fee_rate_chosen() {
    let inscriptions = vec![Inscription::new(b"text/plain".to_vec(), b"one".to_vec())];
    let wallet = wallet();
    let (plan, output) = inscribe(Some(777), FeeRate::new(5, 1).ok())
        .run(&inscriptions, &InscriptionSet::new(), &wallet, &[script(1), script(2)], &script(3))
        .unwrap();
    assert_eq!(plan.reveal_txs[0].output[0].value, 777);
    let commit_fee = Inscribe::calculate_fee(&plan.commit_tx, &wallet);
    assert_eq!(commit_fee, ((plan.commit_tx.weight() + 68) * 5 + 3) / 4);
    let reveal_fee = (plan.reveal_txs[0].weight() + 1) / 2;
    assert_eq!(output.fees, commit_fee + reveal_fee);
}

#[test]
fn a_dry_run_only_reports() {
    let mut chosen = inscribe(None, None);
    assert_eq!(chosen.action(), Action::Report);
    chosen.dry_run = false;
    assert_eq!(chosen.action(), Action::Broadcast { backup: true });
    chosen.no_backup = true;
    assert_eq!(chosen.action(), Action::Broadcast { backup: false });
    chosen.dry_run = true;
    assert_eq!(chosen.action(), Action::Report);
}
