use ord::error::Error;
use ord::outpoint::{OutPoint, SatPoint};
use ord::text::{push_decimal, push_outpoint, push_satpoint, push_str, push_txid};

fn written(write: impl Fn(&mut Vec<u8>)) -> String {
    let mut out = b"> ".to_vec();
    write(&mut out);
    String::from_utf8(out).unwrap()
}

#[test]
fn numbers_are_written_in_decimal() {
    assert_eq!(written(|out| push_decimal(out, 0)), "> 0");
    assert_eq!(written(|out| push_decimal(out, 9)), "> 9");
    assert_eq!(written(|out| push_decimal(out, 10)), "> 10");
    assert_eq!(written(|out| push_decimal(out, 402_799)), "> 402799");
    assert_eq!(written(|out| push_decimal(out, u64::MAX)), format!("> {}", u64::MAX));
}

#[test]
fn outpoints_are_written_as_the_outside_crate_writes_them() {
    let mut txid = [0u8; 32];
    for (i, byte) in txid.iter_mut().enumerate() {
        *byte = (i * 9) as u8;
    }
    let outside: bitcoin::Txid = bitcoin::hashes::Hash::from_inner(txid);
    assert_eq!(written(|out| push_txid(out, &txid)), format!("> {outside}"));
    let outpoint = OutPoint { txid, vout: 77 };
    assert_eq!(
        written(|out| push_outpoint(out, &outpoint)),
        format!("> {}", bitcoin::OutPoint::new(outside, 77))
    );
    let satpoint = SatPoint { outpoint, offset: 12345 };
    assert_eq!(written(|out| push_satpoint(out, &satpoint)), format!("> {outside}:77:12345"));
    assert_eq!(written(|out| push_str(out, "héllo")), "> héllo");
}

#[test]
fn messages_are_the_text_of_their_bytes() {
    let errors = [
        Error::NoCardinalUtxos,
        Error::NotInWallet { satpoint: SatPoint { outpoint: OutPoint { txid: [1; 32], vout: 0 }, offset: 0 } },
        Error::ValueOverflow,
        Error::Commitment,
        Error::CommitOutput,
        Error::Signing,
        Error::RecoveryKey,
    ];
    for error in errors {
        assert_eq!(error.message().into_bytes(), error.message_bytes());
        assert!(!error.message().is_empty());
    }
    assert_eq!(
        errors[1].message(),
        format!("outgoing satpoint {}:0:0 not in wallet", "01".repeat(32))
    );
    assert_eq!(Error::ValueOverflow.message(), "arithmetic overflow calculating value");
}
