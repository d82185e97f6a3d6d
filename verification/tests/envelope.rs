use ord::inscription::Inscription;

#[test]
fn reveal_script_of_small_inscription() {
    let inscription = Inscription::new(b"text/plain".to_vec(), b"ord".to_vec());
    let key = [7u8; 32];
    let script = inscription.reveal_script(&key);
    let mut expected = vec![32u8];
    expected.extend_from_slice(&key);
    expected.push(0xac);
    expected.extend_from_slice(&[0x00, 0x63, 0x03, b'o', b'r', b'd', 0x01, 0x01, 0x0a]);
    expected.extend_from_slice(b"text/plain");
    expected.extend_from_slice(&[0x00, 0x03, b'o', b'r', b'd', 0x68]);
    assert_eq!(script, expected);
    assert_eq!(Inscription::from_reveal_script(&script), Some(inscription));
}

#[test]
fn reveal_script_chunks_large_body() {
    let inscription = Inscription::new(b"text/plain".to_vec(), vec![0u8; 400_000]);
    let script = inscription.reveal_script(&[9u8; 32]);
    assert_eq!(script.len(), 402_364);
    assert_eq!(Inscription::from_reveal_script(&script), Some(inscription));
}

#[test]
fn empty_body_keeps_its_marker() {
    let inscription = Inscription::new(b"a".to_vec(), Vec::new());
    let script = inscription.reveal_script(&[1u8; 32]);
    assert_eq!(&script[34..], &[0x00, 0x63, 0x03, b'o', b'r', b'd', 0x01, 0x01, 0x01, b'a', 0x00, 0x68]);
    assert_eq!(Inscription::from_reveal_script(&script), Some(inscription));
}
