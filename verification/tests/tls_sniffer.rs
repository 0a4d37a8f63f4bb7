use bridge46::SniffOutcome;
use bridge46::https;
use bridge46::quic;

// A minimal single-record ClientHello; `extensions` is the raw extension
// list, or None for a hello that ends after the compression methods.
fn client_hello(extensions: Option<&[u8]>) -> Vec<u8> {
    let mut body: Vec<u8> = Vec::new();
    body.extend_from_slice(&[3, 3]); // legacy client version
    body.extend_from_slice(&[0u8; 32]); // random
    body.push(0); // session id length
    body.extend_from_slice(&[0, 2, 0x13, 0x01]); // cipher suites
    body.extend_from_slice(&[1, 0]); // compression methods
    if let Some(exts) = extensions {
        body.extend_from_slice(&(exts.len() as u16).to_be_bytes());
        body.extend_from_slice(exts);
    }
    let mut record: Vec<u8> = Vec::new();
    record.extend_from_slice(&[22, 3, 1]); // handshake record, TLS 1.x
    record.extend_from_slice(&((body.len() + 4) as u16).to_be_bytes());
    record.push(1); // client_hello
    record.push(0);
    record.extend_from_slice(&(body.len() as u16).to_be_bytes());
    record.extend_from_slice(&body);
    record
}

fn sni_extension(name: &[u8]) -> Vec<u8> {
    let mut exts: Vec<u8> = Vec::new();
    exts.extend_from_slice(&[0, 0]); // server_name extension type
    exts.extend_from_slice(&((name.len() + 5) as u16).to_be_bytes());
    exts.extend_from_slice(&((name.len() + 3) as u16).to_be_bytes());
    exts.push(0); // host_name
    exts.extend_from_slice(&(name.len() as u16).to_be_bytes());
    exts.extend_from_slice(name);
    exts
}

fn expect_host(outcome: SniffOutcome, want: &[u8]) {
    match outcome {
        SniffOutcome::Success { hostname, port } => {
            assert_eq!(hostname, want.to_vec());
            assert_eq!(port, None);
        }
        _ => panic!("expected a hostname"),
    }
}

#[test]
fn tls_sni_extracted() {
    let hello = client_hello(Some(&sni_extension(b"game.test")));
    expect_host(https::get_sni_from_packet(&hello), b"game.test");
}

#[test]
fn tls_sni_found_after_other_extensions() {
    let mut exts: Vec<u8> = vec![0, 0x17, 0, 0]; // an unrelated, empty extension
    exts.extend_from_slice(&sni_extension(b"second.test"));
    let hello = client_hello(Some(&exts));
    expect_host(https::get_sni_from_packet(&hello), b"second.test");
}

#[test]
fn tls_hello_without_extensions_is_absent() {
    let hello = client_hello(None);
    assert!(matches!(
        https::get_sni_from_packet(&hello),
        SniffOutcome::Absent
    ));
}

#[test]
fn tls_hello_without_sni_is_absent() {
    let hello = client_hello(Some(&[0, 0x17, 0, 0]));
    assert!(matches!(
        https::get_sni_from_packet(&hello),
        SniffOutcome::Absent
    ));
}

#[test]
fn tls_partial_record_waits() {
    let hello = client_hello(Some(&sni_extension(b"game.test")));
    assert!(matches!(
        https::get_sni_from_packet(&hello[..3]),
        SniffOutcome::InsufficientData
    ));
    assert!(matches!(
        https::get_sni_from_packet(&hello[..hello.len() - 1]),
        SniffOutcome::InsufficientData
    ));
}

#[test]
fn tls_fragmentation_boundaries_do_not_matter() {
    let hello = client_hello(Some(&sni_extension(b"frag.test")));
    for cut in 0..hello.len() + 1 {
        match https::get_sni_from_packet(&hello[..cut]) {
            SniffOutcome::InsufficientData => {}
            other => expect_host(other, b"frag.test"),
        }
    }
}

#[test]
fn tls_wrong_record_type_is_malformed() {
    let mut hello = client_hello(Some(&sni_extension(b"game.test")));
    hello[0] = 23; // application data, not handshake
    assert!(matches!(
        https::get_sni_from_packet(&hello),
        SniffOutcome::Malformed
    ));
}

#[test]
fn tls_wrong_version_major_is_malformed() {
    let mut hello = client_hello(Some(&sni_extension(b"game.test")));
    hello[1] = 2;
    assert!(matches!(
        https::get_sni_from_packet(&hello),
        SniffOutcome::Malformed
    ));
}

#[test]
fn tls_non_hello_handshake_is_malformed() {
    let mut hello = client_hello(Some(&sni_extension(b"game.test")));
    hello[5] = 2; // server_hello
    assert!(matches!(
        https::get_sni_from_packet(&hello),
        SniffOutcome::Malformed
    ));
}

#[test]
fn tls_overlong_inner_length_is_malformed() {
    let mut hello = client_hello(None);
    let cml_at = hello.len() - 2;
    hello[cml_at] = 200; // compression list now reaches past the hello
    assert!(matches!(
        https::get_sni_from_packet(&hello),
        SniffOutcome::Malformed
    ));
}

#[test]
fn quic_datagram_with_sni() {
    let hello = client_hello(Some(&sni_extension(b"game.test")));
    expect_host(quic::get_sni_from_packet(&hello), b"game.test");
}

#[test]
fn quic_truncated_datagram_is_malformed_not_retried() {
    let hello = client_hello(Some(&sni_extension(b"game.test")));
    assert!(matches!(
        quic::get_sni_from_packet(&hello[..hello.len() - 1]),
        SniffOutcome::Malformed
    ));
}

#[test]
fn quic_datagram_without_sni_is_absent() {
    let hello = client_hello(None);
    assert!(matches!(
        quic::get_sni_from_packet(&hello),
        SniffOutcome::Absent
    ));
}
