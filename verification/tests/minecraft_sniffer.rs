use bridge46::SniffOutcome;
use bridge46::minecraft::HandshakeStatus;
use bridge46::minecraft::VarIntStatus;
use bridge46::minecraft::read_server_info;
use bridge46::minecraft::read_var_int;
use bridge46::minecraft::sniff_minecraft;
use bridge46::minecraft::write_var_int;

#[test]
fn varint_known_encodings() {
    assert_eq!(write_var_int(0), vec![0x00]);
    assert_eq!(write_var_int(1), vec![0x01]);
    assert_eq!(write_var_int(127), vec![0x7F]);
    assert_eq!(write_var_int(128), vec![0x80, 0x01]);
    assert_eq!(write_var_int(300), vec![0xAC, 0x02]);
    assert_eq!(write_var_int(763), vec![0xFB, 0x05]);
    assert_eq!(write_var_int(u32::MAX), vec![0xFF, 0xFF, 0xFF, 0xFF, 0x0F]);
}

#[test]
fn varint_round_trips() {
    let samples: [u32; 12] = [
        0,
        1,
        127,
        128,
        255,
        300,
        16383,
        16384,
        763,
        2097151,
        2147483647,
        u32::MAX,
    ];
    for n in samples {
        let enc = write_var_int(n);
        match read_var_int(&enc, 0) {
            VarIntStatus::Value { value, width } => {
                assert_eq!(value, n);
                assert_eq!(width, enc.len());
            }
            _ => panic!("round trip failed"),
        }
    }
}

#[test]
fn varint_round_trips_with_trailing_bytes() {
    let mut enc = write_var_int(300);
    enc.extend_from_slice(&[0xFF, 0x00, 0x55]);
    match read_var_int(&enc, 0) {
        VarIntStatus::Value { value, width } => {
            assert_eq!(value, 300);
            assert_eq!(width, 2);
        }
        _ => panic!("round trip failed"),
    }
}

#[test]
fn varint_overlong_chain_is_rejected() {
    // Five continuation bytes and no terminator: too big, not a read
    // past the buffer.
    let bytes = [0x80, 0x80, 0x80, 0x80, 0x80, 0x01];
    assert!(matches!(read_var_int(&bytes, 0), VarIntStatus::TooLong));
}

#[test]
fn varint_truncated_chain_waits() {
    assert!(matches!(read_var_int(&[], 0), VarIntStatus::Incomplete));
    assert!(matches!(read_var_int(&[0x80], 0), VarIntStatus::Incomplete));
    assert!(matches!(
        read_var_int(&[0xFF, 0xFF], 0),
        VarIntStatus::Incomplete
    ));
}

fn handshake_packet(hostname: &[u8], port: u16) -> Vec<u8> {
    let mut p: Vec<u8> = Vec::new();
    p.push((hostname.len() + 7) as u8); // packet length prefix
    p.push(0x00); // handshake packet id
    p.extend_from_slice(&write_var_int(763)); // protocol version
    p.push(hostname.len() as u8);
    p.extend_from_slice(hostname);
    p.extend_from_slice(&port.to_be_bytes());
    p
}

#[test]
fn handshake_fields_extracted() {
    let packet = handshake_packet(b"mc.test", 25577);
    match read_server_info(&packet) {
        HandshakeStatus::Info(info) => {
            assert_eq!(info.hostname, b"mc.test".to_vec());
            assert_eq!(info.port, 25577);
            assert_eq!(info.protocol_version, 763);
        }
        _ => panic!("expected handshake fields"),
    }
}

#[test]
fn handshake_sniff_carries_explicit_port() {
    let packet = handshake_packet(b"mc.test", 25577);
    match sniff_minecraft(&packet) {
        SniffOutcome::Success { hostname, port } => {
            assert_eq!(hostname, b"mc.test".to_vec());
            assert_eq!(port, Some(25577));
        }
        _ => panic!("expected a hostname and port"),
    }
}

#[test]
fn handshake_wrong_packet_id_is_malformed() {
    let mut packet = handshake_packet(b"mc.test", 25577);
    packet[1] = 0x02;
    assert!(matches!(
        read_server_info(&packet),
        HandshakeStatus::Malformed
    ));
}

#[test]
fn handshake_truncated_waits() {
    let packet = handshake_packet(b"mc.test", 25577);
    for cut in 0..packet.len() {
        assert!(matches!(
            read_server_info(&packet[..cut]),
            HandshakeStatus::Incomplete
        ));
    }
}

#[test]
fn handshake_longest_hostname() {
    // The longest hostname a one-byte length can declare.
    let name = [b'a'; 255];
    let packet = handshake_packet(&name, 25565);
    match sniff_minecraft(&packet) {
        SniffOutcome::Success { hostname, port } => {
            assert_eq!(hostname, name.to_vec());
            assert_eq!(port, Some(25565));
        }
        _ => panic!("expected a hostname"),
    }
}

#[test]
fn handshake_overlong_varint_is_malformed() {
    let mut packet: Vec<u8> = vec![0x10, 0x00];
    packet.extend_from_slice(&[0x80, 0x80, 0x80, 0x80, 0x80, 0x01]);
    packet.extend_from_slice(&[0x01, b'x', 0x00, 0x50]);
    assert!(matches!(sniff_minecraft(&packet), SniffOutcome::Malformed));
}
