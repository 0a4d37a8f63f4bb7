use bridge46::DriverState;
use bridge46::DriverVerdict;
use bridge46::DropReason;
use bridge46::Protocol;
use bridge46::ResolutionPolicy;
use bridge46::ResolveError;
use bridge46::ResolvedUpstream;
use bridge46::SniffOutcome;
use bridge46::driver::GROWTH_INCREMENT;
use bridge46::driver::INITIAL_CAPACITY;
use bridge46::driver::MAX_CAPACITY;
use bridge46::driver::drive;
use bridge46::driver::sniff;
use bridge46::driver::start;
use bridge46::resolver::choose_upstream;
use bridge46::resolver::needs_delegation_check;
use bridge46::resolver::upstream_port;

const NO_BRIDGE: ResolutionPolicy = ResolutionPolicy {
    bridge_ipv4: None,
    bridge_ipv6: None,
};

const ADDR_1: u128 = 0x2001_0db8_0000_0000_0000_0000_0000_0001;
const ADDR_2: u128 = 0x2001_0db8_0000_0000_0000_0000_0000_0002;
const ADDR_3: u128 = 0x2001_0db8_0000_0000_0000_0000_0000_0003;

#[test]
fn driver_starts_at_initial_capacity() {
    match start() {
        DriverState::Accumulating { capacity } => assert_eq!(capacity, INITIAL_CAPACITY),
        _ => panic!("expected an accumulating state"),
    }
}

#[test]
fn driver_success_routes() {
    let outcome = SniffOutcome::Success {
        hostname: b"example.test".to_vec(),
        port: None,
    };
    match drive(INITIAL_CAPACITY, outcome, 40) {
        DriverState::Done(DriverVerdict::Route { hostname, port }) => {
            assert_eq!(hostname, b"example.test".to_vec());
            assert_eq!(port, None);
        }
        _ => panic!("expected a route"),
    }
}

#[test]
fn driver_malformed_and_absent_reject() {
    assert!(matches!(
        drive(INITIAL_CAPACITY, SniffOutcome::Malformed, 40),
        DriverState::Done(DriverVerdict::Reject(DropReason::Malformed))
    ));
    assert!(matches!(
        drive(INITIAL_CAPACITY, SniffOutcome::Absent, 40),
        DriverState::Done(DriverVerdict::Reject(DropReason::Absent))
    ));
}

#[test]
fn driver_grows_by_fixed_increment() {
    match drive(INITIAL_CAPACITY, SniffOutcome::InsufficientData, 10) {
        DriverState::Accumulating { capacity } => {
            assert_eq!(capacity, INITIAL_CAPACITY + GROWTH_INCREMENT)
        }
        _ => panic!("expected growth"),
    }
}

#[test]
fn driver_stalled_peer_rejects() {
    assert!(matches!(
        drive(512, SniffOutcome::InsufficientData, 0),
        DriverState::Done(DriverVerdict::Reject(DropReason::Stalled))
    ));
}

#[test]
fn driver_never_exceeds_max_capacity() {
    // A connection that never yields a verdict is abandoned after a
    // bounded number of rounds, and the buffer never outgrows the cap.
    let mut state = start();
    let mut rounds = 0;
    loop {
        match state {
            DriverState::Accumulating { capacity } => {
                assert!(capacity <= MAX_CAPACITY);
                rounds += 1;
                assert!(rounds <= MAX_CAPACITY / GROWTH_INCREMENT + 1);
                state = drive(capacity, SniffOutcome::InsufficientData, capacity);
            }
            DriverState::Done(verdict) => {
                assert!(matches!(
                    verdict,
                    DriverVerdict::Reject(DropReason::Exhausted)
                ));
                break;
            }
        }
    }
    assert_eq!(rounds, MAX_CAPACITY / GROWTH_INCREMENT);
}

#[test]
fn sniffed_port_overrides_listening_port() {
    assert_eq!(upstream_port(Some(25577), 25565), 25577);
    assert_eq!(upstream_port(None, 80), 80);
}

#[test]
fn resolver_prefers_first_aaaa_answer() {
    let aaaa = vec![ADDR_1, ADDR_2];
    assert_eq!(
        choose_upstream(&NO_BRIDGE, Some(&aaaa), None, 80),
        Ok(ResolvedUpstream {
            addr: ADDR_1,
            port: 80
        })
    );
}

#[test]
fn resolver_no_aaaa_answers_is_no_record() {
    let aaaa: Vec<u128> = Vec::new();
    assert_eq!(
        choose_upstream(&NO_BRIDGE, Some(&aaaa), None, 80),
        Err(ResolveError::NoRecord)
    );
}

#[test]
fn resolver_failed_query_is_query_failed() {
    assert_eq!(
        choose_upstream(&NO_BRIDGE, None, None, 80),
        Err(ResolveError::QueryFailed)
    );
    // With a bridge configured the A query matters too.
    let policy = ResolutionPolicy {
        bridge_ipv4: Some(0xC000_0201),
        bridge_ipv6: None,
    };
    let aaaa = vec![ADDR_1];
    assert_eq!(
        choose_upstream(&policy, Some(&aaaa), None, 80),
        Err(ResolveError::QueryFailed)
    );
}

#[test]
fn bridge_self_loop_is_filtered() {
    // BRIDGE46_IPV6 set to X: a hostname whose only AAAA answer is X
    // yields no record; with answers {X, Y} it resolves to Y.
    let policy = ResolutionPolicy {
        bridge_ipv4: None,
        bridge_ipv6: Some(ADDR_1),
    };
    let only_self = vec![ADDR_1];
    let a: Vec<u32> = Vec::new();
    assert_eq!(
        choose_upstream(&policy, Some(&only_self), Some(&a), 443),
        Err(ResolveError::NoRecord)
    );
    let with_other = vec![ADDR_1, ADDR_2];
    assert_eq!(
        choose_upstream(&policy, Some(&with_other), Some(&a), 443),
        Ok(ResolvedUpstream {
            addr: ADDR_2,
            port: 443
        })
    );
}

#[test]
fn bridge_mismatch_refuses_routing() {
    // Both bridge addresses set; the answers contain neither.
    let policy = ResolutionPolicy {
        bridge_ipv4: Some(0xC000_0201),
        bridge_ipv6: Some(ADDR_1),
    };
    let aaaa = vec![ADDR_2, ADDR_3];
    let a = vec![0x0A00_0001u32];
    assert_eq!(
        choose_upstream(&policy, Some(&aaaa), Some(&a), 443),
        Err(ResolveError::BridgeMismatch)
    );
}

#[test]
fn bridge_delegation_via_a_record() {
    let policy = ResolutionPolicy {
        bridge_ipv4: Some(0xC000_0201),
        bridge_ipv6: Some(ADDR_1),
    };
    let aaaa = vec![ADDR_2];
    let a = vec![0xC000_0201u32];
    assert_eq!(
        choose_upstream(&policy, Some(&aaaa), Some(&a), 443),
        Ok(ResolvedUpstream {
            addr: ADDR_2,
            port: 443
        })
    );
    assert!(needs_delegation_check(&policy));
    assert!(!needs_delegation_check(&NO_BRIDGE));
}

// Run the buffering driver the way a listener's flow does: each round
// peeks as much of `stream` as the current buffer capacity admits and
// sniffs the filled part of the peek buffer.
fn run_pipeline(protocol: Protocol, stream: &[u8]) -> DriverVerdict {
    let mut state = start();
    loop {
        match state {
            DriverState::Accumulating { capacity } => {
                let filled = capacity.min(stream.len());
                let outcome = sniff(protocol, &stream[..filled]);
                state = drive(capacity, outcome, filled);
            }
            DriverState::Done(verdict) => return verdict,
        }
    }
}

fn expect_route(verdict: DriverVerdict, want_host: &[u8], want_port: Option<u16>) -> Vec<u8> {
    match verdict {
        DriverVerdict::Route { hostname, port } => {
            assert_eq!(hostname, want_host.to_vec());
            assert_eq!(port, want_port);
            hostname
        }
        _ => panic!("expected a route"),
    }
}

#[test]
fn scenario_http_request_routes_to_port_80() {
    let request = b"GET / HTTP/1.1\r\nHost: example.test\r\n\r\n";
    let verdict = run_pipeline(Protocol::Http, request);
    expect_route(verdict, b"example.test", None);
    // DNS for example.test answers AAAA 2001:db8::1; no explicit port was
    // sniffed, so the listener's port 80 is used.
    let aaaa = vec![ADDR_1];
    let upstream = choose_upstream(&NO_BRIDGE, Some(&aaaa), None, 80);
    assert_eq!(
        upstream,
        Ok(ResolvedUpstream {
            addr: ADDR_1,
            port: 80
        })
    );
    // The inspected prefix is untouched: the very bytes the client sent
    // are what the forwarder will relay.
    assert_eq!(&request[..], b"GET / HTTP/1.1\r\nHost: example.test\r\n\r\n");
}

#[test]
fn scenario_tls_hello_routes_to_port_443() {
    // A ClientHello for SNI game.test, delivered byte by byte.
    let mut body: Vec<u8> = Vec::new();
    body.extend_from_slice(&[3, 3]);
    body.extend_from_slice(&[0u8; 32]);
    body.push(0);
    body.extend_from_slice(&[0, 2, 0x13, 0x01]);
    body.extend_from_slice(&[1, 0]);
    let name = b"game.test";
    let mut exts: Vec<u8> = Vec::new();
    exts.extend_from_slice(&[0, 0]);
    exts.extend_from_slice(&((name.len() + 5) as u16).to_be_bytes());
    exts.extend_from_slice(&((name.len() + 3) as u16).to_be_bytes());
    exts.push(0);
    exts.extend_from_slice(&(name.len() as u16).to_be_bytes());
    exts.extend_from_slice(name);
    body.extend_from_slice(&(exts.len() as u16).to_be_bytes());
    body.extend_from_slice(&exts);
    let mut hello: Vec<u8> = Vec::new();
    hello.extend_from_slice(&[22, 3, 1]);
    hello.extend_from_slice(&((body.len() + 4) as u16).to_be_bytes());
    hello.push(1);
    hello.push(0);
    hello.extend_from_slice(&(body.len() as u16).to_be_bytes());
    hello.extend_from_slice(&body);

    let verdict = run_pipeline(Protocol::Tls, &hello);
    expect_route(verdict, b"game.test", None);
    let aaaa = vec![ADDR_2];
    let upstream = choose_upstream(&NO_BRIDGE, Some(&aaaa), None, 443);
    assert_eq!(
        upstream,
        Ok(ResolvedUpstream {
            addr: ADDR_2,
            port: 443
        })
    );
}

#[test]
fn scenario_game_handshake_routes_to_sniffed_port() {
    // A handshake for mc.test, explicit port 25577, accepted on the
    // listener's port 25565: the upstream uses the packet's port.
    let mut packet: Vec<u8> = vec![0x0E, 0x00, 0xFB, 0x05, 0x07];
    packet.extend_from_slice(b"mc.test");
    packet.extend_from_slice(&25577u16.to_be_bytes());
    let verdict = run_pipeline(Protocol::Minecraft, &packet);
    match verdict {
        DriverVerdict::Route { hostname, port } => {
            assert_eq!(hostname, b"mc.test".to_vec());
            assert_eq!(port, Some(25577));
            let aaaa = vec![ADDR_3];
            let upstream = choose_upstream(&NO_BRIDGE, Some(&aaaa), None, port.unwrap());
            assert_eq!(
                upstream,
                Ok(ResolvedUpstream {
                    addr: ADDR_3,
                    port: 25577
                })
            );
            assert_ne!(upstream.unwrap().port, 25565);
        }
        _ => panic!("expected a route"),
    }
}

#[test]
fn datagram_flow_has_no_buffering_loop() {
    // The datagram sniffer decides from one packet: a truncated record is
    // already a framing error, so a driver fed with it rejects at once.
    let truncated = [22u8, 3, 1, 0, 40, 1];
    let outcome = sniff(Protocol::Quic, &truncated);
    assert!(matches!(outcome, SniffOutcome::Malformed));
    assert!(matches!(
        drive(INITIAL_CAPACITY, outcome, truncated.len()),
        DriverState::Done(DriverVerdict::Reject(DropReason::Malformed))
    ));
}

#[test]
fn scenario_tls_without_sni_is_dropped_before_forwarding() {
    // A complete ClientHello without an SNI extension: the driver rejects
    // the connection and no upstream resolution or connection happens.
    let mut body: Vec<u8> = Vec::new();
    body.extend_from_slice(&[3, 3]);
    body.extend_from_slice(&[0u8; 32]);
    body.push(0);
    body.extend_from_slice(&[0, 2, 0x13, 0x01]);
    body.extend_from_slice(&[1, 0]);
    let mut hello: Vec<u8> = Vec::new();
    hello.extend_from_slice(&[22, 3, 1]);
    hello.extend_from_slice(&((body.len() + 4) as u16).to_be_bytes());
    hello.push(1);
    hello.push(0);
    hello.extend_from_slice(&(body.len() as u16).to_be_bytes());
    hello.extend_from_slice(&body);
    let verdict = run_pipeline(Protocol::Tls, &hello);
    assert!(matches!(verdict, DriverVerdict::Reject(DropReason::Absent)));
}
