use bridge46::SniffOutcome;
use bridge46::http::sniff_http;

fn expect_host(outcome: SniffOutcome, want: &[u8]) {
    match outcome {
        SniffOutcome::Success { hostname, port } => {
            assert_eq!(hostname, want.to_vec());
            assert_eq!(port, None);
        }
        _ => panic!("expected a hostname"),
    }
}

#[test]
fn http_host_extracted() {
    let req = b"GET / HTTP/1.1\r\nHost: example.test\r\n\r\n";
    expect_host(sniff_http(req), b"example.test");
}

#[test]
fn http_host_case_insensitive_and_lowered() {
    let req = b"GET / HTTP/1.1\r\nhOsT: Example.TEST\r\nAccept: */*\r\n\r\n";
    expect_host(sniff_http(req), b"example.test");
}

#[test]
fn http_host_value_trimmed() {
    let req = b"GET / HTTP/1.1\r\nHost:   spaced.test  \r\n\r\n";
    expect_host(sniff_http(req), b"spaced.test");
}

#[test]
fn http_bare_newlines_accepted() {
    let req = b"GET / HTTP/1.1\nHost: bare.test\n\n";
    expect_host(sniff_http(req), b"bare.test");
}

#[test]
fn http_incomplete_prefix_waits() {
    assert!(matches!(sniff_http(b""), SniffOutcome::InsufficientData));
    assert!(matches!(
        sniff_http(b"GET / HTTP/1.1\r\nHost: exa"),
        SniffOutcome::InsufficientData
    ));
    // A host line is judged only once its line feed has arrived.
    assert!(matches!(
        sniff_http(b"GET / HTTP/1.1\r\nHost: example.test\r"),
        SniffOutcome::InsufficientData
    ));
}

#[test]
fn http_complete_headers_without_host_are_absent() {
    let req = b"GET / HTTP/1.1\r\nAccept: */*\r\n\r\nhost: late.test\r\n";
    assert!(matches!(sniff_http(req), SniffOutcome::Absent));
}

#[test]
fn http_fragmentation_boundaries_do_not_matter() {
    // Every prefix of the request either asks for more bytes or agrees
    // with the verdict on the whole request.
    let req = b"GET /p HTTP/1.1\r\nAccept: */*\r\nHost: example.test\r\nUser: x\r\n\r\n";
    for cut in 0..req.len() + 1 {
        match sniff_http(&req[..cut]) {
            SniffOutcome::InsufficientData => {}
            other => expect_host(other, b"example.test"),
        }
    }
}
