use vstd::prelude::*;

use crate::outcome::SniffModel;
use crate::outcome::SniffOutcome;

verus! {

/// The record content type of handshake records.
pub const TLS_HANDSHAKE_RECORD: u8 = 22;

/// The record-layer protocol version's major byte.
pub const TLS_VERSION_MAJOR: u8 = 3;

/// The handshake message type of a ClientHello.
pub const TLS_CLIENT_HELLO: u8 = 1;

/// The extension type carrying the server name indication.
pub const SNI_EXTENSION_TYPE: u8 = 0;

/// The server-name entry type naming a host.
pub const SNI_HOST_NAME: u8 = 0;

/// The big-endian 16-bit integer at position `i`.
pub open spec fn be16(b: Seq<u8>, i: int) -> int {
    b[i] * 256 + b[i + 1]
}

/// The big-endian 24-bit integer at position `i`.
pub open spec fn be24(b: Seq<u8>, i: int) -> int {
    b[i] * 65536 + b[i + 1] * 256 + b[i + 2]
}

/// Walk the server-name list `[i, end)`: entries of a one-byte name type
/// and a two-byte length. The first host-name entry carries the hostname;
/// a list without one is `Absent`; an entry reaching past the list is
/// `Malformed`.
pub open spec fn scan_names(b: Seq<u8>, i: int, end: int) -> SniffModel
    decreases end - i,
{
    if i == end {
        SniffModel::Absent
    } else if end - i < 3 {
        SniffModel::Malformed
    } else {
        let l = be16(b, i + 1);
        if i + 3 + l > end {
            SniffModel::Malformed
        } else if b[i] == SNI_HOST_NAME {
            SniffModel::Success { hostname: b.subrange(i + 3, i + 3 + l), port: None }
        } else {
            scan_names(b, i + 3 + l, end)
        }
    }
}

/// The server-name extension's data `[i, end)`: a two-byte list length,
/// then the server-name list.
pub open spec fn parse_sni_ext(b: Seq<u8>, i: int, end: int) -> SniffModel {
    if end - i < 2 {
        SniffModel::Malformed
    } else {
        let ll = be16(b, i);
        if i + 2 + ll > end {
            SniffModel::Malformed
        } else {
            scan_names(b, i + 2, i + 2 + ll)
        }
    }
}

/// Walk the extension list `[i, end)`: entries of a two-byte type and a
/// two-byte length. The first server-name extension decides; a list
/// without one is `Absent`.
pub open spec fn scan_extensions(b: Seq<u8>, i: int, end: int) -> SniffModel
    decreases end - i,
{
    if i == end {
        SniffModel::Absent
    } else if end - i < 4 {
        SniffModel::Malformed
    } else {
        let ty = be16(b, i);
        let l = be16(b, i + 2);
        if i + 4 + l > end {
            SniffModel::Malformed
        } else if ty == SNI_EXTENSION_TYPE {
            parse_sni_ext(b, i + 4, i + 4 + l)
        } else {
            scan_extensions(b, i + 4 + l, end)
        }
    }
}

/// A ClientHello body `[i, end)`: two version bytes, thirty-two random
/// bytes, a one-byte length-prefixed session id, a two-byte length-prefixed
/// cipher-suite list, a one-byte length-prefixed compression-method list,
/// and then either nothing (`Absent`: the hello has no extensions) or an
/// extension block that fills the rest of the body exactly.
pub open spec fn parse_client_hello(b: Seq<u8>, i: int, end: int) -> SniffModel {
    if end - i < 35 {
        SniffModel::Malformed
    } else {
        let sid = b[i + 34] as int;
        if end - i - 35 < sid + 2 {
            SniffModel::Malformed
        } else {
            let cs = i + 35 + sid;
            let csl = be16(b, cs);
            if end - cs - 2 < csl + 1 {
                SniffModel::Malformed
            } else {
                let cm = cs + 2 + csl;
                let cml = b[cm] as int;
                let ex = cm + 1 + cml;
                if ex == end {
                    SniffModel::Absent
                } else if ex + 2 > end {
                    SniffModel::Malformed
                } else {
                    let exl = be16(b, ex);
                    if ex + 2 + exl != end {
                        SniffModel::Malformed
                    } else {
                        scan_extensions(b, ex + 2, end)
                    }
                }
            }
        }
    }
}

/// A handshake record's payload `[i, end)`: a ClientHello header whose
/// message fills the record exactly, then the hello body. A hello that
/// spans records is not a single-record hello and is refused.
pub open spec fn parse_record_payload(b: Seq<u8>, i: int, end: int) -> SniffModel {
    if end - i < 4 {
        SniffModel::Malformed
    } else if b[i] != TLS_CLIENT_HELLO {
        SniffModel::Malformed
    } else if be24(b, i + 1) != end - i - 4 {
        SniffModel::Malformed
    } else {
        parse_client_hello(b, i + 4, end)
    }
}

/// The TLS sniffer's answer on a peeked prefix: a five-byte record header
/// (handshake content type, a version whose major byte is 3, a two-byte
/// length), and once the whole record has arrived, the ClientHello inside
/// it. A prefix shorter than the record is `InsufficientData`; nothing
/// past the record's end is ever read.
pub open spec fn tls_sniff_model(p: Seq<u8>) -> SniffModel {
    if p.len() < 5 {
        SniffModel::InsufficientData
    } else if p[0] != TLS_HANDSHAKE_RECORD || p[1] != TLS_VERSION_MAJOR {
        SniffModel::Malformed
    } else {
        let rl = be16(p, 3);
        if p.len() < 5 + rl {
            SniffModel::InsufficientData
        } else {
            parse_record_payload(p, 5, 5 + rl)
        }
    }
}

fn copy_range(b: &[u8], from: usize, to: usize) -> (v: Vec<u8>)
    requires
        from <= to <= b@.len(),
    ensures
        v@ == b@.subrange(from as int, to as int),
{
    let mut v: Vec<u8> = Vec::new();
    let mut k: usize = from;
    while k < to
        invariant
            from <= k <= to <= b@.len(),
            v@ == b@.subrange(from as int, k as int),
        decreases to - k,
    {
        v.push(b[k]);
        proof {
            assert(v@ =~= b@.subrange(from as int, k + 1));
        }
        k = k + 1;
    }
    v
}

fn scan_names_at(b: &[u8], i: usize, end: usize) -> (r: SniffOutcome)
    requires
        i <= end <= b@.len(),
    ensures
        r@ == scan_names(b@, i as int, end as int),
    decreases end - i,
{
    if i == end {
        return SniffOutcome::Absent;
    }
    if end - i < 3 {
        return SniffOutcome::Malformed;
    }
    let l = (b[i + 1] as usize) * 256 + (b[i + 2] as usize);
    if l > end - i - 3 {
        return SniffOutcome::Malformed;
    }
    let data = i + 3;
    if b[i] == SNI_HOST_NAME {
        let hostname = copy_range(b, data, data + l);
        SniffOutcome::Success { hostname, port: None }
    } else {
        scan_names_at(b, data + l, end)
    }
}

fn parse_sni_ext_at(b: &[u8], i: usize, end: usize) -> (r: SniffOutcome)
    requires
        i <= end <= b@.len(),
    ensures
        r@ == parse_sni_ext(b@, i as int, end as int),
{
    if end - i < 2 {
        return SniffOutcome::Malformed;
    }
    let ll = (b[i] as usize) * 256 + (b[i + 1] as usize);
    if ll > end - i - 2 {
        return SniffOutcome::Malformed;
    }
    scan_names_at(b, i + 2, i + 2 + ll)
}

fn scan_extensions_at(b: &[u8], i: usize, end: usize) -> (r: SniffOutcome)
    requires
        i <= end <= b@.len(),
    ensures
        r@ == scan_extensions(b@, i as int, end as int),
    decreases end - i,
{
    if i == end {
        return SniffOutcome::Absent;
    }
    if end - i < 4 {
        return SniffOutcome::Malformed;
    }
    let ty = (b[i] as usize) * 256 + (b[i + 1] as usize);
    let l = (b[i + 2] as usize) * 256 + (b[i + 3] as usize);
    if l > end - i - 4 {
        return SniffOutcome::Malformed;
    }
    let data = i + 4;
    if ty == SNI_EXTENSION_TYPE as usize {
        parse_sni_ext_at(b, data, data + l)
    } else {
        scan_extensions_at(b, data + l, end)
    }
}

fn parse_client_hello_at(b: &[u8], i: usize, end: usize) -> (r: SniffOutcome)
    requires
        i <= end <= b@.len(),
    ensures
        r@ == parse_client_hello(b@, i as int, end as int),
{
    if end - i < 35 {
        return SniffOutcome::Malformed;
    }
    let sid = b[i + 34] as usize;
    if end - i - 35 < sid + 2 {
        return SniffOutcome::Malformed;
    }
    let cs = i + 35 + sid;
    let csl = (b[cs] as usize) * 256 + (b[cs + 1] as usize);
    if end - cs - 2 < csl + 1 {
        return SniffOutcome::Malformed;
    }
    let cm = cs + 2 + csl;
    let cml = b[cm] as usize;
    let rem = end - cm - 1;
    if cml == rem {
        return SniffOutcome::Absent;
    }
    if cml > rem {
        return SniffOutcome::Malformed;
    }
    let ex = cm + 1 + cml;
    if end - ex < 2 {
        return SniffOutcome::Malformed;
    }
    let exl = (b[ex] as usize) * 256 + (b[ex + 1] as usize);
    if exl != end - ex - 2 {
        return SniffOutcome::Malformed;
    }
    scan_extensions_at(b, ex + 2, end)
}

proof fn lemma_prefix_index(b: Seq<u8>, q: Seq<u8>, x: int)
    requires
        b.is_prefix_of(q),
        0 <= x < b.len(),
    ensures
        q[x] == b[x],
{
    assert(b[x] == b.subrange(0, b.len() as int)[x]);
}

proof fn lemma_scan_names_agree(b: Seq<u8>, q: Seq<u8>, i: int, end: int)
    requires
        b.is_prefix_of(q),
        0 <= i,
        end <= b.len(),
    ensures
        scan_names(q, i, end) == scan_names(b, i, end),
    decreases end - i,
{
    if i != end && end - i >= 3 {
        lemma_prefix_index(b, q, i);
        lemma_prefix_index(b, q, i + 1);
        lemma_prefix_index(b, q, i + 2);
        let l = be16(b, i + 1);
        if i + 3 + l <= end {
            if b[i] == SNI_HOST_NAME {
                assert forall|k: int| i + 3 <= k < i + 3 + l implies q[k] == b[k] by {
                    lemma_prefix_index(b, q, k);
                }
                assert(q.subrange(i + 3, i + 3 + l) =~= b.subrange(i + 3, i + 3 + l));
            } else {
                lemma_scan_names_agree(b, q, i + 3 + l, end);
            }
        }
    }
}

proof fn lemma_parse_sni_ext_agree(b: Seq<u8>, q: Seq<u8>, i: int, end: int)
    requires
        b.is_prefix_of(q),
        0 <= i,
        end <= b.len(),
    ensures
        parse_sni_ext(q, i, end) == parse_sni_ext(b, i, end),
{
    if end - i >= 2 {
        lemma_prefix_index(b, q, i);
        lemma_prefix_index(b, q, i + 1);
        let ll = be16(b, i);
        if i + 2 + ll <= end {
            lemma_scan_names_agree(b, q, i + 2, i + 2 + ll);
        }
    }
}

proof fn lemma_scan_extensions_agree(b: Seq<u8>, q: Seq<u8>, i: int, end: int)
    requires
        b.is_prefix_of(q),
        0 <= i,
        end <= b.len(),
    ensures
        scan_extensions(q, i, end) == scan_extensions(b, i, end),
    decreases end - i,
{
    if i != end && end - i >= 4 {
        lemma_prefix_index(b, q, i);
        lemma_prefix_index(b, q, i + 1);
        lemma_prefix_index(b, q, i + 2);
        lemma_prefix_index(b, q, i + 3);
        let ty = be16(b, i);
        let l = be16(b, i + 2);
        if i + 4 + l <= end {
            if ty == SNI_EXTENSION_TYPE {
                lemma_parse_sni_ext_agree(b, q, i + 4, i + 4 + l);
            } else {
                lemma_scan_extensions_agree(b, q, i + 4 + l, end);
            }
        }
    }
}

proof fn lemma_parse_client_hello_agree(b: Seq<u8>, q: Seq<u8>, i: int, end: int)
    requires
        b.is_prefix_of(q),
        0 <= i,
        end <= b.len(),
    ensures
        parse_client_hello(q, i, end) == parse_client_hello(b, i, end),
{
    if end - i >= 35 {
        lemma_prefix_index(b, q, i + 34);
        let sid = b[i + 34] as int;
        if end - i - 35 >= sid + 2 {
            let cs = i + 35 + sid;
            lemma_prefix_index(b, q, cs);
            lemma_prefix_index(b, q, cs + 1);
            let csl = be16(b, cs);
            if end - cs - 2 >= csl + 1 {
                let cm = cs + 2 + csl;
                lemma_prefix_index(b, q, cm);
                let cml = b[cm] as int;
                let ex = cm + 1 + cml;
                if ex != end && ex + 2 <= end {
                    lemma_prefix_index(b, q, ex);
                    lemma_prefix_index(b, q, ex + 1);
                    let exl = be16(b, ex);
                    if ex + 2 + exl == end {
                        lemma_scan_extensions_agree(b, q, ex + 2, end);
                    }
                }
            }
        }
    }
}

/// Once the TLS sniffer has decided on a prefix, any longer
/// prefix of the same stream yields the very same answer: nothing past
/// the record's declared end is ever consulted.
pub proof fn lemma_tls_stable(b: Seq<u8>, q: Seq<u8>)
    requires
        b.is_prefix_of(q),
        tls_sniff_model(b) != SniffModel::InsufficientData,
    ensures
        tls_sniff_model(q) == tls_sniff_model(b),
{
    assert(b.len() >= 5);
    lemma_prefix_index(b, q, 0);
    lemma_prefix_index(b, q, 1);
    lemma_prefix_index(b, q, 3);
    lemma_prefix_index(b, q, 4);
    if b[0] == TLS_HANDSHAKE_RECORD && b[1] == TLS_VERSION_MAJOR {
        let rl = be16(b, 3);
        assert(b.len() >= 5 + rl);
        let end = 5 + rl;
        if end - 5 >= 4 {
            lemma_prefix_index(b, q, 5);
            lemma_prefix_index(b, q, 6);
            lemma_prefix_index(b, q, 7);
            lemma_prefix_index(b, q, 8);
            if b[5] == TLS_CLIENT_HELLO && be24(b, 6) == end - 9 {
                lemma_parse_client_hello_agree(b, q, 9, end);
            }
        }
    }
}

/// However the stream is fragmented across reads, the TLS sniffer never
/// contradicts what it would say of the complete record: on any prefix it
/// either asks for more bytes or returns the whole record's answer — in
/// particular, for a ClientHello with an SNI extension, that extension's
/// hostname, and `Absent` for one without.
pub proof fn lemma_tls_fragmentation(p: Seq<u8>, full: Seq<u8>)
    requires
        p.is_prefix_of(full),
    ensures
        tls_sniff_model(p) == SniffModel::InsufficientData || tls_sniff_model(p)
            == tls_sniff_model(full),
{
    if tls_sniff_model(p) != SniffModel::InsufficientData {
        lemma_tls_stable(p, full);
    }
}

/// The two big-endian bytes of a 16-bit length.
pub open spec fn be16_bytes(n: int) -> Seq<u8> {
    seq![(n / 256) as u8, (n % 256) as u8]
}

/// The bytes of a server-name extension naming one host.
pub open spec fn sni_extension_bytes(name: Seq<u8>) -> Seq<u8> {
    seq![0u8, 0u8] + be16_bytes((name.len() + 5) as int) + be16_bytes((name.len() + 3) as int) + seq![SNI_HOST_NAME]
        + be16_bytes(name.len() as int) + name
}

/// The bytes of a well-formed single-record ClientHello whose first
/// extension is a server-name extension for `name`; `rest` is whatever
/// further extensions follow it.
pub open spec fn client_hello_record(
    random: Seq<u8>,
    session: Seq<u8>,
    suites: Seq<u8>,
    comps: Seq<u8>,
    name: Seq<u8>,
    rest: Seq<u8>,
) -> Seq<u8> {
    let exts = sni_extension_bytes(name) + rest;
    let body = seq![3u8, 3u8] + random + seq![session.len() as u8] + session + be16_bytes(
        suites.len() as int,
    ) + suites + seq![comps.len() as u8] + comps + be16_bytes(exts.len() as int) + exts;
    seq![TLS_HANDSHAKE_RECORD, TLS_VERSION_MAJOR, 1u8] + be16_bytes((body.len() + 4) as int) + seq![
        TLS_CLIENT_HELLO,
        0u8,
    ] + be16_bytes(body.len() as int) + body
}

proof fn lemma_be16_value(b: Seq<u8>, i: int, n: int)
    requires
        0 <= n < 65536,
        0 <= i,
        i + 2 <= b.len(),
        b[i] == (n / 256) as u8,
        b[i + 1] == (n % 256) as u8,
    ensures
        be16(b, i) == n,
{
    assert((n / 256) * 256 + n % 256 == n);
}

/// The sniffer is complete on the ClientHello grammar: a well-formed
/// single-record hello carrying a server-name extension — whatever its
/// random, session id, cipher suites, compression methods and further
/// extensions — sniffs to exactly the name it carries.
#[verifier::rlimit(100)]
pub proof fn lemma_client_hello_sni(
    random: Seq<u8>,
    session: Seq<u8>,
    suites: Seq<u8>,
    comps: Seq<u8>,
    name: Seq<u8>,
    rest: Seq<u8>,
)
    requires
        random.len() == 32,
        session.len() <= 255,
        comps.len() <= 255,
        49 + session.len() + suites.len() + comps.len() + name.len() + rest.len() <= 65531,
    ensures
        tls_sniff_model(client_hello_record(random, session, suites, comps, name, rest))
            == (SniffModel::Success { hostname: name, port: None }),
{
    let s = session.len() as int;
    let cs = suites.len() as int;
    let c = comps.len() as int;
    let nl = name.len() as int;
    let exts = sni_extension_bytes(name) + rest;
    let el = exts.len() as int;
    assert(el == 9 + nl + rest.len());
    let body = seq![3u8, 3u8] + random + seq![session.len() as u8] + session + be16_bytes(
        suites.len() as int,
    ) + suites + seq![comps.len() as u8] + comps + be16_bytes(el) + exts;
    let bl = body.len() as int;
    assert(bl == 40 + s + cs + c + el);
    let r = client_hello_record(random, session, suites, comps, name, rest);
    assert(r.len() == 9 + bl);
    assert forall|k: int| 0 <= k < bl implies r[9 + k] == body[k] by {}
    assert(r[0] == TLS_HANDSHAKE_RECORD);
    assert(r[1] == TLS_VERSION_MAJOR);
    assert(r[3] == ((bl + 4) / 256) as u8);
    assert(r[4] == ((bl + 4) % 256) as u8);
    lemma_be16_value(r, 3, bl + 4);
    let end = 9 + bl;
    assert(r[5] == TLS_CLIENT_HELLO);
    assert(r[6] == 0);
    assert(r[7] == (bl / 256) as u8);
    assert(r[8] == (bl % 256) as u8);
    lemma_be16_value(r, 7, bl);
    assert(be24(r, 6) == bl);
    // The fixed part of the hello body and its three length fields.
    assert(body[34] == session.len() as u8);
    assert(body[35 + s] == (cs / 256) as u8);
    assert(body[36 + s] == (cs % 256) as u8);
    assert(body[37 + s + cs] == comps.len() as u8);
    assert(body[38 + s + cs + c] == (el / 256) as u8);
    assert(body[39 + s + cs + c] == (el % 256) as u8);
    assert(r[43] == session.len() as u8);
    lemma_be16_value(r, 44 + s, cs);
    assert(r[46 + s + cs] == comps.len() as u8);
    lemma_be16_value(r, 47 + s + cs + c, el);
    // The extension list region and the server-name extension inside it.
    let ex0 = 49 + s + cs + c;
    assert forall|k: int| 0 <= k < el implies r[ex0 + k] == exts[k] by {
        assert(body[40 + s + cs + c + k] == exts[k]);
    }
    assert(exts[0] == 0);
    assert(exts[1] == 0);
    assert(exts[2] == ((nl + 5) / 256) as u8);
    assert(exts[3] == ((nl + 5) % 256) as u8);
    assert(exts[4] == ((nl + 3) / 256) as u8);
    assert(exts[5] == ((nl + 3) % 256) as u8);
    assert(exts[6] == SNI_HOST_NAME);
    assert(exts[7] == (nl / 256) as u8);
    assert(exts[8] == (nl % 256) as u8);
    lemma_be16_value(r, ex0, 0);
    lemma_be16_value(r, ex0 + 2, nl + 5);
    lemma_be16_value(r, ex0 + 4, nl + 3);
    lemma_be16_value(r, ex0 + 7, nl);
    assert(parse_client_hello(r, 9, end) == scan_extensions(r, ex0, end));
    assert(scan_extensions(r, ex0, end) == parse_sni_ext(r, ex0 + 4, ex0 + 9 + nl));
    assert(parse_sni_ext(r, ex0 + 4, ex0 + 9 + nl) == scan_names(r, ex0 + 6, ex0 + 9 + nl));
    assert(r.subrange(ex0 + 9, ex0 + 9 + nl) =~= name) by {
        assert forall|k: int| 0 <= k < nl implies r[ex0 + 9 + k] == name[k] by {
            assert(exts[9 + k] == name[k]);
        }
    }
    assert(scan_names(r, ex0 + 6, ex0 + 9 + nl) == (SniffModel::Success {
        hostname: name,
        port: None,
    }));
}

/// Sniff a TLS prefix for the ClientHello's server name indication. The
/// answer is `tls_sniff_model` of the prefix: the SNI hostname on
/// success, `InsufficientData` while the record is still arriving,
/// `Absent` for a complete hello without an SNI extension, and `Malformed`
/// for anything structurally invalid. TLS carries no upstream port.
pub fn get_sni_from_packet(packet: &[u8]) -> (r: SniffOutcome)
    ensures
        r@ == tls_sniff_model(packet@),
{
    if packet.len() < 5 {
        return SniffOutcome::InsufficientData;
    }
    if packet[0] != TLS_HANDSHAKE_RECORD || packet[1] != TLS_VERSION_MAJOR {
        return SniffOutcome::Malformed;
    }
    let rl = (packet[3] as usize) * 256 + (packet[4] as usize);
    if packet.len() - 5 < rl {
        return SniffOutcome::InsufficientData;
    }
    let i: usize = 5;
    let end: usize = 5 + rl;
    if end - i < 4 {
        return SniffOutcome::Malformed;
    }
    if packet[i] != TLS_CLIENT_HELLO {
        return SniffOutcome::Malformed;
    }
    let hl = (packet[i + 1] as usize) * 65536 + (packet[i + 2] as usize) * 256 + (packet[i
        + 3] as usize);
    if hl != end - i - 4 {
        return SniffOutcome::Malformed;
    }
    parse_client_hello_at(packet, i + 4, end)
}

} // verus!
