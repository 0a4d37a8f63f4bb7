use vstd::prelude::*;

use crate::outcome::SniffModel;
use crate::outcome::SniffOutcome;

verus! {

/// The packet id that opens a handshake packet.
pub const HANDSHAKE_PACKET_ID: u8 = 0x00;

/// What decoding a protocol varint out of a byte prefix yields.
#[derive(Clone, Copy, Debug, PartialEq, Eq, Structural)]
pub enum VarIntStatus {
    /// The decoded value, truncated to 32 bits, and how many bytes it took.
    Value { value: u32, width: usize },
    /// The prefix ends before a byte with its continuation bit clear.
    Incomplete,
    /// Five groups were consumed without termination: the integer is too big.
    TooLong,
}

/// Decoding state after `g` groups have been consumed: `acc` is the value so
/// far and `mult` the weight (128 to the `g`) of the next group. Groups carry
/// seven bits each, least significant group first; a byte below 128 ends the
/// integer.
pub open spec fn varint_scan(b: Seq<u8>, pos: int, g: int, acc: nat, mult: nat) -> VarIntStatus
    decreases 5 - g,
{
    if g >= 5 {
        VarIntStatus::TooLong
    } else if pos + g >= b.len() {
        VarIntStatus::Incomplete
    } else {
        let byte = b[pos + g];
        if byte < 128 {
            VarIntStatus::Value {
                value: ((acc + byte * mult) % 0x1_0000_0000) as u32,
                width: (g + 1) as usize,
            }
        } else {
            varint_scan(b, pos, g + 1, (acc + (byte - 128) * mult) as nat, mult * 128)
        }
    }
}

/// The varint encoded at position `pos` of `b`.
pub open spec fn decode_varint(b: Seq<u8>, pos: int) -> VarIntStatus {
    varint_scan(b, pos, 0, 0, 1)
}

/// The standard varint encoding of `n`: seven bits per byte, least
/// significant group first, continuation bit set on every byte but the last.
pub open spec fn encode_varint(n: nat) -> Seq<u8>
    decreases n,
{
    if n < 128 {
        seq![n as u8]
    } else {
        seq![(n % 128 + 128) as u8] + encode_varint(n / 128)
    }
}

/// Decode the varint at `pos`. Indexing past the available prefix is
/// reported as `Incomplete`, never performed; a fifth group that still asks
/// for continuation is `TooLong`.
pub fn read_var_int(packet: &[u8], pos: usize) -> (r: VarIntStatus)
    ensures
        r == decode_varint(packet@, pos as int),
        r matches VarIntStatus::Value { width, .. } ==> 1 <= width <= 5,
{
    let mut g: usize = 0;
    let mut acc: u64 = 0;
    let mut mult: u64 = 1;
    loop
        invariant
            acc < mult,
            (g == 0 && mult == 1) || (g == 1 && mult == 0x80) || (g == 2 && mult == 0x4000) || (
            g == 3 && mult == 0x20_0000) || (g == 4 && mult == 0x1000_0000) || (g == 5 && mult
                == 0x8_0000_0000),
            decode_varint(packet@, pos as int) == varint_scan(
                packet@,
                pos as int,
                g as int,
                acc as nat,
                mult as nat,
            ),
        decreases 5 - g,
    {
        if g >= 5 {
            return VarIntStatus::TooLong;
        }
        if pos >= packet.len() || packet.len() - pos <= g {
            return VarIntStatus::Incomplete;
        }
        let byte = packet[pos + g];
        if byte < 0x80 {
            let value = ((acc + (byte as u64) * mult) % 0x1_0000_0000) as u32;
            return VarIntStatus::Value { value, width: g + 1 };
        }
        let group = (byte - 0x80) as u64;
        proof {
            assert(group * mult <= 127 * mult) by (nonlinear_arith)
                requires
                    group <= 127,
                    mult >= 0,
            ;
        }
        acc = acc + group * mult;
        mult = mult * 128;
        g = g + 1;
    }
}

/// Encode `n` as a varint; the inverse of `read_var_int` (see
/// `lemma_varint_round_trip`).
pub fn write_var_int(value: u32) -> (out: Vec<u8>)
    ensures
        out@ == encode_varint(value as nat),
{
    let mut out: Vec<u8> = Vec::new();
    let mut n: u32 = value;
    loop
        invariant
            encode_varint(value as nat) == out@ + encode_varint(n as nat),
        decreases n,
    {
        if n < 0x80 {
            out.push(n as u8);
            proof {
                assert(encode_varint(n as nat) =~= seq![n as u8]);
                assert(out@ =~= encode_varint(value as nat));
            }
            return out;
        }
        let ghost m = n as nat;
        out.push((n % 0x80 + 0x80) as u8);
        n = n / 0x80;
        proof {
            assert(encode_varint(m) == seq![(m % 128 + 128) as u8] + encode_varint(m / 128));
            assert(encode_varint(value as nat) =~= out@ + encode_varint(n as nat));
        }
    }
}

/// The number of bytes the encoding of `n` takes.
pub open spec fn encoded_len(n: nat) -> int {
    encode_varint(n).len() as int
}

/// Any 32-bit value fits in five groups.
pub proof fn lemma_encoded_len_le_5(n: nat)
    requires
        n < 0x1_0000_0000,
    ensures
        1 <= encoded_len(n) <= 5,
{
    reveal_with_fuel(encode_varint, 6);
}

proof fn lemma_scan_of_encode(b: Seq<u8>, pos: int, g: int, acc: nat, mult: nat, m: nat)
    requires
        0 <= pos,
        0 <= g,
        g + encoded_len(m) <= 5,
        pos + g + encoded_len(m) <= b.len(),
        b.subrange(pos + g, pos + g + encoded_len(m)) == encode_varint(m),
    ensures
        varint_scan(b, pos, g, acc, mult) == (VarIntStatus::Value {
            value: ((acc + m * mult) % 0x1_0000_0000) as u32,
            width: (g + encoded_len(m)) as usize,
        }),
    decreases m,
{
    let e = encode_varint(m);
    assert(b[pos + g] == e[0]);
    if m < 128 {
        assert(e[0] == m as u8);
        assert(b[pos + g] < 128);
    } else {
        assert(e[0] == (m % 128 + 128) as u8);
        assert(b[pos + g] >= 128);
        let byte = b[pos + g];
        let m2 = m / 128;
        let acc2 = (acc + (byte - 128) * mult) as nat;
        let mult2 = mult * 128;
        assert(b.subrange(pos + g + 1, pos + g + 1 + encoded_len(m2)) == encode_varint(m2)) by {
            assert(e =~= seq![(m % 128 + 128) as u8] + encode_varint(m2));
            assert(b.subrange(pos + g + 1, pos + g + 1 + encoded_len(m2)) =~= encode_varint(m2))
                by {
                let sub = b.subrange(pos + g + 1, pos + g + 1 + encoded_len(m2));
                assert forall|k: int| 0 <= k < sub.len() implies sub[k] == encode_varint(m2)[k] by {
                    assert(sub[k] == b[pos + g + 1 + k]);
                    assert(b[pos + g + 1 + k] == e[1 + k]);
                    assert(e[1 + k] == encode_varint(m2)[k]);
                }
            }
        }
        lemma_scan_of_encode(b, pos, g + 1, acc2, mult2, m2);
        assert(acc2 + m2 * mult2 == acc + m * mult) by (nonlinear_arith)
            requires
                m >= 128,
                acc2 == acc + (m % 128) * mult,
                mult2 == mult * 128,
                m2 == m / 128,
        ;
    }
}

/// Varint encoding round-trips: decoding at the start of the encoding of any
/// 32-bit value yields that value back, consuming exactly the encoded bytes,
/// whatever follows them.
pub proof fn lemma_varint_round_trip(n: u32, b: Seq<u8>, pos: int)
    requires
        0 <= pos,
        pos + encoded_len(n as nat) <= b.len(),
        b.subrange(pos, pos + encoded_len(n as nat)) == encode_varint(n as nat),
    ensures
        decode_varint(b, pos) == (VarIntStatus::Value {
            value: n,
            width: encoded_len(n as nat) as usize,
        }),
{
    lemma_encoded_len_le_5(n as nat);
    lemma_scan_of_encode(b, pos, 0, 0, 1, n as nat);
}

/// The routing fields of a game-protocol handshake packet.
#[derive(Clone, Debug)]
pub struct MinecraftServer {
    pub hostname: Vec<u8>,
    pub port: u16,
    pub protocol_version: u32,
}

/// What decoding a handshake packet out of a byte prefix yields.
#[derive(Clone, Debug)]
pub enum HandshakeStatus {
    Info(MinecraftServer),
    Incomplete,
    Malformed,
}

/// The mathematical image of a `HandshakeStatus`.
pub enum HandshakeModel {
    Info { hostname: Seq<u8>, port: u16, protocol_version: u32 },
    Incomplete,
    Malformed,
}

impl View for HandshakeStatus {
    type V = HandshakeModel;

    open spec fn view(&self) -> HandshakeModel {
        match self {
            HandshakeStatus::Info(s) => HandshakeModel::Info {
                hostname: s.hostname@,
                port: s.port,
                protocol_version: s.protocol_version,
            },
            HandshakeStatus::Incomplete => HandshakeModel::Incomplete,
            HandshakeStatus::Malformed => HandshakeModel::Malformed,
        }
    }
}

/// The handshake packet grammar: a one-byte packet-length prefix (not
/// interpreted), the handshake packet id, a varint protocol version, a
/// one-byte length-prefixed hostname, and a big-endian port. Reading past
/// the prefix is `Incomplete`; a wrong packet id or an overlong varint is
/// `Malformed`.
pub open spec fn handshake_model(b: Seq<u8>) -> HandshakeModel {
    if b.len() < 2 {
        HandshakeModel::Incomplete
    } else if b[1] != HANDSHAKE_PACKET_ID {
        HandshakeModel::Malformed
    } else {
        match decode_varint(b, 2) {
            VarIntStatus::Incomplete => HandshakeModel::Incomplete,
            VarIntStatus::TooLong => HandshakeModel::Malformed,
            VarIntStatus::Value { value, width } => {
                let hpos = 2 + width;
                if b.len() <= hpos {
                    HandshakeModel::Incomplete
                } else {
                    let hlen = b[hpos as int] as int;
                    if b.len() < hpos + 1 + hlen + 2 {
                        HandshakeModel::Incomplete
                    } else {
                        HandshakeModel::Info {
                            hostname: b.subrange(hpos + 1, hpos + 1 + hlen),
                            port: (b[hpos + 1 + hlen] * 256 + b[hpos + 2 + hlen]) as u16,
                            protocol_version: value,
                        }
                    }
                }
            },
        }
    }
}

/// Decode the handshake packet at the start of the peeked prefix.
pub fn read_server_info(packet: &[u8]) -> (r: HandshakeStatus)
    ensures
        r@ == handshake_model(packet@),
{
    if packet.len() < 2 {
        return HandshakeStatus::Incomplete;
    }
    if packet[1] != HANDSHAKE_PACKET_ID {
        return HandshakeStatus::Malformed;
    }
    match read_var_int(packet, 2) {
        VarIntStatus::Incomplete => HandshakeStatus::Incomplete,
        VarIntStatus::TooLong => HandshakeStatus::Malformed,
        VarIntStatus::Value { value, width } => {
            let hpos = 2 + width;
            if packet.len() <= hpos {
                return HandshakeStatus::Incomplete;
            }
            let hlen = packet[hpos] as usize;
            if packet.len() - (hpos + 1) < hlen + 2 {
                return HandshakeStatus::Incomplete;
            }
            let start = hpos + 1;
            let mut hostname: Vec<u8> = Vec::new();
            let mut i: usize = 0;
            while i < hlen
                invariant
                    i <= hlen,
                    start + hlen + 2 <= packet.len(),
                    hostname@ == packet@.subrange(start as int, start + i),
                decreases hlen - i,
            {
                hostname.push(packet[start + i]);
                proof {
                    assert(hostname@ =~= packet@.subrange(start as int, start + i + 1));
                }
                i = i + 1;
            }
            let port = (packet[start + hlen] as u16) * 256 + (packet[start + hlen + 1] as u16);
            HandshakeStatus::Info(MinecraftServer { hostname, port, protocol_version: value })
        },
    }
}

/// The handshake sniffer's answer on a peeked prefix.
pub open spec fn minecraft_sniff_model(b: Seq<u8>) -> SniffModel {
    match handshake_model(b) {
        HandshakeModel::Info { hostname, port, .. } => SniffModel::Success {
            hostname,
            port: Some(port),
        },
        HandshakeModel::Incomplete => SniffModel::InsufficientData,
        HandshakeModel::Malformed => SniffModel::Malformed,
    }
}

/// Sniff a game-protocol handshake: on success the routing key is the
/// packet's hostname together with the explicit port the packet carries,
/// which the upstream connection uses instead of the listening port.
pub fn sniff_minecraft(packet: &[u8]) -> (r: SniffOutcome)
    ensures
        r@ == minecraft_sniff_model(packet@),
{
    match read_server_info(packet) {
        HandshakeStatus::Info(info) => SniffOutcome::Success {
            hostname: info.hostname,
            port: Some(info.port),
        },
        HandshakeStatus::Incomplete => SniffOutcome::InsufficientData,
        HandshakeStatus::Malformed => SniffOutcome::Malformed,
    }
}

proof fn lemma_varint_scan_stable(b: Seq<u8>, q: Seq<u8>, pos: int, g: int, acc: nat, mult: nat)
    requires
        b.is_prefix_of(q),
        0 <= pos,
        0 <= g,
        varint_scan(b, pos, g, acc, mult) != VarIntStatus::Incomplete,
    ensures
        varint_scan(q, pos, g, acc, mult) == varint_scan(b, pos, g, acc, mult),
    decreases 5 - g,
{
    if g < 5 {
        assert(pos + g < b.len());
        assert(q[pos + g] == b.subrange(0, b.len() as int)[pos + g]);
        let byte = b[pos + g];
        if byte >= 128 {
            lemma_varint_scan_stable(b, q, pos, g + 1, (acc + (byte - 128) * mult) as nat, mult * 128);
        }
    }
}

/// Once the handshake sniffer has decided on a prefix, any longer
/// prefix of the same stream yields the very same answer: the extracted
/// hostname and port do not depend on where the reads were fragmented.
pub proof fn lemma_handshake_stable(b: Seq<u8>, q: Seq<u8>)
    requires
        b.is_prefix_of(q),
        handshake_model(b) != HandshakeModel::Incomplete,
    ensures
        handshake_model(q) == handshake_model(b),
{
    assert(b =~= q.subrange(0, b.len() as int));
    assert(b.len() >= 2);
    assert(q[1] == b[1]);
    if b[1] == HANDSHAKE_PACKET_ID {
        lemma_varint_scan_stable(b, q, 2, 0, 0, 1);
        if let VarIntStatus::Value { width, .. } = decode_varint(b, 2) {
            let hpos = 2 + width;
            assert(b.len() > hpos);
            assert(q[hpos as int] == b[hpos as int]);
            let hlen = b[hpos as int] as int;
            assert(b.len() >= hpos + 1 + hlen + 2);
            assert(q.subrange(hpos + 1, hpos + 1 + hlen) =~= b.subrange(hpos + 1, hpos + 1 + hlen));
            assert(q[hpos + 1 + hlen] == b[hpos + 1 + hlen]);
            assert(q[hpos + 2 + hlen] == b[hpos + 2 + hlen]);
        }
    }
}

/// The bytes of a well-formed handshake packet: a one-byte packet-length
/// prefix, the handshake packet id, the varint protocol version, the
/// one-byte-length hostname, and the big-endian port.
pub open spec fn handshake_bytes(
    len_prefix: u8,
    version: u32,
    hostname: Seq<u8>,
    port: u16,
) -> Seq<u8> {
    seq![len_prefix, HANDSHAKE_PACKET_ID] + encode_varint(version as nat) + seq![
        hostname.len() as u8,
    ] + hostname + seq![(port / 256) as u8, (port % 256) as u8]
}

/// Decoding a well-formed handshake packet recovers exactly the fields it
/// was built from, whatever they are: the sniffer is complete, not merely
/// safe, on the packet grammar.
pub proof fn lemma_handshake_round_trip(len_prefix: u8, version: u32, hostname: Seq<u8>, port: u16)
    requires
        hostname.len() <= 255,
    ensures
        handshake_model(handshake_bytes(len_prefix, version, hostname, port))
            == (HandshakeModel::Info { hostname, port, protocol_version: version }),
{
    let b = handshake_bytes(len_prefix, version, hostname, port);
    let e = encode_varint(version as nat);
    lemma_encoded_len_le_5(version as nat);
    let w = e.len() as int;
    let h = hostname.len() as int;
    assert(b.len() == 2 + w + 1 + h + 2);
    assert(b[1] == HANDSHAKE_PACKET_ID);
    assert(b.subrange(2, 2 + w) =~= e);
    lemma_varint_round_trip(version, b, 2);
    assert(decode_varint(b, 2) == (VarIntStatus::Value {
        value: version,
        width: w as usize,
    }));
    let hpos = 2 + w;
    assert(b[hpos] == hostname.len() as u8);
    assert(b.subrange(hpos + 1, hpos + 1 + h) =~= hostname);
    assert(b[hpos + 1 + h] == (port / 256) as u8);
    assert(b[hpos + 2 + h] == (port % 256) as u8);
    assert((port / 256) * 256 + (port % 256) == port);
}

/// However the handshake packet is fragmented across reads, the sniffer
/// never contradicts what it would say of the whole packet: on any prefix
/// it either asks for more bytes or returns the whole packet's answer —
/// in particular the packet's hostname and explicit port.
pub proof fn lemma_minecraft_fragmentation(p: Seq<u8>, full: Seq<u8>)
    requires
        p.is_prefix_of(full),
    ensures
        minecraft_sniff_model(p) == SniffModel::InsufficientData || minecraft_sniff_model(p)
            == minecraft_sniff_model(full),
{
    if handshake_model(p) != HandshakeModel::Incomplete {
        lemma_handshake_stable(p, full);
    }
}

/// A continuation chain that exhausts the maximum group count is rejected.
pub proof fn lemma_varint_too_long(b: Seq<u8>, pos: int)
    requires
        0 <= pos,
        pos + 5 <= b.len(),
        forall|k: int| 0 <= k < 5 ==> #[trigger] b[pos + k] >= 128,
    ensures
        decode_varint(b, pos) == VarIntStatus::TooLong,
{
    reveal_with_fuel(varint_scan, 6);
}

} // verus!
