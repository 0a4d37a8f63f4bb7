use vstd::prelude::*;

use crate::https;
use crate::outcome::SniffModel;
use crate::outcome::SniffOutcome;

verus! {

/// The datagram sniffer's answer: the TLS sniffer's answer on the
/// datagram, except that a datagram is atomic — there is no way to wait
/// for more bytes, so a truncated record is `Malformed` outright.
pub open spec fn quic_sniff_model(d: Seq<u8>) -> SniffModel {
    match https::tls_sniff_model(d) {
        SniffModel::InsufficientData => SniffModel::Malformed,
        other => other,
    }
}

/// Sniff a single inbound datagram for the SNI of the TLS ClientHello it
/// embeds. Unlike the stream sniffers this never reports
/// `InsufficientData`: whatever cannot be decided from the one datagram is
/// `Malformed`, and no buffering loop runs.
pub fn get_sni_from_packet(packet: &[u8]) -> (r: SniffOutcome)
    ensures
        r@ == quic_sniff_model(packet@),
{
    match https::get_sni_from_packet(packet) {
        SniffOutcome::InsufficientData => SniffOutcome::Malformed,
        other => other,
    }
}

} // verus!
