use vstd::prelude::*;

use crate::http;
use crate::https;
use crate::minecraft;
use crate::outcome::SniffModel;
use crate::outcome::SniffOutcome;
use crate::quic;

verus! {

/// The protocols the bridge listens for, one listener each.
#[derive(Clone, Copy, Debug, PartialEq, Eq, Structural)]
pub enum Protocol {
    Http,
    Tls,
    Minecraft,
    Quic,
}

/// Each protocol's sniffer answer on a peeked prefix (for `Quic`, on the
/// one datagram).
pub open spec fn sniff_model(p: Protocol, b: Seq<u8>) -> SniffModel {
    match p {
        Protocol::Http => http::http_sniff_model(b),
        Protocol::Tls => https::tls_sniff_model(b),
        Protocol::Minecraft => minecraft::minecraft_sniff_model(b),
        Protocol::Quic => quic::quic_sniff_model(b),
    }
}

/// Run the protocol's sniffer on the filled part of the peek buffer.
pub fn sniff(p: Protocol, prefix: &[u8]) -> (r: SniffOutcome)
    ensures
        r@ == sniff_model(p, prefix@),
{
    match p {
        Protocol::Http => http::sniff_http(prefix),
        Protocol::Tls => https::get_sni_from_packet(prefix),
        Protocol::Minecraft => minecraft::sniff_minecraft(prefix),
        Protocol::Quic => quic::get_sni_from_packet(prefix),
    }
}

/// The first peek reads into a buffer of this many bytes.
pub const INITIAL_CAPACITY: usize = 256;

/// Each retry grows the peek buffer by this many bytes.
pub const GROWTH_INCREMENT: usize = 256;

/// A connection whose prefix cannot be sniffed within this many bytes is
/// abandoned.
pub const MAX_CAPACITY: usize = 4096;

/// Why a connection was dropped without being forwarded.
#[derive(Clone, Copy, Debug, PartialEq, Eq, Structural)]
pub enum DropReason {
    /// The sniffer found bytes that are not a valid instance of the protocol.
    Malformed,
    /// The prefix is a complete instance of the protocol with no routing key.
    Absent,
    /// The maximum buffer capacity was reached without an answer.
    Exhausted,
    /// The last peek brought no bytes: the peer closed or stalled.
    Stalled,
}

/// The buffering driver's state for one connection.
#[derive(Clone, Debug)]
pub enum DriverState {
    /// Still collecting: the next peek uses a buffer of this capacity.
    Accumulating { capacity: usize },
    /// Terminal: either a routing key, or a reason to drop the connection.
    Done(DriverVerdict),
}

/// The driver's terminal answer.
#[derive(Clone, Debug)]
pub enum DriverVerdict {
    /// Forward the connection to this hostname (and explicit port, if the
    /// protocol carries one).
    Route { hostname: Vec<u8>, port: Option<u16> },
    /// Drop the connection; no forwarding occurs.
    Reject(DropReason),
}

/// The mathematical image of a `DriverState`.
pub enum DriverModel {
    Accumulating { capacity: int },
    Route { hostname: Seq<u8>, port: Option<u16> },
    Reject(DropReason),
}

impl View for DriverState {
    type V = DriverModel;

    open spec fn view(&self) -> DriverModel {
        match self {
            DriverState::Accumulating { capacity } => DriverModel::Accumulating {
                capacity: *capacity as int,
            },
            DriverState::Done(DriverVerdict::Route { hostname, port }) => DriverModel::Route {
                hostname: hostname@,
                port: *port,
            },
            DriverState::Done(DriverVerdict::Reject(r)) => DriverModel::Reject(*r),
        }
    }
}

/// A capacity the driver can be at: somewhere between the initial and the
/// maximum capacity, in whole growth steps.
pub open spec fn capacity_ok(c: int) -> bool {
    INITIAL_CAPACITY <= c <= MAX_CAPACITY && c % (GROWTH_INCREMENT as int) == 0
}

/// The transition the driver takes after one peek-and-sniff round at
/// `capacity`: a sniffer answer ends the connection's buffering, and
/// insufficient data grows the buffer unless the capacity bound is reached
/// or the peek brought nothing.
pub open spec fn drive_model(capacity: int, outcome: SniffModel, last_read: int) -> DriverModel {
    match outcome {
        SniffModel::Success { hostname, port } => DriverModel::Route { hostname, port },
        SniffModel::Malformed => DriverModel::Reject(DropReason::Malformed),
        SniffModel::Absent => DriverModel::Reject(DropReason::Absent),
        SniffModel::InsufficientData => if capacity >= MAX_CAPACITY {
            DriverModel::Reject(DropReason::Exhausted)
        } else if last_read == 0 {
            DriverModel::Reject(DropReason::Stalled)
        } else {
            DriverModel::Accumulating { capacity: capacity + GROWTH_INCREMENT }
        },
    }
}

/// The driver's state when a connection is accepted.
pub fn start() -> (s: DriverState)
    ensures
        s@ == (DriverModel::Accumulating { capacity: INITIAL_CAPACITY as int }),
        capacity_ok(INITIAL_CAPACITY as int),
{
    DriverState::Accumulating { capacity: INITIAL_CAPACITY }
}

/// Take one driver step. `outcome` is the sniffer's answer on the filled
/// part of the peek buffer and `last_read` how many bytes that peek
/// returned.
///
/// The capacity never grows past `MAX_CAPACITY`, and every non-terminal
/// step grows it by exactly `GROWTH_INCREMENT`, so a connection that never
/// yields an answer is abandoned after a bounded number of rounds rather
/// than buffered without bound.
pub fn drive(capacity: usize, outcome: SniffOutcome, last_read: usize) -> (s: DriverState)
    ensures
        s@ == drive_model(capacity as int, outcome@, last_read as int),
        s@ matches DriverModel::Accumulating { capacity: c } ==> c == capacity + GROWTH_INCREMENT,
        capacity_ok(capacity as int) ==> (s@ matches DriverModel::Accumulating { capacity: c }
            ==> capacity_ok(c)),
{
    match outcome {
        SniffOutcome::Success { hostname, port } => DriverState::Done(
            DriverVerdict::Route { hostname, port },
        ),
        SniffOutcome::Malformed => DriverState::Done(DriverVerdict::Reject(DropReason::Malformed)),
        SniffOutcome::Absent => DriverState::Done(DriverVerdict::Reject(DropReason::Absent)),
        SniffOutcome::InsufficientData => {
            if capacity >= MAX_CAPACITY {
                DriverState::Done(DriverVerdict::Reject(DropReason::Exhausted))
            } else if last_read == 0 {
                DriverState::Done(DriverVerdict::Reject(DropReason::Stalled))
            } else {
                DriverState::Accumulating { capacity: capacity + GROWTH_INCREMENT }
            }
        },
    }
}

} // verus!
