use vstd::prelude::*;

verus! {

/// What a protocol sniffer reports about the buffered prefix of a connection.
///
/// The prefix is whatever has been peeked from the connection so far, so a
/// sniffer must distinguish "this cannot be decided yet" from "this is not a
/// valid instance of the protocol".
#[derive(Clone, Debug)]
pub enum SniffOutcome {
    /// A routing key was extracted: the hostname the client asked for and,
    /// for protocols whose handshake carries one, an explicit upstream port.
    Success { hostname: Vec<u8>, port: Option<u16> },
    /// The prefix is consistent with the protocol but too short to decide.
    InsufficientData,
    /// The prefix is structurally not a valid instance of the protocol.
    Malformed,
    /// The prefix is a complete instance of the protocol but carries no
    /// routing key.
    Absent,
}

/// The mathematical image of a `SniffOutcome`; contracts and lemmas speak
/// in terms of this type.
pub enum SniffModel {
    Success { hostname: Seq<u8>, port: Option<u16> },
    InsufficientData,
    Malformed,
    Absent,
}

impl View for SniffOutcome {
    type V = SniffModel;

    open spec fn view(&self) -> SniffModel {
        match self {
            SniffOutcome::Success { hostname, port } => SniffModel::Success {
                hostname: hostname@,
                port: *port,
            },
            SniffOutcome::InsufficientData => SniffModel::InsufficientData,
            SniffOutcome::Malformed => SniffModel::Malformed,
            SniffOutcome::Absent => SniffModel::Absent,
        }
    }
}

} // verus!
