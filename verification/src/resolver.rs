use vstd::prelude::*;

verus! {

/// Process-wide resolution configuration, fixed at startup: the optional
/// bridge-delegation addresses. An IPv4 address is held as its 32-bit value
/// and an IPv6 address as its 128-bit value, both in network order.
#[derive(Clone, Copy, Debug, PartialEq, Eq, Structural)]
pub struct ResolutionPolicy {
    pub bridge_ipv4: Option<u32>,
    pub bridge_ipv6: Option<u128>,
}

/// Why a hostname could not be resolved to an upstream address.
#[derive(Clone, Copy, Debug, PartialEq, Eq, Structural)]
pub enum ResolveError {
    /// The AAAA answer set is empty, or every AAAA answer is the bridge's
    /// own IPv6 address.
    NoRecord,
    /// A bridge address is configured and no A/AAAA answer equals either
    /// configured address, so the hostname has not delegated to this bridge.
    BridgeMismatch,
    /// A DNS query the policy depends on produced no answer set at all.
    QueryFailed,
}

/// The chosen upstream: an IPv6 address and the port to connect to.
#[derive(Clone, Copy, Debug, PartialEq, Eq, Structural)]
pub struct ResolvedUpstream {
    pub addr: u128,
    pub port: u16,
}

/// The bridge-delegation gate is active as soon as either address is set.
pub open spec fn bridge_enabled(p: ResolutionPolicy) -> bool {
    p.bridge_ipv4 is Some || p.bridge_ipv6 is Some
}

/// A hostname has delegated to the bridge when some A answer equals the
/// configured IPv4 address or some AAAA answer equals the configured IPv6
/// address.
pub open spec fn delegated(p: ResolutionPolicy, a: Seq<u32>, aaaa: Seq<u128>) -> bool {
    ||| (p.bridge_ipv4 matches Some(b4) && a.contains(b4))
    ||| (p.bridge_ipv6 matches Some(b6) && aaaa.contains(b6))
}

/// An AAAA answer that names the bridge's own IPv6 address would route the
/// connection back into the bridge.
pub open spec fn self_referential(p: ResolutionPolicy, ip: u128) -> bool {
    p.bridge_ipv6 matches Some(b6) && ip == b6
}

/// The first AAAA answer that is not the bridge itself, in answer order.
pub open spec fn first_usable(p: ResolutionPolicy, aaaa: Seq<u128>) -> Option<u128>
    decreases aaaa.len(),
{
    if aaaa.len() == 0 {
        None
    } else if !self_referential(p, aaaa[0]) {
        Some(aaaa[0])
    } else {
        first_usable(p, aaaa.drop_first())
    }
}

pub open spec fn select_upstream(p: ResolutionPolicy, aaaa: Seq<u128>, port: u16) -> Result<
    ResolvedUpstream,
    ResolveError,
> {
    match first_usable(p, aaaa) {
        Some(ip) => Ok(ResolvedUpstream { addr: ip, port }),
        None => Err(ResolveError::NoRecord),
    }
}

/// What resolution returns, as a function of the policy and of the DNS
/// answers. `None` for an answer set means the query itself failed. The A
/// answers are consulted only when the bridge gate is active, which is the
/// only time the A query is made at all.
pub open spec fn resolution_model(
    p: ResolutionPolicy,
    aaaa: Option<Seq<u128>>,
    a: Option<Seq<u32>>,
    port: u16,
) -> Result<ResolvedUpstream, ResolveError> {
    match aaaa {
        None => Err(ResolveError::QueryFailed),
        Some(aaaa) => if aaaa.len() == 0 {
            Err(ResolveError::NoRecord)
        } else if bridge_enabled(p) {
            match a {
                None => Err(ResolveError::QueryFailed),
                Some(a) => if !delegated(p, a, aaaa) {
                    Err(ResolveError::BridgeMismatch)
                } else {
                    select_upstream(p, aaaa, port)
                },
            }
        } else {
            select_upstream(p, aaaa, port)
        },
    }
}

pub open spec fn opt_seq_u128(o: Option<&Vec<u128>>) -> Option<Seq<u128>> {
    match o {
        Some(v) => Some(v@),
        None => None,
    }
}

pub open spec fn opt_seq_u32(o: Option<&Vec<u32>>) -> Option<Seq<u32>> {
    match o {
        Some(v) => Some(v@),
        None => None,
    }
}

fn contains_u32(v: &Vec<u32>, x: u32) -> (b: bool)
    ensures
        b == v@.contains(x),
{
    let mut i: usize = 0;
    while i < v.len()
        invariant
            i <= v.len(),
            forall|j: int| 0 <= j < i ==> v@[j] != x,
        decreases v.len() - i,
    {
        if v[i] == x {
            return true;
        }
        i = i + 1;
    }
    false
}

fn contains_u128(v: &Vec<u128>, x: u128) -> (b: bool)
    ensures
        b == v@.contains(x),
{
    let mut i: usize = 0;
    while i < v.len()
        invariant
            i <= v.len(),
            forall|j: int| 0 <= j < i ==> v@[j] != x,
        decreases v.len() - i,
    {
        if v[i] == x {
            return true;
        }
        i = i + 1;
    }
    false
}

/// Whether the bridge-delegation gate is active under this policy; when it
/// is, the caller must also query A records before deciding.
pub fn needs_delegation_check(policy: &ResolutionPolicy) -> (b: bool)
    ensures
        b == bridge_enabled(*policy),
{
    policy.bridge_ipv4.is_some() || policy.bridge_ipv6.is_some()
}

fn first_usable_answer(policy: &ResolutionPolicy, aaaa: &Vec<u128>) -> (r: Option<u128>)
    ensures
        r == first_usable(*policy, aaaa@),
{
    let mut i: usize = 0;
    proof {
        assert(aaaa@.skip(0) =~= aaaa@);
    }
    while i < aaaa.len()
        invariant
            i <= aaaa.len(),
            first_usable(*policy, aaaa@) == first_usable(*policy, aaaa@.skip(i as int)),
        decreases aaaa.len() - i,
    {
        let ip = aaaa[i];
        proof {
            assert(aaaa@.skip(i as int)[0] == aaaa@[i as int]);
            assert(aaaa@.skip(i as int).drop_first() =~= aaaa@.skip(i + 1));
        }
        let self_ref = match policy.bridge_ipv6 {
            Some(b6) => ip == b6,
            None => false,
        };
        if !self_ref {
            return Some(ip);
        }
        i = i + 1;
    }
    proof {
        assert(aaaa@.skip(aaaa@.len() as int).len() == 0);
    }
    None
}

/// Turn the DNS answers for a hostname into the upstream to connect to.
///
/// The AAAA answers alone supply candidate addresses (IPv6-first routing);
/// when the bridge gate is active, the combined A/AAAA answers must name one
/// of the configured bridge addresses, and AAAA answers equal to the bridge's
/// own IPv6 address are skipped so the bridge never forwards to itself.
/// `port` is the port the upstream connection will use: the one the sniffer
/// extracted where the protocol carries one, else the listening port.
pub fn choose_upstream(
    policy: &ResolutionPolicy,
    aaaa: Option<&Vec<u128>>,
    a: Option<&Vec<u32>>,
    port: u16,
) -> (r: Result<ResolvedUpstream, ResolveError>)
    ensures
        r == resolution_model(*policy, opt_seq_u128(aaaa), opt_seq_u32(a), port),
{
    let aaaa = match aaaa {
        Some(v) => v,
        None => {
            return Err(ResolveError::QueryFailed);
        },
    };
    if aaaa.len() == 0 {
        return Err(ResolveError::NoRecord);
    }
    if needs_delegation_check(policy) {
        let a = match a {
            Some(v) => v,
            None => {
                return Err(ResolveError::QueryFailed);
            },
        };
        let mut hit = false;
        if let Some(b4) = policy.bridge_ipv4 {
            if contains_u32(a, b4) {
                hit = true;
            }
        }
        if let Some(b6) = policy.bridge_ipv6 {
            if contains_u128(aaaa, b6) {
                hit = true;
            }
        }
        if !hit {
            return Err(ResolveError::BridgeMismatch);
        }
    }
    match first_usable_answer(policy, aaaa) {
        Some(ip) => Ok(ResolvedUpstream { addr: ip, port }),
        None => Err(ResolveError::NoRecord),
    }
}

/// The port the upstream connection uses: the one the sniffer extracted
/// where the protocol's handshake carries one, else the port the
/// connection was accepted on.
pub fn upstream_port(sniffed: Option<u16>, listen_port: u16) -> (p: u16)
    ensures
        p == match sniffed {
            Some(explicit) => explicit,
            None => listen_port,
        },
{
    match sniffed {
        Some(explicit) => explicit,
        None => listen_port,
    }
}

/// With a bridge IPv6 address configured, self-referential AAAA answers are
/// skipped: a hostname whose only AAAA answer is the bridge itself yields no
/// record, and one whose answers are the bridge followed by another address
/// resolves to that other address.
pub proof fn lemma_bridge_self_loop(x: u128, y: u128, a: Seq<u32>, port: u16)
    requires
        y != x,
    ensures
        resolution_model(
            ResolutionPolicy { bridge_ipv4: None, bridge_ipv6: Some(x) },
            Some(seq![x]),
            Some(a),
            port,
        ) == Err::<ResolvedUpstream, ResolveError>(ResolveError::NoRecord),
        resolution_model(
            ResolutionPolicy { bridge_ipv4: None, bridge_ipv6: Some(x) },
            Some(seq![x, y]),
            Some(a),
            port,
        ) == Ok::<ResolvedUpstream, ResolveError>(ResolvedUpstream { addr: y, port }),
{
    let p = ResolutionPolicy { bridge_ipv4: None, bridge_ipv6: Some(x) };
    let one = seq![x];
    let two = seq![x, y];
    reveal_with_fuel(first_usable, 3);
    assert(one.contains(x)) by {
        assert(one[0] == x);
    }
    assert(two.contains(x)) by {
        assert(two[0] == x);
    }
    assert(one.drop_first().len() == 0);
    assert(two.drop_first().len() == 1);
    assert(two.drop_first()[0] == y);
    assert(first_usable(p, one) is None);
    assert(first_usable(p, two) == Some(y));
}

/// With both bridge addresses configured, a hostname whose A/AAAA answers
/// contain neither of them is refused as not delegated, whatever the
/// answers hold otherwise.
pub proof fn lemma_bridge_mismatch(b4: u32, b6: u128, a: Seq<u32>, aaaa: Seq<u128>, port: u16)
    requires
        aaaa.len() > 0,
        !a.contains(b4),
        !aaaa.contains(b6),
    ensures
        resolution_model(
            ResolutionPolicy { bridge_ipv4: Some(b4), bridge_ipv6: Some(b6) },
            Some(aaaa),
            Some(a),
            port,
        ) == Err::<ResolvedUpstream, ResolveError>(ResolveError::BridgeMismatch),
{
}

/// Resolution only ever chooses an address out of the AAAA answers, and
/// never the bridge's own IPv6 address; the port comes through unchanged.
pub proof fn lemma_upstream_from_answers(
    p: ResolutionPolicy,
    aaaa: Option<Seq<u128>>,
    a: Option<Seq<u32>>,
    port: u16,
)
    ensures
        resolution_model(p, aaaa, a, port) matches Ok(u) ==> {
            &&& aaaa matches Some(ans) && ans.contains(u.addr)
            &&& !self_referential(p, u.addr)
            &&& u.port == port
        },
{
    if let Some(ans) = aaaa {
        lemma_first_usable_in(p, ans);
    }
}

proof fn lemma_first_usable_in(p: ResolutionPolicy, aaaa: Seq<u128>)
    ensures
        first_usable(p, aaaa) matches Some(ip) ==> aaaa.contains(ip) && !self_referential(p, ip),
    decreases aaaa.len(),
{
    if aaaa.len() > 0 && self_referential(p, aaaa[0]) {
        lemma_first_usable_in(p, aaaa.drop_first());
        if let Some(ip) = first_usable(p, aaaa.drop_first()) {
            assert(aaaa.drop_first().contains(ip));
            let j = choose|j: int| 0 <= j < aaaa.drop_first().len() && aaaa.drop_first()[j] == ip;
            assert(aaaa[j + 1] == ip);
        }
    }
}

} // verus!
