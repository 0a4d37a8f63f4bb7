use vstd::prelude::*;

use crate::outcome::SniffModel;
use crate::outcome::SniffOutcome;

verus! {

pub const LF: u8 = 10;

pub const CR: u8 = 13;

/// ASCII upper-case letters fold to lower case; every other byte is kept.
pub open spec fn ascii_lower(c: u8) -> u8 {
    if 65 <= c <= 90 {
        (c + 32) as u8
    } else {
        c
    }
}

/// The whitespace that is trimmed off a header value.
pub open spec fn is_ws(c: u8) -> bool {
    c == 32 || c == 9
}

/// Does the line `[i, end)` open with `Host: `, matched without case?
/// The six bytes are `h`, `o`, `s`, `t`, `:`, and a space.
pub open spec fn is_host_line(b: Seq<u8>, i: int, end: int) -> bool {
    &&& end - i >= 6
    &&& ascii_lower(b[i]) == 104
    &&& ascii_lower(b[i + 1]) == 111
    &&& ascii_lower(b[i + 2]) == 115
    &&& ascii_lower(b[i + 3]) == 116
    &&& b[i + 4] == 58
    &&& b[i + 5] == 32
}

/// First non-whitespace position in `[i, end)`, or `end`.
pub open spec fn skip_ws(b: Seq<u8>, i: int, end: int) -> int
    decreases end - i,
{
    if i >= end {
        end
    } else if is_ws(b[i]) {
        skip_ws(b, i + 1, end)
    } else {
        i
    }
}

/// Position after the last non-whitespace byte of `[i, end)`, or `i`.
pub open spec fn trim_end(b: Seq<u8>, i: int, end: int) -> int
    decreases end - i,
{
    if end <= i {
        i
    } else if is_ws(b[end - 1]) {
        trim_end(b, i, end - 1)
    } else {
        end
    }
}

/// The hostname a `Host:` line `[i, end)` carries: everything after the
/// six-byte header name, trimmed of surrounding whitespace and folded to
/// lower case.
pub open spec fn host_value(b: Seq<u8>, i: int, end: int) -> Seq<u8> {
    let a = skip_ws(b, i + 6, end);
    let z = trim_end(b, a, end);
    Seq::new((z - a) as nat, |k: int| ascii_lower(b[a + k]))
}

/// Scan the header lines of `b`. `line_start` is where the current line
/// began and `i` the position being examined. A complete `Host:` line is a
/// success; a complete empty line ends the header block with no host; a
/// prefix that ends mid-line cannot be decided yet. Only complete lines
/// (terminated by a line feed, with an optional carriage return stripped)
/// are ever judged, so the answer cannot depend on where the peeked
/// prefix happens to end.
pub open spec fn http_scan(b: Seq<u8>, line_start: int, i: int) -> SniffModel
    decreases b.len() - i,
{
    if i >= b.len() {
        SniffModel::InsufficientData
    } else if b[i] != LF {
        http_scan(b, line_start, i + 1)
    } else {
        let end = if i > line_start && b[i - 1] == CR {
            i - 1
        } else {
            i
        };
        if end == line_start {
            SniffModel::Absent
        } else if is_host_line(b, line_start, end) {
            SniffModel::Success { hostname: host_value(b, line_start, end), port: None }
        } else {
            http_scan(b, i + 1, i + 1)
        }
    }
}

/// The HTTP sniffer's answer on a peeked prefix.
pub open spec fn http_sniff_model(b: Seq<u8>) -> SniffModel {
    http_scan(b, 0, 0)
}

fn ascii_lower_byte(c: u8) -> (r: u8)
    ensures
        r == ascii_lower(c),
{
    if 65 <= c && c <= 90 {
        c + 32
    } else {
        c
    }
}

fn is_ws_byte(c: u8) -> (r: bool)
    ensures
        r == is_ws(c),
{
    c == 32 || c == 9
}

fn host_line_matches(b: &[u8], i: usize, end: usize) -> (r: bool)
    requires
        i <= end <= b@.len(),
    ensures
        r == is_host_line(b@, i as int, end as int),
{
    if end - i < 6 {
        return false;
    }
    ascii_lower_byte(b[i]) == 104 && ascii_lower_byte(b[i + 1]) == 111 && ascii_lower_byte(
        b[i + 2],
    ) == 115 && ascii_lower_byte(b[i + 3]) == 116 && b[i + 4] == 58 && b[i + 5] == 32
}

fn extract_host_value(b: &[u8], i: usize, end: usize) -> (v: Vec<u8>)
    requires
        i + 6 <= end <= b@.len(),
    ensures
        v@ == host_value(b@, i as int, end as int),
{
    let mut a: usize = i + 6;
    while a < end && is_ws_byte(b[a])
        invariant
            i + 6 <= a <= end <= b@.len(),
            skip_ws(b@, i + 6, end as int) == skip_ws(b@, a as int, end as int),
        decreases end - a,
    {
        a = a + 1;
    }
    assert(skip_ws(b@, a as int, end as int) == a);
    let mut z: usize = end;
    while z > a && is_ws_byte(b[z - 1])
        invariant
            a <= z <= end <= b@.len(),
            trim_end(b@, a as int, end as int) == trim_end(b@, a as int, z as int),
        decreases z,
    {
        z = z - 1;
    }
    assert(trim_end(b@, a as int, z as int) == z);
    let mut v: Vec<u8> = Vec::new();
    let mut k: usize = a;
    while k < z
        invariant
            a <= k <= z <= b@.len(),
            v@.len() == k - a,
            forall|m: int| 0 <= m < v@.len() ==> v@[m] == ascii_lower(b@[a + m]),
        decreases z - k,
    {
        v.push(ascii_lower_byte(b[k]));
        k = k + 1;
    }
    proof {
        assert(v@ =~= host_value(b@, i as int, end as int));
    }
    v
}

/// Sniff an HTTP request prefix for its `Host:` header. The header name is
/// matched without case and the returned hostname is trimmed and folded to
/// lower case; HTTP carries no port, so routing falls back to the
/// listening port. A complete header block without the header is `Absent`.
pub fn sniff_http(prefix: &[u8]) -> (r: SniffOutcome)
    ensures
        r@ == http_sniff_model(prefix@),
{
    let mut line_start: usize = 0;
    let mut i: usize = 0;
    loop
        invariant
            line_start <= i <= prefix@.len(),
            http_sniff_model(prefix@) == http_scan(prefix@, line_start as int, i as int),
        decreases prefix@.len() - i,
    {
        if i >= prefix.len() {
            return SniffOutcome::InsufficientData;
        }
        if prefix[i] != LF {
            i = i + 1;
        } else {
            let end = if i > line_start && prefix[i - 1] == CR {
                i - 1
            } else {
                i
            };
            if end == line_start {
                return SniffOutcome::Absent;
            }
            if host_line_matches(prefix, line_start, end) {
                let hostname = extract_host_value(prefix, line_start, end);
                return SniffOutcome::Success { hostname, port: None };
            }
            i = i + 1;
            line_start = i;
        }
    }
}

/// The six bytes `Host: `.
pub open spec fn host_header_name() -> Seq<u8> {
    seq![72u8, 111u8, 115u8, 116u8, 58u8, 32u8]
}

/// The bytes of a request whose second line is a `Host:` header: a first
/// line, the header naming `name`, and then whatever else follows.
pub open spec fn request_bytes(first_line: Seq<u8>, name: Seq<u8>, rest: Seq<u8>) -> Seq<u8> {
    first_line + seq![CR, LF] + host_header_name() + name + seq![CR, LF] + rest
}

proof fn lemma_scan_advances(b: Seq<u8>, line_start: int, i: int, j: int)
    requires
        line_start <= i <= j,
        j < b.len(),
        forall|k: int| i <= k < j ==> #[trigger] b[k] != LF,
    ensures
        http_scan(b, line_start, i) == http_scan(b, line_start, j),
    decreases j - i,
{
    if i < j {
        lemma_scan_advances(b, line_start, i + 1, j);
    }
}

/// The sniffer is complete on the request grammar: a request whose first
/// line is anything but a `Host:` line and whose second line is a `Host:`
/// header sniffs to that header's value — folded to lower case — whatever
/// the name, the first line, or the rest of the request holds.
pub proof fn lemma_http_host_extracted(first_line: Seq<u8>, name: Seq<u8>, rest: Seq<u8>)
    requires
        0 < first_line.len(),
        forall|k: int| 0 <= k < first_line.len() ==> #[trigger] first_line[k] != LF,
        !is_host_line(first_line, 0, first_line.len() as int),
        0 < name.len(),
        forall|k: int| 0 <= k < name.len() ==> #[trigger] name[k] != LF && name[k] != CR,
        !is_ws(name[0]),
        !is_ws(name[name.len() - 1]),
    ensures
        http_sniff_model(request_bytes(first_line, name, rest)) == (SniffModel::Success {
            hostname: Seq::new(name.len(), |k: int| ascii_lower(name[k])),
            port: None,
        }),
{
    let b = request_bytes(first_line, name, rest);
    let fl = first_line.len() as int;
    let nl = name.len() as int;
    assert forall|k: int| 0 <= k < fl implies b[k] == first_line[k] by {}
    assert(b[fl] == CR);
    assert(b[fl + 1] == LF);
    let ls = fl + 2;
    assert forall|k: int| 0 <= k < 6 implies b[ls + k] == host_header_name()[k] by {}
    assert forall|k: int| 0 <= k < nl implies b[ls + 6 + k] == name[k] by {}
    assert(b[ls + 6 + nl] == CR);
    assert(b[ls + 7 + nl] == LF);
    // The scan crosses the first line without deciding on it.
    lemma_scan_advances(b, 0, 0, fl);
    assert(b[fl] != LF);
    assert(http_scan(b, 0, fl) == http_scan(b, 0, fl + 1));
    assert(!is_host_line(b, 0, fl));
    assert(http_scan(b, 0, fl + 1) == http_scan(b, ls, ls));
    // The scan crosses the host line's bytes up to its line feed.
    assert forall|k: int| ls <= k < ls + 7 + nl implies #[trigger] b[k] != LF by {
        if k < ls + 6 {
            assert(b[k] == host_header_name()[k - ls]);
        } else if k < ls + 6 + nl {
            assert(b[k] == name[k - ls - 6]);
        }
    }
    lemma_scan_advances(b, ls, ls, ls + 7 + nl);
    let end = ls + 6 + nl;
    assert(is_host_line(b, ls, end));
    assert(skip_ws(b, ls + 6, end) == ls + 6);
    assert(trim_end(b, ls + 6, end) == end);
    assert(host_value(b, ls, end) =~= Seq::new(name.len(), |k: int| ascii_lower(name[k])));
}

proof fn lemma_skip_ws_agree(b: Seq<u8>, q: Seq<u8>, i: int, end: int)
    requires
        b.is_prefix_of(q),
        0 <= i,
        end <= b.len(),
    ensures
        skip_ws(q, i, end) == skip_ws(b, i, end),
    decreases end - i,
{
    if i < end {
        assert(q[i] == b.subrange(0, b.len() as int)[i]);
        if is_ws(b[i]) {
            lemma_skip_ws_agree(b, q, i + 1, end);
        }
    }
}

proof fn lemma_trim_end_agree(b: Seq<u8>, q: Seq<u8>, i: int, end: int)
    requires
        b.is_prefix_of(q),
        0 <= i,
        end <= b.len(),
    ensures
        trim_end(q, i, end) == trim_end(b, i, end),
    decreases end - i,
{
    if end > i {
        assert(q[end - 1] == b.subrange(0, b.len() as int)[end - 1]);
        if is_ws(b[end - 1]) {
            lemma_trim_end_agree(b, q, i, end - 1);
        }
    }
}

proof fn lemma_skip_ws_bounds(b: Seq<u8>, i: int, end: int)
    requires
        i <= end,
    ensures
        i <= skip_ws(b, i, end) <= end,
    decreases end - i,
{
    if i < end && is_ws(b[i]) {
        lemma_skip_ws_bounds(b, i + 1, end);
    }
}

proof fn lemma_trim_end_bounds(b: Seq<u8>, i: int, end: int)
    requires
        i <= end,
    ensures
        i <= trim_end(b, i, end) <= end,
    decreases end - i,
{
    if end > i && is_ws(b[end - 1]) {
        lemma_trim_end_bounds(b, i, end - 1);
    }
}

proof fn lemma_http_scan_stable(b: Seq<u8>, q: Seq<u8>, line_start: int, i: int)
    requires
        b.is_prefix_of(q),
        0 <= line_start <= i,
        http_scan(b, line_start, i) != SniffModel::InsufficientData,
    ensures
        http_scan(q, line_start, i) == http_scan(b, line_start, i),
    decreases b.len() - i,
{
    assert(i < b.len());
    assert(q[i] == b.subrange(0, b.len() as int)[i]);
    if b[i] != LF {
        lemma_http_scan_stable(b, q, line_start, i + 1);
    } else {
        if i > line_start {
            assert(q[i - 1] == b.subrange(0, b.len() as int)[i - 1]);
        }
        let end = if i > line_start && b[i - 1] == CR {
            i - 1
        } else {
            i
        };
        if end == line_start {
        } else if is_host_line(b, line_start, end) {
            assert forall|k: int| line_start <= k < end implies q[k] == b[k] by {
                assert(b[k] == b.subrange(0, b.len() as int)[k]);
            }
            assert(is_host_line(q, line_start, end));
            lemma_skip_ws_agree(b, q, line_start + 6, end);
            lemma_skip_ws_bounds(b, line_start + 6, end);
            let a = skip_ws(b, line_start + 6, end);
            lemma_trim_end_agree(b, q, a, end);
            lemma_trim_end_bounds(b, a, end);
            let z = trim_end(b, a, end);
            assert forall|k: int| 0 <= k < z - a implies ascii_lower(#[trigger] q[a + k])
                == ascii_lower(b[a + k]) by {
                assert(b[a + k] == b.subrange(0, b.len() as int)[a + k]);
            }
            assert(host_value(q, line_start, end) =~= host_value(b, line_start, end));
        } else {
            assert(!is_host_line(q, line_start, end)) by {
                assert forall|k: int| line_start <= k < end implies q[k] == b[k] by {
                    assert(b[k] == b.subrange(0, b.len() as int)[k]);
                }
            }
            lemma_http_scan_stable(b, q, i + 1, i + 1);
        }
    }
}

/// Once the HTTP sniffer has decided on a prefix, any longer
/// prefix of the same stream yields the very same answer.
pub proof fn lemma_http_stable(b: Seq<u8>, q: Seq<u8>)
    requires
        b.is_prefix_of(q),
        http_sniff_model(b) != SniffModel::InsufficientData,
    ensures
        http_sniff_model(q) == http_sniff_model(b),
{
    lemma_http_scan_stable(b, q, 0, 0);
}

/// However a request is fragmented across reads, the sniffer never
/// contradicts what it would say of the whole request: on any prefix it
/// either asks for more bytes or returns the whole request's answer — in
/// particular, for a request with a `Host:` header, that header's hostname.
pub proof fn lemma_http_fragmentation(p: Seq<u8>, full: Seq<u8>)
    requires
        p.is_prefix_of(full),
    ensures
        http_sniff_model(p) == SniffModel::InsufficientData || http_sniff_model(p)
            == http_sniff_model(full),
{
    if http_sniff_model(p) != SniffModel::InsufficientData {
        lemma_http_stable(p, full);
    }
}

} // verus!
