//! The peer-address allocator: IPv4 host addresses are modelled as `u32`
//! values, gathered from the `Address` and `AllowedIPs` lists of the
//! configuration files, and new addresses are picked from a server's own
//! `/24` network.

use vstd::prelude::*;

use crate::Error;
use crate::config::{spec_read_value, split_list, split_list_spec};
use crate::text::{
    all_digits, dec_spec, dec_u64, digits_to_nat, find_char, find_from, parse_dec_bounded,
    split_by, split_ranges, to_chars,
};

verus! {

/// The value of one dotted-decimal octet: digits only, at most 255.
pub open spec fn spec_octet(p: Seq<char>) -> Option<int> {
    if p.len() > 0 && all_digits(p) && digits_to_nat(p) <= 255 {
        Some(digits_to_nat(p))
    } else {
        None
    }
}

/// The `u32` denoted by a dotted-decimal IPv4 address.  Leading zeros in
/// an octet are tolerated.
pub open spec fn parse_ipv4_spec(s: Seq<char>) -> Option<u32> {
    let parts = split_by(s, "."@);
    if parts.len() == 4 {
        match (spec_octet(parts[0]), spec_octet(parts[1]), spec_octet(parts[2]), spec_octet(
            parts[3],
        )) {
            (Some(a), Some(b), Some(c), Some(d)) => Some(
                (a * 16777216 + b * 65536 + c * 256 + d) as u32,
            ),
            _ => None,
        }
    } else {
        None
    }
}

/// Parses the dotted-decimal IPv4 address at `cs[lo..hi]`.
fn parse_ipv4_range(cs: &Vec<char>, lo: usize, hi: usize) -> (r: Option<u32>)
    requires
        lo <= hi <= cs.len(),
    ensures
        r == parse_ipv4_spec(cs@.subrange(lo as int, hi as int)),
{
    proof {
        reveal_strlit(".");
    }
    let parts = split_ranges(cs, lo, hi, ".");
    if parts.len() != 4 {
        return None;
    }
    let o0 = parse_dec_bounded(cs, parts[0].0, parts[0].1, 255);
    let o1 = parse_dec_bounded(cs, parts[1].0, parts[1].1, 255);
    let o2 = parse_dec_bounded(cs, parts[2].0, parts[2].1, 255);
    let o3 = parse_dec_bounded(cs, parts[3].0, parts[3].1, 255);
    proof {
        let views = parts@.map_values(|p: (usize, usize)| cs@.subrange(p.0 as int, p.1 as int));
        assert(views[0] == cs@.subrange(parts@[0].0 as int, parts@[0].1 as int));
        assert(views[1] == cs@.subrange(parts@[1].0 as int, parts@[1].1 as int));
        assert(views[2] == cs@.subrange(parts@[2].0 as int, parts@[2].1 as int));
        assert(views[3] == cs@.subrange(parts@[3].0 as int, parts@[3].1 as int));
    }
    match (o0, o1, o2, o3) {
        (Some(a), Some(b), Some(c), Some(d)) => Some(
            a * 16777216 + b * 65536 + c * 256 + d,
        ),
        _ => None,
    }
}

/// Parses a dotted-decimal IPv4 address.
pub fn parse_ipv4(s: &str) -> (r: Option<u32>)
    ensures
        r == parse_ipv4_spec(s@),
{
    let cs = to_chars(s);
    let n = cs.len();
    let r = parse_ipv4_range(&cs, 0, n);
    proof {
        assert(cs@.subrange(0, n as int) =~= s@);
    }
    r
}

/// The address part of a list entry: what stands before the first `/`.
pub open spec fn host_part(e: Seq<char>) -> Seq<char> {
    match find_from(e, '/', 0) {
        None => e,
        Some(j) => e.subrange(0, j),
    }
}

/// The IPv4 host address of a list entry, its prefix length ignored.
pub open spec fn entry_host(e: Seq<char>) -> Option<u32> {
    parse_ipv4_spec(host_part(e))
}

/// Parses the IPv4 host address of one list entry such as `10.0.0.1/24`.
pub fn parse_entry_host(e: &str) -> (r: Option<u32>)
    ensures
        r == entry_host(e@),
{
    let cs = to_chars(e);
    let n = cs.len();
    proof {
        assert(cs@.subrange(0, n as int) =~= e@);
    }
    match find_char(&cs, 0, n, '/') {
        None => parse_ipv4_range(&cs, 0, n),
        Some(j) => {
            proof {
                assert(cs@.subrange(0, j as int) =~= host_part(e@));
            }
            parse_ipv4_range(&cs, 0, j)
        },
    }
}

/// The IPv4 host addresses found among `items`, in order, unparsable
/// entries skipped.
pub open spec fn host_seq(items: Seq<Seq<char>>) -> Seq<u32>
    decreases items.len(),
{
    if items.len() == 0 {
        seq![]
    } else {
        (match entry_host(items[0]) {
            Some(a) => seq![a],
            None => Seq::<u32>::empty(),
        }) + host_seq(items.drop_first())
    }
}

/// The IPv4 host addresses named by one configuration's Interface
/// `Address` list.
pub open spec fn interface_hosts(c: Seq<char>) -> Seq<u32> {
    match spec_read_value(c, "Interface"@, "Address"@) {
        None => seq![],
        Some(v) => host_seq(split_list_spec(v)),
    }
}

/// The IPv4 hosts of every parsable entry among `items`.
pub fn hosts_of_items(items: &Vec<String>) -> (r: Vec<u32>)
    ensures
        r@ == host_seq(items.deep_view()),
{
    let ghost total = host_seq(items.deep_view());
    let mut r: Vec<u32> = Vec::new();
    proof {
        assert(items.deep_view().subrange(0, items@.len() as int) =~= items.deep_view());
        assert(Seq::<u32>::empty() + total =~= total);
    }
    let mut k: usize = 0;
    while k < items.len()
        invariant
            k <= items.len(),
            total == host_seq(items.deep_view()),
            total == r@ + host_seq(items.deep_view().subrange(k as int, items@.len() as int)),
        decreases items.len() - k,
    {
        let ghost suffix = items.deep_view().subrange(k as int, items@.len() as int);
        proof {
            assert(suffix[0] == items.deep_view()[k as int]);
            assert(suffix.drop_first() =~= items.deep_view().subrange(
                k + 1,
                items@.len() as int,
            ));
        }
        match parse_entry_host(items[k].as_str()) {
            Some(a) => {
                r.push(a);
                proof {
                    assert((r@ + host_seq(suffix.drop_first())) =~= total);
                }
            },
            None => {},
        }
        k = k + 1;
    }
    proof {
        assert(items.deep_view().subrange(
            items@.len() as int,
            items@.len() as int,
        ) =~= Seq::<Seq<char>>::empty());
        assert(r@ + Seq::<u32>::empty() =~= r@);
    }
    r
}

/// The union of the IPv4 host addresses of every configuration's
/// Interface `Address` list, in discovery order.
pub open spec fn spec_used_addresses(configs: Seq<Seq<char>>) -> Seq<u32>
    decreases configs.len(),
{
    if configs.len() == 0 {
        seq![]
    } else {
        interface_hosts(configs[0]) + spec_used_addresses(configs.drop_first())
    }
}

/// Gathers every IPv4 host address that some configuration's Interface
/// `Address` list names.
pub fn used_addresses(configs: &Vec<String>) -> (r: Vec<u32>)
    ensures
        r@ == spec_used_addresses(configs.deep_view()),
{
    let ghost total = spec_used_addresses(configs.deep_view());
    let mut r: Vec<u32> = Vec::new();
    proof {
        assert(configs.deep_view().subrange(0, configs@.len() as int) =~= configs.deep_view());
        assert(Seq::<u32>::empty() + total =~= total);
    }
    let mut k: usize = 0;
    while k < configs.len()
        invariant
            k <= configs.len(),
            total == spec_used_addresses(configs.deep_view()),
            total == r@ + spec_used_addresses(
                configs.deep_view().subrange(k as int, configs@.len() as int),
            ),
        decreases configs.len() - k,
    {
        let ghost suffix = configs.deep_view().subrange(k as int, configs@.len() as int);
        proof {
            assert(suffix[0] == configs.deep_view()[k as int]);
            assert(suffix.drop_first() =~= configs.deep_view().subrange(
                k + 1,
                configs@.len() as int,
            ));
        }
        let mut hosts = match crate::config::read_value(
            configs[k].as_str(),
            "Interface",
            "Address",
        ) {
            None => Vec::new(),
            Some(v) => hosts_of_items(&split_list(v.as_str())),
        };
        proof {
            assert(hosts@ == interface_hosts(suffix[0]));
        }
        let ghost before = r@;
        r.append(&mut hosts);
        proof {
            assert((before + interface_hosts(suffix[0])) + host_seq(
                Seq::<Seq<char>>::empty(),
            ) =~= before + interface_hosts(suffix[0]));
            assert((before + interface_hosts(suffix[0])) + spec_used_addresses(
                suffix.drop_first(),
            ) =~= before + (interface_hosts(suffix[0]) + spec_used_addresses(
                suffix.drop_first(),
            )));
        }
        k = k + 1;
    }
    proof {
        assert(configs.deep_view().subrange(
            configs@.len() as int,
            configs@.len() as int,
        ) =~= Seq::<Seq<char>>::empty());
        assert(r@ + Seq::<u32>::empty() =~= r@);
    }
    r
}

/// Whether `v` holds `x`.
pub fn contains_u32(v: &Vec<u32>, x: u32) -> (r: bool)
    ensures
        r == v@.contains(x),
{
    let mut k: usize = 0;
    while k < v.len()
        invariant
            k <= v.len(),
            forall|j: int| 0 <= j < k ==> v@[j] != x,
        decreases v.len() - k,
    {
        if v[k] == x {
            return true;
        }
        k = k + 1;
    }
    assert(!v@.contains(x));
    false
}

/// The start of the `/24` network that `a` belongs to.
pub open spec fn net_of(a: u32) -> int {
    (a as int / 256) * 256
}

/// The last octet of `a`.
pub open spec fn host_of(a: u32) -> int {
    a as int % 256
}

/// The allocator's scan: the first host octet in `[o, 253]` whose
/// address inside `base`'s `/24` is not in `used`.
pub open spec fn spec_next_peer_from(base: u32, used: Seq<u32>, o: int) -> Option<u32>
    decreases 254 - o,
{
    if o < 1 || o > 253 {
        None
    } else if !used.contains((net_of(base) + o) as u32) {
        Some((net_of(base) + o) as u32)
    } else {
        spec_next_peer_from(base, used, o + 1)
    }
}

/// The address allocated for a new peer of `base`, if any: the scan
/// starts one past `base`'s own host octet.
pub open spec fn spec_next_peer(base: u32, used: Seq<u32>) -> Option<u32> {
    spec_next_peer_from(base, used, host_of(base) + 1)
}

/// Splitting an in-range address into its network and host parts.
proof fn lemma_net_host_split(base: u32, o: int)
    requires
        1 <= o <= 253,
    ensures
        net_of((net_of(base) + o) as u32) == net_of(base),
        host_of((net_of(base) + o) as u32) == o,
    decreases 0int,
{
    assert(net_of(base) % 256 == 0) by (nonlinear_arith);
    assert((net_of(base) + o) / 256 * 256 == net_of(base) && (net_of(base) + o) % 256 == o)
        by (nonlinear_arith)
        requires
            net_of(base) % 256 == 0,
            0 < o < 256,
            net_of(base) == (base as int / 256) * 256,
    ;
}

/// What the scan yields from any starting octet: a fresh in-network
/// address past every used candidate, or nothing when all are taken.
proof fn lemma_next_peer_from_fresh(base: u32, used: Seq<u32>, o: int)
    requires
        1 <= o,
    ensures
        match spec_next_peer_from(base, used, o) {
            Some(a) => {
                &&& !used.contains(a)
                &&& net_of(a) == net_of(base)
                &&& o <= host_of(a) <= 253
                &&& 1 <= host_of(a)
                &&& forall|x: int|
                    o <= x < host_of(a) ==> #[trigger] used.contains((net_of(base) + x) as u32)
            },
            None => forall|x: int|
                o <= x <= 253 ==> #[trigger] used.contains((net_of(base) + x) as u32),
        },
    decreases 254 - o,
{
    if o <= 253 {
        lemma_net_host_split(base, o);
        if used.contains((net_of(base) + o) as u32) {
            lemma_next_peer_from_fresh(base, used, o + 1);
        }
    }
}

/// Law: the allocator never hands out an address in the used set, nor
/// the network address, nor one at or past the broadcast edge, and it
/// hands one out whenever any host in the scanned range is free.
pub proof fn lemma_next_peer_fresh(base: u32, used: Seq<u32>)
    ensures
        match spec_next_peer(base, used) {
            Some(a) => {
                &&& !used.contains(a)
                &&& net_of(a) == net_of(base)
                &&& host_of(base) < host_of(a)
                &&& 1 <= host_of(a) <= 253
            },
            None => forall|o: int|
                host_of(base) < o <= 253 ==> #[trigger] used.contains((net_of(base) + o) as u32),
        },
{
    lemma_next_peer_from_fresh(base, used, host_of(base) + 1);
}

/// Picks the next free peer address in the `/24` of `base`: the last
/// octet is scanned upward from one past `base`'s own octet to 253, so
/// the network address, the broadcast edge and `base` itself are never
/// returned; the first candidate outside `used` wins, and a full range
/// fails with `AllocationExhausted`.
pub fn next_peer_address(base: u32, used: &Vec<u32>) -> (r: Result<u32, Error>)
    ensures
        match r {
            Ok(a) => {
                &&& spec_next_peer(base, used@) == Some(a)
                &&& !used@.contains(a)
                &&& net_of(a) == net_of(base)
                &&& host_of(base) < host_of(a) <= 253
                &&& 1 <= host_of(a)
                &&& forall|o: int|
                    host_of(base) < o < host_of(a) ==> #[trigger] used@.contains(
                        (net_of(base) + o) as u32,
                    )
            },
            Err(e) => {
                &&& spec_next_peer(base, used@) is None
                &&& e matches Error::AllocationExhausted
                &&& forall|o: int|
                    host_of(base) < o <= 253 ==> #[trigger] used@.contains(
                        (net_of(base) + o) as u32,
                    )
            },
        },
{
    let net = base / 256 * 256;
    let h = base % 256;
    proof {
        assert(net == net_of(base));
        assert(h == host_of(base));
    }
    let mut o: u32 = h + 1;
    while o <= 253
        invariant
            net == net_of(base),
            h == host_of(base),
            h < o <= 256,
            spec_next_peer(base, used@) == spec_next_peer_from(base, used@, o as int),
            forall|x: int| h < x < o ==> #[trigger] used@.contains((net_of(base) + x) as u32),
        decreases 254 - o,
    {
        let cand = net + o;
        proof {
            assert(net % 256 == 0) by (nonlinear_arith)
                requires
                    net == (base as int / 256) * 256,
            ;
            assert((net + o) as int / 256 == net as int / 256 && (net + o) as int % 256
                == o as int) by (nonlinear_arith)
                requires
                    net as int % 256 == 0,
                    0 < o < 256,
                    net == (base as int / 256) * 256,
            ;
        }
        if !contains_u32(used, cand) {
            return Ok(cand);
        }
        o = o + 1;
    }
    Err(Error::AllocationExhausted)
}

/// The dotted-decimal rendering of an IPv4 address.
pub open spec fn ipv4_str(a: int) -> Seq<char> {
    dec_spec(a / 16777216 % 256) + "."@ + dec_spec(a / 65536 % 256) + "."@ + dec_spec(
        a / 256 % 256,
    ) + "."@ + dec_spec(a % 256)
}

/// Renders an IPv4 address in dotted-decimal form.
pub fn format_ipv4(a: u32) -> (r: String)
    ensures
        r@ == ipv4_str(a as int),
{
    let mut s = dec_u64((a / 16777216 % 256) as u64);
    s.append(".");
    let o2 = dec_u64((a / 65536 % 256) as u64);
    s.append(o2.as_str());
    s.append(".");
    let o3 = dec_u64((a / 256 % 256) as u64);
    s.append(o3.as_str());
    s.append(".");
    let o4 = dec_u64((a % 256) as u64);
    s.append(o4.as_str());
    proof {
        assert(s@ =~= ipv4_str(a as int));
    }
    s
}

/// The candidate server address `10.0.i.1`.
pub open spec fn server_candidate(i: int) -> u32 {
    (167772161 + i * 256) as u32
}

/// Suggests a host address for a new server: the first of `10.0.i.1` for
/// `i` from 0 to 255 that no discovered tunnel uses, or `10.0.0.1` as a
/// fixed fallback when all are taken.
pub fn suggest_server_address(used: &Vec<u32>) -> (r: u32)
    ensures
        (exists|i: int|
            0 <= i < 256 && r == server_candidate(i) && !used@.contains(r) && (forall|j: int|
                0 <= j < i ==> used@.contains(server_candidate(j)))) || (r == 167772161u32
            && forall|i: int| 0 <= i < 256 ==> used@.contains(server_candidate(i))),
{
    let mut i: u32 = 0;
    while i < 256
        invariant
            i <= 256,
            forall|j: int| 0 <= j < i ==> used@.contains(server_candidate(j)),
        decreases 256 - i,
    {
        let cand = 167772161 + i * 256;
        if !contains_u32(used, cand) {
            proof {
                assert(cand == server_candidate(i as int));
            }
            return cand;
        }
        i = i + 1;
    }
    167772161
}

} // verus!
