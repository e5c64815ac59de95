//! Routing IP packets to VPN peers.
//!
//! A packet to a peer's tunnel address goes to that peer.  Otherwise it
//! goes to the peer owning the longest advertised subnet that holds the
//! address.  A subnet claimed by two peers, or one that would swallow our
//! own tunnel address, is routed to nobody.

use vstd::prelude::*;

use std::collections::HashMap;

use crate::vpn::net::Ipv4Net;
use crate::vpn::peer::Peer;

verus! {

broadcast use vstd::std_specs::hash::group_hash_axioms;

/// The peer's routes count at `now`: it is not us, and its routes have not
/// expired (an expiry time of 0 never expires).
pub open spec fn live(p: Peer, now: u64, local_hash: u128) -> bool {
    p.hash != local_hash && !(p.route_expires_ts != 0 && p.route_expires_ts <= now)
}

/// The (subnet, owner) claims of one peer at `now`.
pub open spec fn peer_claims(p: Peer, now: u64, local_hash: u128) -> Seq<(Ipv4Net, u128)> {
    if live(p, now, local_hash) {
        p.routes@.map_values(|r: Ipv4Net| (r, p.hash))
    } else {
        Seq::empty()
    }
}

/// All claims, peer after peer.
pub open spec fn claims_of(peers: Seq<Peer>, now: u64, local_hash: u128) -> Seq<(Ipv4Net, u128)>
    decreases peers.len(),
{
    if peers.len() == 0 {
        Seq::empty()
    } else {
        claims_of(peers.drop_last(), now, local_hash) + peer_claims(peers.last(), now, local_hash)
    }
}

/// The owner of the first claim of `net` at or after `i`.
pub open spec fn first_owner_from(cs: Seq<(Ipv4Net, u128)>, net: Ipv4Net, i: int) -> Option<u128>
    decreases cs.len() - i,
{
    if i < 0 || i >= cs.len() {
        None
    } else if cs[i].0 == net {
        Some(cs[i].1)
    } else {
        first_owner_from(cs, net, i + 1)
    }
}

/// Two different peers claim `net`.
pub open spec fn disputed(cs: Seq<(Ipv4Net, u128)>, net: Ipv4Net) -> bool {
    exists|a: int, b: int|
        0 <= a < cs.len() && 0 <= b < cs.len() && #[trigger] cs[a].0 == net && #[trigger] cs[b].0
            == net && cs[a].1 != cs[b].1
}

/// `net` is routed to `owner`: `owner` claimed it first, nobody else
/// claims it, and it does not hold our own tunnel address.
pub open spec fn kept_route(cs: Seq<(Ipv4Net, u128)>, net: Ipv4Net, owner: u128, local_ip: u32) -> bool {
    &&& first_owner_from(cs, net, 0) == Some(owner)
    &&& !disputed(cs, net)
    &&& !net.holds(local_ip)
}

/// The owner of the tunnel address `ip`: the last peer other than us with
/// that address.
pub open spec fn tunnel_owner(peers: Seq<Peer>, local_hash: u128, ip: u32) -> Option<u128>
    decreases peers.len(),
{
    if peers.len() == 0 {
        None
    } else if peers.last().hash != local_hash && peers.last().tunnel_ip == ip {
        Some(peers.last().hash)
    } else {
        tunnel_owner(peers.drop_last(), local_hash, ip)
    }
}

/// Every route of every peer names a network.
pub open spec fn routes_wf(peers: Seq<Peer>) -> bool {
    forall|i: int, j: int|
        0 <= i < peers.len() && 0 <= j < peers[i].routes@.len() ==> (#[trigger] peers[i].routes@[j]).wf()
}

/// The owner of the tunnel address `ip` in a tunnel map.
pub open spec fn tunnel_lookup(ts: Map<u32, u128>, ip: u32) -> Option<u128> {
    if ts.contains_key(ip) {
        Some(ts[ip])
    } else {
        None
    }
}

/// The owner of the first subnet (from `i` on) that holds `ip`.
pub open spec fn first_holding(ss: Seq<(Ipv4Net, u128)>, ip: u32, i: int) -> Option<u128>
    decreases ss.len() - i,
{
    if i < 0 || i >= ss.len() {
        None
    } else if ss[i].0.holds(ip) {
        Some(ss[i].1)
    } else {
        first_holding(ss, ip, i + 1)
    }
}

/// Where a table sends `ip`: to the tunnel address's owner, else along the
/// first subnet that holds it.
pub open spec fn lookup(ts: Map<u32, u128>, ss: Seq<(Ipv4Net, u128)>, ip: u32) -> Option<u128> {
    match tunnel_lookup(ts, ip) {
        Some(h) => Some(h),
        None => first_holding(ss, ip, 0),
    }
}

/// The subnets are ordered by prefix length, longest first.
pub open spec fn longest_first(ss: Seq<(Ipv4Net, u128)>) -> bool {
    forall|i: int, j: int| 0 <= i < j < ss.len() ==> #[trigger] ss[i].0.prefix >= #[trigger] ss[j].0.prefix
}

/// No subnet is listed twice.
pub open spec fn distinct_nets(ss: Seq<(Ipv4Net, u128)>) -> bool {
    forall|i: int, j: int| 0 <= i < ss.len() && 0 <= j < ss.len() && i != j ==> #[trigger] ss[i].0 != #[trigger] ss[j].0
}

/// A table was built from `peers` at `now`: the tunnel list gives each
/// tunnel address's owner, and the subnets are exactly the kept routes,
/// each once, longest first.
pub open spec fn built_from(
    ts: Map<u32, u128>,
    ss: Seq<(Ipv4Net, u128)>,
    peers: Seq<Peer>,
    now: u64,
    local_hash: u128,
    local_ip: u32,
) -> bool {
    let cs = claims_of(peers, now, local_hash);
    &&& forall|ip: u32| #[trigger] tunnel_lookup(ts, ip) == tunnel_owner(peers, local_hash, ip)
    &&& forall|n: Ipv4Net, h: u128| #[trigger] ss.contains((n, h)) <==> kept_route(cs, n, h, local_ip)
    &&& longest_first(ss)
    &&& distinct_nets(ss)
    &&& forall|i: int| 0 <= i < ss.len() ==> (#[trigger] ss[i]).0.wf()
}

/// The routing table: tunnel addresses and owned subnets.
pub struct RouteTable {
    tunnel_ips: HashMap<u32, u128>,
    subnets: Vec<(Ipv4Net, u128)>,
}

impl RouteTable {
    /// The tunnel addresses and their owners.
    pub closed spec fn tunnels(&self) -> Map<u32, u128> {
        self.tunnel_ips@
    }

    /// The owned subnets, longest prefix first.
    pub closed spec fn subnet_seq(&self) -> Seq<(Ipv4Net, u128)> {
        self.subnets@
    }

    /// An empty table.
    pub fn new() -> (t: Self)
        ensures
            t.tunnels() == Map::<u32, u128>::empty(),
            t.subnet_seq().len() == 0,
    {
        RouteTable { tunnel_ips: HashMap::new(), subnets: Vec::new() }
    }

    /// Where `ip` goes.
    pub fn resolve(&self, ip: u32) -> (r: Option<u128>)
        requires
            forall|i: int| 0 <= i < self.subnet_seq().len() ==> (#[trigger] self.subnet_seq()[i]).0.wf(),
        ensures
            r == lookup(self.tunnels(), self.subnet_seq(), ip),
    {
        if let Some(owner) = self.tunnel_ips.get(&ip) {
            return Some(*owner);
        }
        let mut k: usize = 0;
        while k < self.subnets.len()
            invariant
                k <= self.subnets.len(),
                tunnel_lookup(self.tunnel_ips@, ip) is None,
                forall|i: int| 0 <= i < self.subnets@.len() ==> (#[trigger] self.subnets@[i]).0.wf(),
                first_holding(self.subnets@, ip, 0) == first_holding(self.subnets@, ip, k as int),
            decreases self.subnets.len() - k,
        {
            let (net, owner) = self.subnets[k];
            if net.contains(ip) {
                return Some(owner);
            }
            k += 1;
        }
        None
    }

    /// The owned subnets, longest prefix first.
    pub fn subnets(&self) -> (r: &Vec<(Ipv4Net, u128)>)
        ensures
            r@ == self.subnet_seq(),
    {
        &self.subnets
    }
}

// ---------------------------------------------------------------------------
// Building a table
// ---------------------------------------------------------------------------

/// No earlier claim names the same subnet as claim `k`.
pub open spec fn is_first(cs: Seq<(Ipv4Net, u128)>, k: int) -> bool {
    forall|j: int| 0 <= j < k ==> #[trigger] cs[j].0 != cs[k].0
}

/// Claim `k` is the first claim of a kept route.
pub open spec fn kept_at(cs: Seq<(Ipv4Net, u128)>, k: int, local_ip: u32) -> bool {
    is_first(cs, k) && !disputed(cs, cs[k].0) && !cs[k].0.holds(local_ip)
}

proof fn lemma_first_owner_of_first(cs: Seq<(Ipv4Net, u128)>, k: int, i: int)
    requires
        0 <= i <= k < cs.len(),
        forall|j: int| i <= j < k ==> #[trigger] cs[j].0 != cs[k].0,
    ensures
        first_owner_from(cs, cs[k].0, i) == Some(cs[k].1),
    decreases k - i,
{
    if i < k {
        lemma_first_owner_of_first(cs, k, i + 1);
    }
}

proof fn lemma_first_owner_witness(cs: Seq<(Ipv4Net, u128)>, net: Ipv4Net, h: u128, i: int) -> (k: int)
    requires
        0 <= i,
        first_owner_from(cs, net, i) == Some(h),
    ensures
        i <= k < cs.len(),
        cs[k] == (net, h),
        forall|j: int| i <= j < k ==> #[trigger] cs[j].0 != net,
    decreases cs.len() - i,
{
    if cs[i].0 == net {
        i
    } else {
        lemma_first_owner_witness(cs, net, h, i + 1)
    }
}

proof fn lemma_claims_take(peers: Seq<Peer>, i: int, now: u64, local_hash: u128)
    requires
        0 <= i < peers.len(),
    ensures
        claims_of(peers.take(i + 1), now, local_hash) == claims_of(peers.take(i), now, local_hash)
            + peer_claims(peers[i], now, local_hash),
{
    assert(peers.take(i + 1).drop_last() =~= peers.take(i));
    assert(peers.take(i + 1).last() == peers[i]);
}

proof fn lemma_claims_wf(peers: Seq<Peer>, now: u64, local_hash: u128)
    requires
        routes_wf(peers),
    ensures
        forall|k: int|
            0 <= k < claims_of(peers, now, local_hash).len() ==> (#[trigger] claims_of(
                peers,
                now,
                local_hash,
            )[k]).0.wf(),
    decreases peers.len(),
{
    if peers.len() > 0 {
        let d = peers.drop_last();
        assert forall|i: int, j: int|
            0 <= i < d.len() && 0 <= j < d[i].routes@.len() implies (#[trigger] d[i].routes@[j]).wf() by {
            assert(d[i] == peers[i]);
        }
        lemma_claims_wf(d, now, local_hash);
        let c = claims_of(peers, now, local_hash);
        let a = claims_of(d, now, local_hash);
        let l = peers.last();
        assert forall|k: int| 0 <= k < c.len() implies (#[trigger] c[k]).0.wf() by {
            if k < a.len() {
                assert(c[k] == a[k]);
            } else {
                assert(live(l, now, local_hash));
                let j = k - a.len();
                assert(c[k] == peer_claims(l, now, local_hash)[j]);
                assert(peers[peers.len() - 1] == l);
                assert(l.routes@[j].wf());
            }
        }
    }
}

fn collect_claims(peers: &Vec<Peer>, now: u64, local_hash: u128) -> (cs: Vec<(Ipv4Net, u128)>)
    ensures
        cs@ == claims_of(peers@, now, local_hash),
{
    let mut cs: Vec<(Ipv4Net, u128)> = Vec::new();
    let mut i: usize = 0;
    while i < peers.len()
        invariant
            i <= peers.len(),
            cs@ == claims_of(peers@.take(i as int), now, local_hash),
        decreases peers.len() - i,
    {
        let p = &peers[i];
        proof {
            lemma_claims_take(peers@, i as int, now, local_hash);
        }
        let is_live = p.hash != local_hash && !(p.route_expires_ts != 0 && p.route_expires_ts <= now);
        if is_live {
            let ghost base = cs@;
            let mut j: usize = 0;
            while j < p.routes.len()
                invariant
                    j <= p.routes.len(),
                    cs@ == base + p.routes@.take(j as int).map_values(|r: Ipv4Net| (r, p.hash)),
                decreases p.routes.len() - j,
            {
                cs.push((p.routes[j], p.hash));
                assert(p.routes@.take(j + 1).map_values(|r: Ipv4Net| (r, p.hash)) =~= p.routes@.take(
                    j as int,
                ).map_values(|r: Ipv4Net| (r, p.hash)).push((p.routes@[j as int], p.hash)));
                j += 1;
            }
            assert(p.routes@.take(p.routes.len() as int) =~= p.routes@);
        } else {
            assert(peer_claims(*p, now, local_hash) =~= Seq::<(Ipv4Net, u128)>::empty());
            assert(cs@ + Seq::<(Ipv4Net, u128)>::empty() =~= cs@);
        }
        i += 1;
    }
    assert(peers@.take(peers.len() as int) =~= peers@);
    cs
}

fn collect_tunnels(peers: &Vec<Peer>, local_hash: u128) -> (ts: HashMap<u32, u128>)
    ensures
        forall|ip: u32| #[trigger] tunnel_lookup(ts@, ip) == tunnel_owner(peers@, local_hash, ip),
{
    let mut ts: HashMap<u32, u128> = HashMap::new();
    let mut i: usize = 0;
    while i < peers.len()
        invariant
            i <= peers.len(),
            forall|ip: u32| #[trigger] tunnel_lookup(ts@, ip) == tunnel_owner(
                peers@.take(i as int),
                local_hash,
                ip,
            ),
        decreases peers.len() - i,
    {
        let ghost before = ts@;
        let p = &peers[i];
        assert(peers@.take(i + 1).drop_last() =~= peers@.take(i as int));
        assert(peers@.take(i + 1).last() == peers@[i as int]);
        if p.hash != local_hash {
            ts.insert(p.tunnel_ip, p.hash);
        }
        assert forall|ip: u32| #[trigger] tunnel_lookup(ts@, ip) == tunnel_owner(
            peers@.take(i + 1),
            local_hash,
            ip,
        ) by {
            assert(tunnel_lookup(before, ip) == tunnel_owner(peers@.take(i as int), local_hash, ip));
        }
        i += 1;
    }
    assert(peers@.take(peers.len() as int) =~= peers@);
    ts
}

fn same_net(a: &Ipv4Net, b: &Ipv4Net) -> (r: bool)
    ensures
        r == (*a == *b),
{
    a.addr == b.addr && a.prefix == b.prefix
}

fn first_at(cs: &Vec<(Ipv4Net, u128)>, k: usize) -> (r: bool)
    requires
        k < cs.len(),
    ensures
        r == is_first(cs@, k as int),
{
    let mut j: usize = 0;
    while j < k
        invariant
            j <= k < cs.len(),
            forall|m: int| 0 <= m < j ==> #[trigger] cs@[m].0 != cs@[k as int].0,
        decreases k - j,
    {
        if same_net(&cs[j].0, &cs[k].0) {
            return false;
        }
        j += 1;
    }
    true
}

fn is_disputed(cs: &Vec<(Ipv4Net, u128)>, net: &Ipv4Net) -> (r: bool)
    ensures
        r == disputed(cs@, *net),
{
    let mut owner: Option<u128> = None;
    let mut a: usize = 0;
    while a < cs.len()
        invariant
            a <= cs.len(),
            match owner {
                None => forall|m: int| 0 <= m < a ==> #[trigger] cs@[m].0 != *net,
                Some(h) => (exists|m: int| 0 <= m < a && #[trigger] cs@[m].0 == *net && cs@[m].1
                    == h) && forall|m: int| 0 <= m < a && #[trigger] cs@[m].0 == *net ==> cs@[m].1
                    == h,
            },
        decreases cs.len() - a,
    {
        if same_net(&cs[a].0, net) {
            match owner {
                None => {
                    owner = Some(cs[a].1);
                },
                Some(h) => {
                    if h != cs[a].1 {
                        let ghost m0 = choose|m: int| 0 <= m < a && #[trigger] cs@[m].0 == *net
                            && cs@[m].1 == h;
                        assert(cs@[m0].0 == *net && cs@[a as int].0 == *net);
                        return true;
                    }
                },
            }
        }
        a += 1;
    }
    assert(!disputed(cs@, *net)) by {
        if disputed(cs@, *net) {
            let (x, y) = choose|x: int, y: int|
                0 <= x < cs@.len() && 0 <= y < cs@.len() && #[trigger] cs@[x].0 == *net
                    && #[trigger] cs@[y].0 == *net && cs@[x].1 != cs@[y].1;
            assert(cs@[x].0 == *net);
        }
    }
    false
}

fn keep_routes(cs: &Vec<(Ipv4Net, u128)>, local_ip: u32) -> (kept: Vec<(Ipv4Net, u128)>)
    requires
        forall|k: int| 0 <= k < cs.len() ==> (#[trigger] cs@[k]).0.wf(),
    ensures
        forall|n: Ipv4Net, h: u128| #[trigger] kept@.contains((n, h)) <==> kept_route(cs@, n, h, local_ip),
        distinct_nets(kept@),
        forall|i: int| 0 <= i < kept@.len() ==> (#[trigger] kept@[i]).0.wf(),
{
    let mut kept: Vec<(Ipv4Net, u128)> = Vec::new();
    let ghost mut origin: Seq<int> = Seq::empty();
    let mut k: usize = 0;
    while k < cs.len()
        invariant
            k <= cs.len(),
            forall|m: int| 0 <= m < cs.len() ==> (#[trigger] cs@[m]).0.wf(),
            origin.len() == kept@.len(),
            forall|i: int|
                0 <= i < origin.len() ==> 0 <= #[trigger] origin[i] < k && kept_at(cs@, origin[i], local_ip)
                    && kept@[i] == cs@[origin[i]],
            forall|m: int| 0 <= m < k && #[trigger] kept_at(cs@, m, local_ip) ==> kept@.contains(cs@[m]),
            distinct_nets(kept@),
        decreases cs.len() - k,
    {
        let (net, owner) = cs[k];
        let keep = first_at(cs, k) && !is_disputed(cs, &net) && !net.contains(local_ip);
        let ghost before = kept@;
        let ghost before_origin = origin;
        if keep {
            kept.push((net, owner));
            proof {
                origin = origin.push(k as int);
            }
            assert(kept@[before.len() as int] == cs@[k as int]);
            assert forall|i: int| 0 <= i < origin.len() implies 0 <= #[trigger] origin[i] < k + 1
                && kept_at(cs@, origin[i], local_ip) && kept@[i] == cs@[origin[i]] by {
                if i < before.len() {
                    assert(origin[i] == before_origin[i]);
                    assert(kept@[i] == before[i]);
                }
            }
            assert forall|m: int| 0 <= m < k + 1 && #[trigger] kept_at(cs@, m, local_ip) implies kept@.contains(
                cs@[m],
            ) by {
                if m < k {
                    assert(before.contains(cs@[m]));
                    let i = choose|i: int| 0 <= i < before.len() && before[i] == cs@[m];
                    assert(kept@[i] == cs@[m]);
                }
            }
            assert forall|i: int, j: int|
                0 <= i < kept@.len() && 0 <= j < kept@.len() && i != j implies #[trigger] kept@[i].0
                != #[trigger] kept@[j].0 by {
                if i < before.len() && j < before.len() {
                    assert(kept@[i] == before[i] && kept@[j] == before[j]);
                } else if i < before.len() {
                    assert(origin[i] < k);
                    assert(kept@[i] == cs@[origin[i]]);
                    assert(cs@[origin[i]].0 != cs@[k as int].0);
                } else if j < before.len() {
                    assert(origin[j] < k);
                    assert(kept@[j] == cs@[origin[j]]);
                    assert(cs@[origin[j]].0 != cs@[k as int].0);
                }
            }
        } else {
            assert(!kept_at(cs@, k as int, local_ip));
        }
        k += 1;
    }
    assert forall|n: Ipv4Net, h: u128| #[trigger] kept@.contains((n, h)) <==> kept_route(cs@, n, h, local_ip) by {
        if kept@.contains((n, h)) {
            let i = choose|i: int| 0 <= i < kept@.len() && kept@[i] == (n, h);
            let m = origin[i];
            assert(kept_at(cs@, m, local_ip) && cs@[m] == (n, h));
            lemma_first_owner_of_first(cs@, m, 0);
        }
        if kept_route(cs@, n, h, local_ip) {
            let m = lemma_first_owner_witness(cs@, n, h, 0);
            assert(kept_at(cs@, m, local_ip));
        }
    }
    assert forall|i: int| 0 <= i < kept@.len() implies (#[trigger] kept@[i]).0.wf() by {
        assert(kept@[i] == cs@[origin[i]]);
    }
    kept
}

fn sort_longest_first(kept: &Vec<(Ipv4Net, u128)>) -> (sorted: Vec<(Ipv4Net, u128)>)
    requires
        distinct_nets(kept@),
        forall|i: int| 0 <= i < kept@.len() ==> (#[trigger] kept@[i]).0.wf(),
    ensures
        forall|x: (Ipv4Net, u128)| #[trigger] sorted@.contains(x) <==> kept@.contains(x),
        longest_first(sorted@),
        distinct_nets(sorted@),
        forall|i: int| 0 <= i < sorted@.len() ==> (#[trigger] sorted@[i]).0.wf(),
{
    let mut sorted: Vec<(Ipv4Net, u128)> = Vec::new();
    let ghost mut origin: Seq<int> = Seq::empty();
    let mut q: u8 = 0;
    while q < 33
        invariant
            q <= 33,
            distinct_nets(kept@),
            forall|i: int| 0 <= i < kept@.len() ==> (#[trigger] kept@[i]).0.wf(),
            origin.len() == sorted@.len(),
            forall|i: int|
                0 <= i < origin.len() ==> 0 <= #[trigger] origin[i] < kept@.len() && sorted@[i]
                    == kept@[origin[i]] && kept@[origin[i]].0.prefix + q >= 33,
            forall|m: int|
                0 <= m < kept@.len() && (#[trigger] kept@[m]).0.prefix + q >= 33 ==> sorted@.contains(
                    kept@[m],
                ),
            longest_first(sorted@),
            distinct_nets(sorted@),
        decreases 33 - q,
    {
        let p: u8 = 32 - q;
        assert forall|i: int| 0 <= i < sorted@.len() implies (#[trigger] sorted@[i]).0.prefix >= p by {
            assert(sorted@[i] == kept@[origin[i]]);
        }
        let mut m: usize = 0;
        while m < kept.len()
            invariant
                q < 33,
                p == 32 - q,
                m <= kept.len(),
                distinct_nets(kept@),
                forall|i: int| 0 <= i < kept@.len() ==> (#[trigger] kept@[i]).0.wf(),
                origin.len() == sorted@.len(),
                forall|i: int|
                    0 <= i < origin.len() ==> 0 <= #[trigger] origin[i] < kept@.len() && sorted@[i]
                        == kept@[origin[i]] && (kept@[origin[i]].0.prefix > p || (
                    kept@[origin[i]].0.prefix == p && origin[i] < m)),
                forall|j: int|
                    0 <= j < kept@.len() && ((#[trigger] kept@[j]).0.prefix > p || (
                    kept@[j].0.prefix == p && j < m)) ==> sorted@.contains(kept@[j]),
                longest_first(sorted@),
                forall|i: int| 0 <= i < sorted@.len() ==> (#[trigger] sorted@[i]).0.prefix >= p,
                distinct_nets(sorted@),
            decreases kept.len() - m,
        {
            if kept[m].0.prefix == p {
                let ghost before = sorted@;
                let ghost before_origin = origin;
                sorted.push(kept[m]);
                proof {
                    origin = origin.push(m as int);
                }
                assert(sorted@[before.len() as int] == kept@[m as int]);
                assert forall|i: int| 0 <= i < origin.len() implies 0 <= #[trigger] origin[i]
                    < kept@.len() && sorted@[i] == kept@[origin[i]] && (kept@[origin[i]].0.prefix
                    > p || (kept@[origin[i]].0.prefix == p && origin[i] < m + 1)) by {
                    if i < before.len() {
                        assert(origin[i] == before_origin[i]);
                        assert(sorted@[i] == before[i]);
                    }
                }
                assert forall|j: int|
                    0 <= j < kept@.len() && ((#[trigger] kept@[j]).0.prefix > p || (
                    kept@[j].0.prefix == p && j < m + 1)) implies sorted@.contains(kept@[j]) by {
                    if j != m {
                        assert(before.contains(kept@[j]));
                        let i = choose|i: int| 0 <= i < before.len() && before[i] == kept@[j];
                        assert(sorted@[i] == kept@[j]);
                    }
                }
                assert forall|a: int, b: int| 0 <= a < b < sorted@.len() implies #[trigger] sorted@[a].0.prefix
                    >= #[trigger] sorted@[b].0.prefix by {
                    if b < before.len() {
                        assert(sorted@[a] == before[a] && sorted@[b] == before[b]);
                    } else {
                        assert(sorted@[a] == before[a]);
                    }
                }
                assert forall|i: int| 0 <= i < sorted@.len() implies (#[trigger] sorted@[i]).0.prefix >= p by {
                    if i < before.len() {
                        assert(sorted@[i] == before[i]);
                    }
                }
                assert forall|a: int, b: int|
                    0 <= a < sorted@.len() && 0 <= b < sorted@.len() && a != b implies #[trigger] sorted@[a].0
                    != #[trigger] sorted@[b].0 by {
                    if a < before.len() && b < before.len() {
                        assert(sorted@[a] == before[a] && sorted@[b] == before[b]);
                    } else if a < before.len() {
                        assert(sorted@[a] == kept@[origin[a]]);
                        assert(origin[a] != m);
                        assert(kept@[origin[a]].0 != kept@[m as int].0);
                    } else if b < before.len() {
                        assert(sorted@[b] == kept@[origin[b]]);
                        assert(origin[b] != m);
                        assert(kept@[origin[b]].0 != kept@[m as int].0);
                    }
                }
            }
            m += 1;
        }
        assert forall|i: int|
            0 <= i < origin.len() implies 0 <= #[trigger] origin[i] < kept@.len() && sorted@[i]
                == kept@[origin[i]] && kept@[origin[i]].0.prefix + (q + 1) >= 33 by {
        }
        q += 1;
    }
    assert forall|x: (Ipv4Net, u128)| #[trigger] sorted@.contains(x) <==> kept@.contains(x) by {
        if sorted@.contains(x) {
            let i = choose|i: int| 0 <= i < sorted@.len() && sorted@[i] == x;
            assert(kept@[origin[i]] == x);
        }
        if kept@.contains(x) {
            let m = choose|m: int| 0 <= m < kept@.len() && kept@[m] == x;
            assert(kept@[m].0.wf());
        }
    }
    assert forall|i: int| 0 <= i < sorted@.len() implies (#[trigger] sorted@[i]).0.wf() by {
        assert(sorted@[i] == kept@[origin[i]]);
    }
    sorted
}

impl RouteTable {
    /// Builds the table for `peers` at `now`, leaving out the local node
    /// (`local_hash`) and any subnet holding our tunnel address
    /// `local_tunnel_ip`.
    pub fn build(peers: &Vec<Peer>, now: u64, local_hash: u128, local_tunnel_ip: u32) -> (t: Self)
        requires
            routes_wf(peers@),
        ensures
            built_from(t.tunnels(), t.subnet_seq(), peers@, now, local_hash, local_tunnel_ip),
    {
        let tunnel_ips = collect_tunnels(peers, local_hash);
        let claims = collect_claims(peers, now, local_hash);
        proof {
            lemma_claims_wf(peers@, now, local_hash);
        }
        let kept = keep_routes(&claims, local_tunnel_ip);
        let subnets = sort_longest_first(&kept);
        RouteTable { tunnel_ips, subnets }
    }
}

proof fn lemma_first_holding(ss: Seq<(Ipv4Net, u128)>, ip: u32, i: int) -> (k: int)
    requires
        0 <= i,
    ensures
        first_holding(ss, ip, i) matches Some(h) ==> i <= k < ss.len() && ss[k].1 == h
            && ss[k].0.holds(ip) && forall|j: int| i <= j < k ==> !(#[trigger] ss[j]).0.holds(ip),
        first_holding(ss, ip, i) is None ==> forall|j: int| i <= j < ss.len() ==> !(#[trigger] ss[j]).0.holds(ip),
    decreases ss.len() - i,
{
    if i >= ss.len() {
        i
    } else if ss[i].0.holds(ip) {
        i
    } else {
        lemma_first_holding(ss, ip, i + 1)
    }
}

/// How a built table routes an address: a peer's tunnel address goes to
/// that peer; otherwise the address goes along the kept route with the
/// longest prefix that holds it, and nowhere when no kept route holds it.
/// Kept routes are those claimed by a single peer that do not hold our own
/// tunnel address.
pub proof fn lemma_route_choice(
    ts: Map<u32, u128>,
    ss: Seq<(Ipv4Net, u128)>,
    peers: Seq<Peer>,
    now: u64,
    local_hash: u128,
    local_ip: u32,
    ip: u32,
)
    requires
        built_from(ts, ss, peers, now, local_hash, local_ip),
    ensures
        ({
            let cs = claims_of(peers, now, local_hash);
            let r = lookup(ts, ss, ip);
            &&& tunnel_owner(peers, local_hash, ip) matches Some(h) ==> r == Some(h)
            &&& tunnel_owner(peers, local_hash, ip) is None ==> match r {
                Some(h) => exists|n: Ipv4Net|
                    #![trigger kept_route(cs, n, h, local_ip)]
                    kept_route(cs, n, h, local_ip) && n.holds(ip) && forall|n2: Ipv4Net, h2: u128|
                        #[trigger] kept_route(cs, n2, h2, local_ip) && n2.holds(ip) ==> n2.prefix
                            <= n.prefix,
                None => forall|n: Ipv4Net, h: u128| #[trigger] kept_route(cs, n, h, local_ip) ==> !n.holds(ip),
            }
        }),
{
    let cs = claims_of(peers, now, local_hash);
    assert(tunnel_lookup(ts, ip) == tunnel_owner(peers, local_hash, ip));
    if tunnel_owner(peers, local_hash, ip) is None {
        let k = lemma_first_holding(ss, ip, 0);
        match first_holding(ss, ip, 0) {
            Some(h) => {
                let n = ss[k].0;
                assert(ss.contains(ss[k]));
                assert(ss[k] == (n, h));
                assert(kept_route(cs, n, h, local_ip));
                assert forall|n2: Ipv4Net, h2: u128|
                    #[trigger] kept_route(cs, n2, h2, local_ip) && n2.holds(ip) implies n2.prefix
                        <= n.prefix by {
                    assert(ss.contains((n2, h2)));
                    let j = choose|j: int| 0 <= j < ss.len() && ss[j] == (n2, h2);
                    if j < k {
                        assert(!ss[j].0.holds(ip));
                    } else if j > k {
                        assert(ss[k].0.prefix >= ss[j].0.prefix);
                    }
                }
            },
            None => {
                assert forall|n: Ipv4Net, h: u128| #[trigger] kept_route(cs, n, h, local_ip) implies !n.holds(ip) by {
                    assert(ss.contains((n, h)));
                    let j = choose|j: int| 0 <= j < ss.len() && ss[j] == (n, h);
                    assert(!ss[j].0.holds(ip));
                }
            },
        }
    }
}

/// Among the routes a built table keeps, those holding an address form a
/// chain: two of the same prefix are the same subnet, with the same owner.
pub proof fn lemma_same_prefix_same_route(
    cs: Seq<(Ipv4Net, u128)>,
    local_ip: u32,
    n1: Ipv4Net,
    h1: u128,
    n2: Ipv4Net,
    h2: u128,
    ip: u32,
)
    requires
        n1.wf(),
        n2.wf(),
        kept_route(cs, n1, h1, local_ip),
        kept_route(cs, n2, h2, local_ip),
        n1.holds(ip),
        n2.holds(ip),
        n1.prefix == n2.prefix,
    ensures
        n1 == n2,
        h1 == h2,
{
    let b = crate::vpn::net::block(n1.prefix);
    assert(b >= 1) by {
        lemma_block_pos(n1.prefix);
    }
    assert(n1.addr as nat / b == n2.addr as nat / b);
    assert(n1.addr as nat % b == 0 && n2.addr as nat % b == 0);
    assert(n1.addr as nat == b * (n1.addr as nat / b)) by (nonlinear_arith)
        requires
            n1.addr as nat % b == 0,
            b >= 1,
    ;
    assert(n2.addr as nat == b * (n2.addr as nat / b)) by (nonlinear_arith)
        requires
            n2.addr as nat % b == 0,
            b >= 1,
    ;
    assert(n1.addr == n2.addr);
}

/// The peer is live at `now` and advertises `net`.
pub open spec fn advertises(p: Peer, now: u64, local_hash: u128, net: Ipv4Net) -> bool {
    live(p, now, local_hash) && p.routes@.contains(net)
}

/// A claim of `net` by `owner` is listed exactly when a live peer with that
/// hash advertises it.
proof fn lemma_claims_member(peers: Seq<Peer>, now: u64, local_hash: u128, n: Ipv4Net, h: u128)
    ensures
        claims_of(peers, now, local_hash).contains((n, h)) <==> exists|i: int|
            0 <= i < peers.len() && #[trigger] advertises(peers[i], now, local_hash, n)
                && peers[i].hash == h,
    decreases peers.len(),
{
    if peers.len() > 0 {
        let d = peers.drop_last();
        let last = peers.len() - 1;
        lemma_claims_member(d, now, local_hash, n, h);
        let a = claims_of(d, now, local_hash);
        let b = peer_claims(peers[last], now, local_hash);
        let c = claims_of(peers, now, local_hash);
        assert(c == a + b);
        let in_b = live(peers[last], now, local_hash) && peers[last].hash == h
            && peers[last].routes@.contains(n);
        assert(b.contains((n, h)) <==> in_b) by {
            if live(peers[last], now, local_hash) {
                let rs = peers[last].routes@;
                if b.contains((n, h)) {
                    let k = choose|k: int| 0 <= k < b.len() && b[k] == (n, h);
                    assert(b[k] == (rs[k], peers[last].hash));
                    assert(rs.contains(n));
                }
                if in_b {
                    let k = choose|k: int| 0 <= k < rs.len() && rs[k] == n;
                    assert(b[k] == (n, h));
                }
            }
        }
        if c.contains((n, h)) {
            let k = choose|k: int| 0 <= k < c.len() && c[k] == (n, h);
            if k < a.len() {
                assert(a[k] == (n, h));
                let i = choose|i: int|
                    0 <= i < d.len() && #[trigger] advertises(d[i], now, local_hash, n) && d[i].hash
                        == h;
                assert(d[i] == peers[i]);
                assert(advertises(peers[i], now, local_hash, n));
            } else {
                assert(b[k - a.len()] == (n, h));
                assert(advertises(peers[last], now, local_hash, n));
            }
        }
        if exists|i: int|
            0 <= i < peers.len() && #[trigger] advertises(peers[i], now, local_hash, n)
                && peers[i].hash == h {
            let i = choose|i: int|
                0 <= i < peers.len() && #[trigger] advertises(peers[i], now, local_hash, n)
                    && peers[i].hash == h;
            if i < last {
                assert(d[i] == peers[i]);
                assert(advertises(d[i], now, local_hash, n));
                let k = choose|k: int| 0 <= k < a.len() && a[k] == (n, h);
                assert(c[k] == (n, h));
            } else {
                let k = choose|k: int| 0 <= k < b.len() && b[k] == (n, h);
                assert(c[a.len() + k] == (n, h));
            }
        }
    }
}

/// The first claim of `net` from `i` on, if any, is a listed claim.
proof fn lemma_first_owner(cs: Seq<(Ipv4Net, u128)>, n: Ipv4Net, i: int)
    requires
        0 <= i,
    ensures
        first_owner_from(cs, n, i) matches Some(h) ==> cs.contains((n, h)),
        first_owner_from(cs, n, i) is None ==> forall|k: int| i <= k < cs.len() ==> (#[trigger] cs[k]).0 != n,
    decreases cs.len() - i,
{
    if i < cs.len() {
        if cs[i].0 == n {
            assert(cs[i] == (n, cs[i].1));
        } else {
            lemma_first_owner(cs, n, i + 1);
        }
    }
}

/// The last peer other than us with a tunnel address owns it.
proof fn lemma_tunnel_owner_last(peers: Seq<Peer>, local_hash: u128, i: int)
    requires
        0 <= i < peers.len(),
        peers[i].hash != local_hash,
        forall|j: int|
            i < j < peers.len() ==> (#[trigger] peers[j]).hash == local_hash || peers[j].tunnel_ip
                != peers[i].tunnel_ip,
    ensures
        tunnel_owner(peers, local_hash, peers[i].tunnel_ip) == Some(peers[i].hash),
    decreases peers.len(),
{
    if i < peers.len() - 1 {
        let d = peers.drop_last();
        assert(d[i] == peers[i]);
        assert forall|j: int| i < j < d.len() implies (#[trigger] d[j]).hash == local_hash
            || d[j].tunnel_ip != d[i].tunnel_ip by {
            assert(d[j] == peers[j]);
        }
        lemma_tunnel_owner_last(d, local_hash, i);
    }
}

/// The table's view of a subnet, in terms of the peers: a live peer with
/// hash `h` advertises `n` and every live peer advertising it has hash `h`.
pub open spec fn sole_owner(peers: Seq<Peer>, now: u64, local_hash: u128, n: Ipv4Net, h: u128) -> bool {
    &&& exists|i: int|
        0 <= i < peers.len() && #[trigger] advertises(peers[i], now, local_hash, n) && peers[i].hash
            == h
    &&& forall|j: int|
        0 <= j < peers.len() && #[trigger] advertises(peers[j], now, local_hash, n) ==> peers[j].hash
            == h
}

proof fn lemma_kept_is_sole(peers: Seq<Peer>, now: u64, local_hash: u128, local_ip: u32, n: Ipv4Net, h: u128)
    requires
        kept_route(claims_of(peers, now, local_hash), n, h, local_ip),
    ensures
        sole_owner(peers, now, local_hash, n, h),
{
    let cs = claims_of(peers, now, local_hash);
    lemma_first_owner(cs, n, 0);
    lemma_claims_member(peers, now, local_hash, n, h);
    let a = choose|a: int| 0 <= a < cs.len() && cs[a] == (n, h);
    assert forall|j: int|
        0 <= j < peers.len() && #[trigger] advertises(peers[j], now, local_hash, n) implies peers[j].hash
        == h by {
        let g = peers[j].hash;
        lemma_claims_member(peers, now, local_hash, n, g);
        let b = choose|b: int| 0 <= b < cs.len() && cs[b] == (n, g);
        if g != h {
            assert(cs[a].0 == n && cs[b].0 == n && cs[a].1 != cs[b].1);
            assert(disputed(cs, n));
        }
    }
}

proof fn lemma_sole_is_kept(peers: Seq<Peer>, now: u64, local_hash: u128, local_ip: u32, n: Ipv4Net, h: u128)
    requires
        sole_owner(peers, now, local_hash, n, h),
        !n.holds(local_ip),
    ensures
        kept_route(claims_of(peers, now, local_hash), n, h, local_ip),
{
    let cs = claims_of(peers, now, local_hash);
    lemma_claims_member(peers, now, local_hash, n, h);
    lemma_first_owner(cs, n, 0);
    let k = choose|k: int| 0 <= k < cs.len() && cs[k] == (n, h);
    assert(cs[k].0 == n);
    match first_owner_from(cs, n, 0) {
        Some(f) => {
            lemma_claims_member(peers, now, local_hash, n, f);
            let j = choose|j: int|
                0 <= j < peers.len() && #[trigger] advertises(peers[j], now, local_hash, n)
                    && peers[j].hash == f;
        },
        None => {},
    }
    assert(!disputed(cs, n)) by {
        if disputed(cs, n) {
            let (a, b) = choose|a: int, b: int|
                0 <= a < cs.len() && 0 <= b < cs.len() && #[trigger] cs[a].0 == n
                    && #[trigger] cs[b].0 == n && cs[a].1 != cs[b].1;
            assert(cs[a] == (n, cs[a].1));
            assert(cs[b] == (n, cs[b].1));
            lemma_claims_member(peers, now, local_hash, n, cs[a].1);
            lemma_claims_member(peers, now, local_hash, n, cs[b].1);
            let ja = choose|j: int|
                0 <= j < peers.len() && #[trigger] advertises(peers[j], now, local_hash, n)
                    && peers[j].hash == cs[a].1;
            let jb = choose|j: int|
                0 <= j < peers.len() && #[trigger] advertises(peers[j], now, local_hash, n)
                    && peers[j].hash == cs[b].1;
        }
    }
}

/// What a built table holds, in terms of the peers: its subnets are sorted
/// by prefix length, longest first; it routes `net` to `owner` exactly when
/// a live peer other than us with hash `owner` advertises `net`, no live peer
/// with another hash advertises it, and it does not hold our own tunnel
/// address; and each peer other than us is found at its tunnel address
/// unless a later peer other than us has the same address.
pub proof fn lemma_built_table(
    ts: Map<u32, u128>,
    ss: Seq<(Ipv4Net, u128)>,
    peers: Seq<Peer>,
    now: u64,
    local_hash: u128,
    local_ip: u32,
)
    requires
        built_from(ts, ss, peers, now, local_hash, local_ip),
    ensures
        forall|i: int, j: int| 0 <= i < j < ss.len() ==> #[trigger] ss[i].0.prefix >= #[trigger] ss[j].0.prefix,
        forall|n: Ipv4Net, h: u128|
            #[trigger] ss.contains((n, h)) <==> sole_owner(peers, now, local_hash, n, h) && !n.holds(local_ip),
        forall|i: int|
            0 <= i < peers.len() && (#[trigger] peers[i]).hash != local_hash && (forall|j: int|
                i < j < peers.len() ==> (#[trigger] peers[j]).hash == local_hash
                    || peers[j].tunnel_ip != peers[i].tunnel_ip) ==> tunnel_lookup(
                ts,
                peers[i].tunnel_ip,
            ) == Some(peers[i].hash),
{
    assert forall|n: Ipv4Net, h: u128|
        #[trigger] ss.contains((n, h)) <==> sole_owner(peers, now, local_hash, n, h) && !n.holds(local_ip) by {
        if ss.contains((n, h)) {
            lemma_kept_is_sole(peers, now, local_hash, local_ip, n, h);
        } else if sole_owner(peers, now, local_hash, n, h) && !n.holds(local_ip) {
            lemma_sole_is_kept(peers, now, local_hash, local_ip, n, h);
        }
    }
    assert forall|i: int|
        0 <= i < peers.len() && (#[trigger] peers[i]).hash != local_hash && (forall|j: int|
            i < j < peers.len() ==> (#[trigger] peers[j]).hash == local_hash || peers[j].tunnel_ip
                != peers[i].tunnel_ip) implies tunnel_lookup(ts, peers[i].tunnel_ip) == Some(
        peers[i].hash,
    ) by {
        lemma_tunnel_owner_last(peers, local_hash, i);
    }
}

/// A built table routes a subnet only to a peer other than us that
/// advertises it and whose routes have not expired: its `route_expires_ts`
/// is 0 or later than `now`.  A peer whose routes have expired owns no
/// subnet.
pub proof fn lemma_expired_routes_own_nothing(
    ts: Map<u32, u128>,
    ss: Seq<(Ipv4Net, u128)>,
    peers: Seq<Peer>,
    now: u64,
    local_hash: u128,
    local_ip: u32,
)
    requires
        built_from(ts, ss, peers, now, local_hash, local_ip),
    ensures
        forall|n: Ipv4Net, h: u128|
            #[trigger] ss.contains((n, h)) ==> h != local_hash && exists|i: int|
                0 <= i < peers.len() && (#[trigger] peers[i]).hash == h && (peers[i].route_expires_ts
                    == 0 || peers[i].route_expires_ts > now) && peers[i].routes@.contains(n),
        forall|n: Ipv4Net, h: u128|
            (forall|i: int|
                0 <= i < peers.len() && (#[trigger] peers[i]).hash == h ==> peers[i].route_expires_ts
                    != 0 && peers[i].route_expires_ts <= now) ==> !#[trigger] ss.contains((n, h)),
{
    lemma_built_table(ts, ss, peers, now, local_hash, local_ip);
    assert forall|n: Ipv4Net, h: u128| #[trigger] ss.contains((n, h)) implies h != local_hash
        && exists|i: int|
        0 <= i < peers.len() && (#[trigger] peers[i]).hash == h && (peers[i].route_expires_ts == 0
            || peers[i].route_expires_ts > now) && peers[i].routes@.contains(n) by {
        assert(sole_owner(peers, now, local_hash, n, h));
        let i = choose|i: int|
            0 <= i < peers.len() && #[trigger] advertises(peers[i], now, local_hash, n) && peers[i].hash
                == h;
        assert(live(peers[i], now, local_hash));
    }
}

proof fn lemma_block_pos(p: u8)
    ensures
        crate::vpn::net::block(p) >= 1,
{
    lemma_two_to_pos_r((32 - p) as nat);
}

proof fn lemma_two_to_pos_r(k: nat)
    ensures
        crate::vpn::net::two_to(k) >= 1,
    decreases k,
{
    if k > 0 {
        lemma_two_to_pos_r((k - 1) as nat);
    }
}

/// The table in use; a new table replaces it whole.
pub struct Router {
    table: RouteTable,
}

impl Router {
    /// A router with an empty table.
    pub fn new() -> (r: Self)
        ensures
            r.current().tunnels() == Map::<u32, u128>::empty(),
            r.current().subnet_seq().len() == 0,
    {
        Router { table: RouteTable::new() }
    }

    /// The table in use.
    pub closed spec fn current(&self) -> RouteTable {
        self.table
    }

    /// The table in use.
    pub fn snapshot(&self) -> (t: &RouteTable)
        ensures
            *t == self.current(),
    {
        &self.table
    }

    /// Puts `next` in use.
    pub fn swap(&mut self, next: RouteTable)
        ensures
            final(self).current() == next,
    {
        self.table = next;
    }
}

} // verus!
