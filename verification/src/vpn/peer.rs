//! VPN peers: what is known of each remote Kaonic and its link, and the
//! registry of peers keyed by destination hash (a `u128`).  Times are whole
//! seconds since the Unix epoch.

use vstd::prelude::*;

use crate::vpn::metrics::Metrics;
use std::collections::HashMap;

use crate::vpn::net::Ipv4Net;

verus! {

/// The state of the link to a peer.
#[derive(Debug, Clone, Copy, PartialEq, Eq, Structural)]
pub enum LinkState {
    Configured,
    Discovered,
    Pending,
    Active,
    Closed,
    Error,
}

/// The name of a link state.
pub open spec fn link_state_text(s: LinkState) -> Seq<char> {
    match s {
        LinkState::Configured => "configured"@,
        LinkState::Discovered => "discovered"@,
        LinkState::Pending => "pending"@,
        LinkState::Active => "active"@,
        LinkState::Closed => "closed"@,
        LinkState::Error => "error"@,
    }
}

impl LinkState {
    /// The name of the state.
    pub fn as_str(self) -> (r: &'static str)
        ensures
            r@ == link_state_text(self),
    {
        match self {
            LinkState::Configured => "configured",
            LinkState::Discovered => "discovered",
            LinkState::Pending => "pending",
            LinkState::Active => "active",
            LinkState::Closed => "closed",
            LinkState::Error => "error",
        }
    }
}

/// A remote VPN peer.
pub struct Peer {
    pub hash: u128,
    pub tunnel_ip: u32,
    pub link_state: LinkState,
    pub routes: Vec<Ipv4Net>,
    pub last_seen_ts: u64,
    /// When the peer's routes stop counting; 0 when they do not expire.
    pub route_expires_ts: u64,
    pub last_tx_ts: u64,
    pub reconnect_attempts: u32,
    /// When the current link request started; 0 when none is pending.
    pub link_attempt_ts: u64,
    /// A link request is being made.
    pub link_request_in_flight: bool,
    /// Earliest time a new link request may start.
    pub reconnect_cooldown_until_ts: u64,
    pub last_error: Option<String>,
    pub metrics: Metrics,
}

impl Peer {
    /// A peer with no routes, counters or errors.
    pub fn new(hash: u128, tunnel_ip: u32, state: LinkState) -> (p: Self)
        ensures
            p.hash == hash,
            p.tunnel_ip == tunnel_ip,
            p.link_state == state,
            p.routes@.len() == 0,
            p.last_seen_ts == 0,
            p.route_expires_ts == 0,
            p.last_tx_ts == 0,
            p.reconnect_attempts == 0,
            p.link_attempt_ts == 0,
            !p.link_request_in_flight,
            p.reconnect_cooldown_until_ts == 0,
            p.last_error is None,
            p.metrics == Metrics::default_spec(),
    {
        Peer {
            hash,
            tunnel_ip,
            link_state: state,
            routes: Vec::new(),
            last_seen_ts: 0,
            route_expires_ts: 0,
            last_tx_ts: 0,
            reconnect_attempts: 0,
            link_attempt_ts: 0,
            link_request_in_flight: false,
            reconnect_cooldown_until_ts: 0,
            last_error: None,
            metrics: Metrics::new(),
        }
    }

    /// Stamps the start of a new link request at `now`.
    pub fn mark_link_attempt(&mut self, now: u64)
        ensures
            *final(self) == (Peer { link_attempt_ts: now, ..*old(self) }),
    {
        self.link_attempt_ts = now;
    }

    /// No link request is pending any more.
    pub fn clear_link_attempt(&mut self)
        ensures
            *final(self) == (Peer { link_attempt_ts: 0, ..*old(self) }),
    {
        self.link_attempt_ts = 0;
    }

    /// Claims the right to make a link request: true only when none is in
    /// flight, and then one is.
    pub fn try_begin_link_request(&mut self) -> (r: bool)
        ensures
            (r, final(self).link_request_in_flight) == claim(old(self).link_request_in_flight),
            *final(self) == (Peer { link_request_in_flight: true, ..*old(self) }),
    {
        if self.link_request_in_flight {
            return false;
        }
        self.link_request_in_flight = true;
        true
    }

    /// Releases the right to make a link request.
    pub fn finish_link_request(&mut self)
        ensures
            *final(self) == (Peer { link_request_in_flight: false, ..*old(self) }),
    {
        self.link_request_in_flight = false;
    }

    /// Whether a link request is in flight.
    pub fn link_request_in_flight(&self) -> (r: bool)
        ensures
            r == self.link_request_in_flight,
    {
        self.link_request_in_flight
    }

    /// Holds off new link requests for `delay_secs` after `now`
    /// (saturating).
    pub fn set_reconnect_cooldown(&mut self, now: u64, delay_secs: u64)
        ensures
            *final(self) == (Peer {
                reconnect_cooldown_until_ts: if now + delay_secs > u64::MAX {
                    u64::MAX
                } else {
                    (now + delay_secs) as u64
                },
                ..*old(self)
            }),
    {
        self.reconnect_cooldown_until_ts = now.saturating_add(delay_secs);
    }

    /// Lifts the hold on link requests.
    pub fn clear_reconnect_cooldown(&mut self)
        ensures
            *final(self) == (Peer { reconnect_cooldown_until_ts: 0, ..*old(self) }),
    {
        self.reconnect_cooldown_until_ts = 0;
    }

    /// The earliest time a new link request may start.
    pub fn reconnect_cooldown_until(&self) -> (r: u64)
        ensures
            r == self.reconnect_cooldown_until_ts,
    {
        self.reconnect_cooldown_until_ts
    }

    /// Sets the link state.
    pub fn set_state(&mut self, state: LinkState)
        ensures
            *final(self) == (Peer { link_state: state, ..*old(self) }),
    {
        self.link_state = state;
    }

    /// The link state.
    pub fn state(&self) -> (r: LinkState)
        ensures
            r == self.link_state,
    {
        self.link_state
    }

    /// The peer was heard from at `now`.
    pub fn mark_seen(&mut self, now: u64)
        ensures
            *final(self) == (Peer { last_seen_ts: now, ..*old(self) }),
    {
        self.last_seen_ts = now;
    }

    /// Something was sent to the peer at `now`.
    pub fn mark_tx(&mut self, now: u64)
        ensures
            *final(self) == (Peer { last_tx_ts: now, ..*old(self) }),
    {
        self.last_tx_ts = now;
    }

    /// Records the last error.
    pub fn set_error(&mut self, message: String)
        ensures
            *final(self) == (Peer { last_error: Some(message), ..*old(self) }),
    {
        self.last_error = Some(message);
    }

    /// Forgets the last error.
    pub fn clear_error(&mut self)
        ensures
            *final(self) == (Peer { last_error: None, ..*old(self) }),
    {
        self.last_error = None;
    }

    /// A copy of the peer's routes.
    pub fn routes_clone(&self) -> (r: Vec<Ipv4Net>)
        ensures
            r@ == self.routes@,
    {
        let mut out: Vec<Ipv4Net> = Vec::new();
        let mut i: usize = 0;
        while i < self.routes.len()
            invariant
                i <= self.routes.len(),
                out@ == self.routes@.take(i as int),
            decreases self.routes.len() - i,
        {
            out.push(self.routes[i]);
            assert(self.routes@.take(i + 1) =~= self.routes@.take(i as int).push(
                self.routes@[i as int],
            ));
            i += 1;
        }
        assert(self.routes@.take(self.routes.len() as int) =~= self.routes@);
        out
    }

    /// Replaces the peer's routes.
    pub fn set_routes(&mut self, routes: Vec<Ipv4Net>)
        ensures
            *final(self) == (Peer { routes, ..*old(self) }),
    {
        self.routes = routes;
    }
}

impl Metrics {
    /// All counters at zero.
    pub open spec fn default_spec() -> Metrics {
        Metrics {
            tx_packets: 0,
            tx_bytes: 0,
            rx_packets: 0,
            rx_bytes: 0,
            drop_packets: 0,
            last_tx_ts: 0,
            last_rx_ts: 0,
            sampler: crate::vpn::metrics::RateSampler {
                last_ts: 0,
                last_tx_bytes: 0,
                last_rx_bytes: 0,
                tx_bps: 0,
                rx_bps: 0,
            },
        }
    }
}

/// Claiming a link request: whether the claim succeeds and whether a
/// request is in flight afterwards.
pub open spec fn claim(in_flight: bool) -> (bool, bool) {
    (!in_flight, true)
}

/// Only one link request is in flight at a time: a second claim before the
/// first is released fails, and a claim after the release succeeds.
pub proof fn lemma_link_request_exclusive(in_flight: bool)
    ensures
        !claim(claim(in_flight).1).0,
        claim(false).0,
{
}

// ---------------------------------------------------------------------------
// Registry
// ---------------------------------------------------------------------------

/// The peers, one per destination hash.
pub struct PeerRegistry {
    peers: HashMap<u128, Peer>,
}

impl PeerRegistry {
    /// The peers by the hash they are stored under.
    pub closed spec fn view(&self) -> Map<u128, Peer> {
        self.peers@
    }

    /// No peers.
    pub fn new() -> (r: Self)
        ensures
            r.view() == Map::<u128, Peer>::empty(),
    {
        broadcast use vstd::std_specs::hash::group_hash_axioms;
        PeerRegistry { peers: HashMap::new() }
    }

    /// The peer stored under `hash`, if any.
    pub fn get(&self, hash: u128) -> (r: Option<&Peer>)
        ensures
            match r {
                Some(p) => self.view().contains_key(hash) && *p == self.view()[hash],
                None => !self.view().contains_key(hash),
            },
    {
        broadcast use vstd::std_specs::hash::group_hash_axioms;
        self.peers.get(&hash)
    }

    /// Stores `peer` under its own hash, replacing the peer stored there.
    pub fn insert(&mut self, peer: Peer)
        ensures
            final(self).view() == old(self).view().insert(peer.hash, peer),
    {
        broadcast use vstd::std_specs::hash::group_hash_axioms;
        let hash = peer.hash;
        self.peers.insert(hash, peer);
    }

    /// The peer stored under `hash`, with `fresh` stored there first when
    /// there was none.
    pub fn get_or_create(&mut self, hash: u128, fresh: Peer) -> (r: &Peer)
        ensures
            old(self).view().contains_key(hash) ==> final(self).view() == old(self).view(),
            !old(self).view().contains_key(hash) ==> final(self).view() == old(self).view().insert(
                hash,
                fresh,
            ),
            final(self).view().contains_key(hash),
            *r == final(self).view()[hash],
    {
        broadcast use vstd::std_specs::hash::group_hash_axioms;
        if !self.peers.contains_key(&hash) {
            self.peers.insert(hash, fresh);
        }
        self.peers.get(&hash).unwrap()
    }

    /// All peers, one entry per stored hash, in no particular order.
    pub fn all(&self) -> (r: Vec<&Peer>)
        ensures
            r.len() == self.view().len(),
            forall|i: int| 0 <= i < r.len() ==> self.view().values().contains(*#[trigger] r@[i]),
            forall|p: Peer| #[trigger] self.view().values().contains(p) ==> exists|i: int|
                0 <= i < r.len() && *r@[i] == p,
    {
        broadcast use vstd::std_specs::hash::group_hash_axioms;
        let mut out: Vec<&Peer> = Vec::new();
        for p in it: self.peers.values()
            invariant
                out.len() == it.index(),
                forall|i: int| 0 <= i < out.len() ==> out@[i] == it.seq()[i],
                it.seq().unref().to_set() == self.view().values(),
                forall|i: int|
                    0 <= i < out.len() ==> self.view().values().contains(*#[trigger] out@[i]),
        {
            proof {
                let s = it.seq().unref();
                assert(s[it.index() as int] == *p);
                assert(s.to_set().contains(s[it.index() as int]));
            }
            out.push(p);
        }
        out
    }

    /// Forgets the peer stored under `hash`.
    pub fn remove(&mut self, hash: u128)
        ensures
            final(self).view() == old(self).view().remove(hash),
    {
        broadcast use vstd::std_specs::hash::group_hash_axioms;
        self.peers.remove(&hash);
    }
}

} // verus!
