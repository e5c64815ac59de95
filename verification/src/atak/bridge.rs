//! The decisions of the ATAK bridge: which multicast channels are bridged,
//! which mesh peers are linked, which payloads are forwarded, and what a
//! diagnostics control message received over the mesh does.
//!
//! Mesh destinations are identified by their 16-byte address hash, held as a
//! `u128`.

use vstd::prelude::*;
use vstd::utf8::encode_utf8;

use crate::atak::cot::{
    after_record, CotEvent, CotParseError, LocationRecord, LocationState, PacketSource,
};
use crate::atak::diagnostics::{
    applied, command_text, lemma_apply_once_idempotent, lemma_parse_encode,
    lemma_parsed_command_valid, parse_command_bytes, recorded, DiagnosticAction, DiagnosticCommand,
    DiagnosticCommandError, DiagnosticModel, DiagnosticRecord, DiagnosticState,
};

verus! {

/// One ATAK multicast channel.
#[derive(Debug, Clone, Copy, PartialEq, Eq)]
pub struct AtakChannel {
    pub name: &'static str,
    /// The multicast group, as a 32-bit IPv4 address.
    pub group: u32,
    pub port: u16,
}

/// The channels bridged over the mesh: CoT on 239.2.3.1:6969 and GeoChat on
/// 224.10.10.1:17012.
pub fn atak_channels() -> (r: Vec<AtakChannel>)
    ensures
        r.len() == 2,
        r@[0].name@ == "cot"@ && r@[0].group == 0xEF02_0301 && r@[0].port == 6969,
        r@[1].name@ == "geochat"@ && r@[1].group == 0xE00A_0A01 && r@[1].port == 17012,
{
    let mut v: Vec<AtakChannel> = Vec::new();
    v.push(AtakChannel { name: "cot", group: 0xEF02_0301, port: 6969 });
    v.push(AtakChannel { name: "geochat", group: 0xE00A_0A01, port: 17012 });
    v
}

/// The announce data that marks a channel's destination: its port, big
/// endian.
pub fn port_tag(port: u16) -> (r: Vec<u8>)
    ensures
        r@ == seq![(port / 256) as u8, (port % 256) as u8],
{
    let mut v: Vec<u8> = Vec::new();
    v.push((port / 256) as u8);
    v.push((port % 256) as u8);
    v
}

/// The announce data that marks the diagnostics control destination.
pub fn diagnostics_port_tag() -> (r: Vec<u8>)
    ensures
        r@ == encode_utf8("atak-diag-control-v1"@),
{
    let s = "atak-diag-control-v1";
    vstd::slice::slice_to_vec(s.as_bytes())
}

// ---------------------------------------------------------------------------
// Linked peers
// ---------------------------------------------------------------------------

/// The mesh peers this bridge has linked to.
pub struct PeerSet {
    peers: Vec<u128>,
}

impl PeerSet {
    /// The linked peers.
    pub closed spec fn view(&self) -> Set<u128> {
        Set::new(|p: u128| self.peers@.contains(p))
    }

    /// No peer is listed twice.
    pub closed spec fn wf(&self) -> bool {
        self.peers@.no_duplicates()
    }

    /// No peers.
    pub fn new() -> (s: Self)
        ensures
            s.wf(),
            s.view() == Set::<u128>::empty(),
    {
        let s = PeerSet { peers: Vec::new() };
        assert(s.view() =~= Set::<u128>::empty());
        s
    }

    /// Whether `peer` is linked.
    pub fn contains(&self, peer: u128) -> (r: bool)
        ensures
            r == self.view().contains(peer),
    {
        let mut i: usize = 0;
        while i < self.peers.len()
            invariant
                i <= self.peers.len(),
                forall|j: int| 0 <= j < i ==> self.peers@[j] != peer,
            decreases self.peers.len() - i,
        {
            if self.peers[i] == peer {
                assert(self.peers@.contains(peer));
                return true;
            }
            i += 1;
        }
        false
    }

    /// Adds `peer`.
    pub fn insert(&mut self, peer: u128)
        requires
            old(self).wf(),
        ensures
            final(self).wf(),
            final(self).view() == old(self).view().insert(peer),
    {
        if !self.contains(peer) {
            let ghost before = self.peers@;
            self.peers.push(peer);
            assert(self.peers@ == before.push(peer));
            assert forall|x: u128| self.peers@.contains(x) <==> before.contains(x) || x == peer by {
                if self.peers@.contains(x) {
                    let j = choose|j: int| 0 <= j < self.peers@.len() && self.peers@[j] == x;
                    if j < before.len() {
                        assert(before[j] == x);
                    }
                }
                if before.contains(x) {
                    let j = choose|j: int| 0 <= j < before.len() && before[j] == x;
                    assert(self.peers@[j] == x);
                }
                if x == peer {
                    assert(self.peers@[before.len() as int] == x);
                }
            }
        }
        assert(self.view() =~= old(self).view().insert(peer));
    }

    /// Removes `peer`.
    pub fn remove(&mut self, peer: u128)
        requires
            old(self).wf(),
        ensures
            final(self).wf(),
            final(self).view() == old(self).view().remove(peer),
    {
        let ghost before = self.peers@;
        let mut kept: Vec<u128> = Vec::new();
        let mut i: usize = 0;
        while i < self.peers.len()
            invariant
                i <= self.peers.len(),
                self.peers@ == before,
                before.no_duplicates(),
                kept@.no_duplicates(),
                forall|x: u128|
                    kept@.contains(x) <==> (before.take(i as int).contains(x) && x != peer),
            decreases self.peers.len() - i,
        {
            let x = self.peers[i];
            let ghost k0 = kept@;
            let ghost t0 = before.take(i as int);
            let ghost t1 = before.take(i + 1);
            assert forall|y: u128| t1.contains(y) <==> (t0.contains(y) || y == x) by {
                if t1.contains(y) {
                    let j = choose|j: int| 0 <= j < t1.len() && t1[j] == y;
                    if j < i {
                        assert(t0[j] == y);
                    }
                }
                if t0.contains(y) {
                    let j = choose|j: int| 0 <= j < t0.len() && t0[j] == y;
                    assert(t1[j] == y);
                }
                if y == x {
                    assert(t1[i as int] == y);
                }
            }
            if x != peer {
                assert(!k0.contains(x)) by {
                    if k0.contains(x) {
                        assert(t0.contains(x));
                        let j = choose|j: int| 0 <= j < t0.len() && t0[j] == x;
                        assert(before[j] == before[i as int]);
                    }
                }
                kept.push(x);
                assert forall|y: u128| kept@.contains(y) <==> (k0.contains(y) || y == x) by {
                    if kept@.contains(y) {
                        let j = choose|j: int| 0 <= j < kept@.len() && kept@[j] == y;
                        if j < k0.len() {
                            assert(k0[j] == y);
                        }
                    }
                    if k0.contains(y) {
                        let j = choose|j: int| 0 <= j < k0.len() && k0[j] == y;
                        assert(kept@[j] == y);
                    }
                    if y == x {
                        assert(kept@[k0.len() as int] == y);
                    }
                }
            }
            assert forall|y: u128| kept@.contains(y) <==> (t1.contains(y) && y != peer) by {
                assert(k0.contains(y) <==> (t0.contains(y) && y != peer));
                assert(t1.contains(y) <==> (t0.contains(y) || y == x));
                if x != peer {
                    assert(kept@.contains(y) <==> (k0.contains(y) || y == x));
                } else {
                    assert(kept@ == k0);
                }
            }
            i += 1;
        }
        assert(before.take(before.len() as int) =~= before);
        self.peers = kept;
        assert(self.view() =~= old(self).view().remove(peer));
    }
}

/// What an announce heard on the mesh leads to.
pub open spec fn links_to(app_data: Seq<u8>, tag: Seq<u8>, peer: u128, own: u128) -> bool {
    app_data == tag && peer != own
}

/// Handles an announce from `peer`: a destination announcing the same tag,
/// other than our own (`own`), is tracked and should be linked to.
pub fn on_announce(peers: &mut PeerSet, app_data: &[u8], tag: &[u8], peer: u128, own: u128) -> (r:
    bool)
    requires
        old(peers).wf(),
    ensures
        final(peers).wf(),
        r == links_to(app_data@, tag@, peer, own),
        r ==> final(peers).view() == old(peers).view().insert(peer),
        !r ==> final(peers).view() == old(peers).view(),
{
    if !bytes_eq(app_data, tag) || peer == own {
        return false;
    }
    peers.insert(peer);
    true
}

fn bytes_eq(a: &[u8], b: &[u8]) -> (r: bool)
    ensures
        r == (a@ == b@),
{
    if a.len() != b.len() {
        return false;
    }
    let mut i: usize = 0;
    while i < a.len()
        invariant
            i <= a.len() == b.len(),
            forall|j: int| 0 <= j < i ==> a@[j] == b@[j],
        decreases a.len() - i,
    {
        if a[i] != b[i] {
            return false;
        }
        i += 1;
    }
    assert(a@ =~= b@);
    true
}

/// A link event from the mesh.
#[derive(Debug, Clone, Copy, PartialEq, Eq, Structural)]
pub enum LinkEventKind {
    Activated,
    Closed,
    Data,
    Proof,
}

/// What to do with a link event.
#[derive(Debug, Clone, Copy, PartialEq, Eq, Structural)]
pub enum LinkAction {
    /// Not a peer of this bridge, or nothing to do.
    Ignore,
    /// The link is up.
    Activated,
    /// The link closed; the peer is no longer tracked.
    Closed,
    /// The payload is to be handled.
    Deliver,
}

/// Handles a link event from `peer`: events of untracked peers are ignored,
/// a closed link forgets its peer, and data is delivered.
pub fn on_link_event(peers: &mut PeerSet, peer: u128, kind: LinkEventKind) -> (r: LinkAction)
    requires
        old(peers).wf(),
    ensures
        final(peers).wf(),
        !old(peers).view().contains(peer) ==> r == LinkAction::Ignore && final(peers).view()
            == old(peers).view(),
        old(peers).view().contains(peer) ==> match kind {
            LinkEventKind::Activated => r == LinkAction::Activated && final(peers).view() == old(peers).view(),
            LinkEventKind::Closed => r == LinkAction::Closed && final(peers).view() == old(peers).view().remove(peer),
            LinkEventKind::Data => r == LinkAction::Deliver && final(peers).view() == old(peers).view(),
            LinkEventKind::Proof => r == LinkAction::Ignore && final(peers).view() == old(peers).view(),
        },
{
    if !peers.contains(peer) {
        return LinkAction::Ignore;
    }
    match kind {
        LinkEventKind::Activated => LinkAction::Activated,
        LinkEventKind::Closed => {
            peers.remove(peer);
            LinkAction::Closed
        },
        LinkEventKind::Data => LinkAction::Deliver,
        LinkEventKind::Proof => LinkAction::Ignore,
    }
}

// ---------------------------------------------------------------------------
// Payloads
// ---------------------------------------------------------------------------

/// What became of one ATAK payload.
pub struct PayloadDecision<P> {
    /// The payload is passed on unchanged.
    pub forward: bool,
    /// The payload was not a valid CoT event.
    pub invalid: bool,
    /// The location recorded from it, if any.
    pub location: Option<LocationRecord<P>>,
    /// It was recorded for diagnostics.
    pub diagnostics_recorded: bool,
}

/// Decides what to do with a payload whose CoT validation gave `parsed`.
/// A valid event is forwarded, recorded for diagnostics when it came from a
/// remote peer, and its location (`location_point`, the decoded point of the
/// event) is recorded; an invalid payload is forwarded only when unvalidated
/// forwarding is allowed.  The payload itself is never changed.
pub fn accept_payload<P: Copy>(
    parsed: &Result<CotEvent, CotParseError>,
    source: PacketSource,
    remote_peer_hash: Option<&str>,
    channel_port: u16,
    location_state: &mut LocationState<P>,
    location_point: Option<P>,
    diagnostic_state: &mut DiagnosticState,
    diagnostic_point: Option<(String, String)>,
    allow_unvalidated_payloads: bool,
    now_ms: u64,
) -> (d: PayloadDecision<P>)
    requires
        old(location_state).wf(),
        old(diagnostic_state).wf(),
    ensures
        final(location_state).wf(),
        final(diagnostic_state).wf(),
        d.forward == (parsed is Ok || allow_unvalidated_payloads),
        d.invalid == parsed is Err,
        final(location_state).max_records() == old(location_state).max_records(),
        final(location_state).retention_ms() == old(location_state).retention_ms(),
        match parsed {
            Err(_) => {
                &&& d.location is None
                &&& !d.diagnostics_recorded
                &&& final(location_state).records() == old(location_state).records()
                &&& final(diagnostic_state).model() == old(diagnostic_state).model()
            },
            Ok(ev) => {
                &&& match remote_peer_hash {
                    None => !d.diagnostics_recorded && final(diagnostic_state).model() == old(diagnostic_state).model(),
                    Some(h) => {
                        &&& (final(diagnostic_state).model(), d.diagnostics_recorded) == recorded(
                            old(diagnostic_state).model(),
                            DiagnosticRecord {
                                remote_peer_hash: final(diagnostic_state).model().records.last().remote_peer_hash,
                                channel_port,
                                uid: ev.uid,
                                callsign: ev.callsign,
                                event_type: ev.event_type,
                                point: diagnostic_point,
                                observed_at_ms: now_ms,
                            },
                            now_ms,
                        )
                        &&& d.diagnostics_recorded ==> final(diagnostic_state).model().records.last().remote_peer_hash@ == h@
                    },
                }
                &&& location_point is None ==> d.location is None && final(location_state).records() == old(location_state).records()
                &&& location_point matches Some(p) ==> (d.location matches Some(rec) && rec.uid
                    == ev.uid && rec.event_type == ev.event_type && rec.how == ev.how
                    && rec.callsign == ev.callsign && rec.point == p && rec.source == source
                    && rec.channel_port == channel_port && rec.updated_at_ms == now_ms && final(location_state).records() == after_record(
                    old(location_state).records(),
                    rec,
                    now_ms,
                    old(location_state).retention_ms(),
                    old(location_state).max_records(),
                ))
            },
        },
{
    match parsed {
        Ok(event) => {
            let diagnostics_recorded = match remote_peer_hash {
                Some(h) => diagnostic_state.record_remote(
                    h,
                    channel_port,
                    event,
                    diagnostic_point,
                    now_ms,
                ),
                None => false,
            };
            let location = location_state.record(source, channel_port, event, location_point, now_ms);
            PayloadDecision { forward: true, invalid: false, location, diagnostics_recorded }
        },
        Err(_) => PayloadDecision {
            forward: allow_unvalidated_payloads,
            invalid: true,
            location: None,
            diagnostics_recorded: false,
        },
    }
}

// ---------------------------------------------------------------------------
// Mesh control
// ---------------------------------------------------------------------------

/// What a diagnostics control message received over the mesh did.
pub enum MeshControlOutcome {
    /// A new command was applied; `relay` is its wire form, to be passed on
    /// once to the other peers.
    Applied { action: DiagnosticAction, relay: Vec<u8> },
    /// The command was applied before and is dropped.
    Duplicate,
    /// The message is not a valid command.
    Invalid(DiagnosticCommandError),
}

/// Handles a diagnostics control message received over the mesh at `now_ms`.
pub fn handle_mesh_control_payload(state: &mut DiagnosticState, payload: &[u8], now_ms: u64) -> (r:
    MeshControlOutcome)
    requires
        old(state).wf(),
    ensures
        final(state).wf(),
        match parse_command_bytes(payload@) {
            Err(e) => r == MeshControlOutcome::Invalid(e) && final(state).model() == old(state).model(),
            Ok((id, a)) => {
                let (m1, fresh) = applied(old(state).model(), id, a, now_ms);
                &&& final(state).model() == m1
                &&& fresh ==> (r matches MeshControlOutcome::Applied { action, relay } && action
                    == a && relay@ == encode_utf8(command_text(id, a)))
                &&& !fresh ==> r is Duplicate
            },
        },
{
    match DiagnosticCommand::parse(payload) {
        Err(e) => MeshControlOutcome::Invalid(e),
        Ok(command) => {
            if state.apply_once(&command, now_ms) {
                MeshControlOutcome::Applied { action: command.action, relay: command.encode() }
            } else {
                MeshControlOutcome::Duplicate
            }
        },
    }
}

/// A relayed control message is applied once per peer: when it arrives
/// again while remembered, it is dropped as a duplicate and relayed no
/// further; and what is relayed reads back as the command received.
pub proof fn lemma_mesh_relay_once(m: DiagnosticModel, payload: Seq<u8>, now: u64)
    requires
        parse_command_bytes(payload) is Ok,
    ensures
        ({
            let (id, a) = parse_command_bytes(payload)->Ok_0;
            let m1 = applied(m, id, a, now).0;
            &&& !applied(m1, id, a, now).1
            &&& parse_command_bytes(encode_utf8(command_text(id, a))) == parse_command_bytes(
                payload,
            )
        }),
{
    let (id, a) = parse_command_bytes(payload)->Ok_0;
    lemma_apply_once_idempotent(m, id, a, now);
    lemma_parsed_command_valid(payload);
    lemma_parse_encode(id, a);
}

} // verus!
