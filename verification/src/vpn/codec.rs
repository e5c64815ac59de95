//! Framing of the VPN's messages.
//!
//! An announce is `kvpn`, a version byte (2) and a MessagePack body; a
//! control frame inside a link is the byte `0xFB` and a MessagePack body;
//! any other link payload is an IP packet (whose first byte is `0x4X` or
//! `0x6X`).  Routes travel as (address, prefix) pairs.

use vstd::prelude::*;

use crate::text::{chars_to_string, decimal, extend_str, push_decimal};
use crate::vpn::net::{net_valid, Ipv4Net};

verus! {

/// The announce version understood.
pub const ANNOUNCE_VERSION: u8 = 2;

/// The first byte of a control frame.
pub const CTRL_TAG: u8 = 0xFB;

/// The magic bytes `kvpn` that open an announce.
pub open spec fn announce_magic() -> Seq<u8> {
    seq![0x6bu8, 0x76u8, 0x70u8, 0x6eu8]
}

/// Why a message could not be read or written.
#[derive(Debug, Clone, PartialEq, Eq)]
pub enum CodecError {
    Short,
    BadMagic,
    Version(u8),
    Decode(String),
    Encode(String),
    Prefix(u8),
}

/// The description of each error.
pub open spec fn codec_error_text(e: CodecError) -> Seq<char> {
    match e {
        CodecError::Short => "payload too short"@,
        CodecError::BadMagic => "bad magic"@,
        CodecError::Version(v) => "unsupported version "@ + decimal(v as nat),
        CodecError::Decode(m) => "msgpack decode: "@ + m@,
        CodecError::Encode(m) => "msgpack encode: "@ + m@,
        CodecError::Prefix(p) => "invalid subnet prefix "@ + decimal(p as nat),
    }
}

impl CodecError {
    /// The human-readable description of the error.
    pub fn message(&self) -> (r: String)
        ensures
            r@ == codec_error_text(*self),
    {
        let mut out: Vec<char> = Vec::new();
        match self {
            CodecError::Short => extend_str(&mut out, "payload too short"),
            CodecError::BadMagic => extend_str(&mut out, "bad magic"),
            CodecError::Version(v) => {
                extend_str(&mut out, "unsupported version ");
                push_decimal(&mut out, *v as u64);
            },
            CodecError::Decode(m) => {
                extend_str(&mut out, "msgpack decode: ");
                extend_str(&mut out, m.as_str());
            },
            CodecError::Encode(m) => {
                extend_str(&mut out, "msgpack encode: ");
                extend_str(&mut out, m.as_str());
            },
            CodecError::Prefix(p) => {
                extend_str(&mut out, "invalid subnet prefix ");
                push_decimal(&mut out, *p as u64);
            },
        }
        chars_to_string(&out)
    }
}

/// A route as it travels: (first address, prefix).
#[derive(Debug, Clone, Copy, PartialEq, Eq, Structural)]
pub struct Subnet(pub u32, pub u8);

impl Subnet {
    /// The wire form of a network.
    pub fn from_cidr(cidr: Ipv4Net) -> (r: Self)
        ensures
            r == Subnet(cidr.addr, cidr.prefix),
    {
        Subnet(cidr.first_address(), cidr.network_length())
    }

    /// The network a wire route names; its prefix must be at most 32 and
    /// its address must have no host bits.
    pub fn to_cidr(&self) -> (r: Result<Ipv4Net, CodecError>)
        ensures
            r == subnet_net(*self),
    {
        if self.1 > 32 {
            return Err(CodecError::Prefix(self.1));
        }
        match Ipv4Net::new(self.0, self.1) {
            Some(n) => Ok(n),
            None => Err(CodecError::Prefix(self.1)),
        }
    }
}

/// The network a wire route names, or the error of its prefix.
pub open spec fn subnet_net(s: Subnet) -> Result<Ipv4Net, CodecError> {
    if net_valid(s.0, s.1) {
        Ok(Ipv4Net { addr: s.0, prefix: s.1 })
    } else {
        Err(CodecError::Prefix(s.1))
    }
}

/// A well-formed network reads back from its wire form unchanged.
pub proof fn lemma_subnet_round_trip(n: Ipv4Net)
    requires
        n.wf(),
    ensures
        subnet_net(Subnet(n.addr, n.prefix)) == Ok::<Ipv4Net, CodecError>(n),
{
}

/// The routes of an announce or control body, or the error of the first
/// that is not a network.
pub fn routes_from_subnets(subnets: &Vec<Subnet>) -> (r: Result<Vec<Ipv4Net>, CodecError>)
    ensures
        match r {
            Ok(v) => v.len() == subnets.len() && forall|i: int|
                #![trigger v@[i]]
                #![trigger subnets@[i]]
                0 <= i < v.len() ==> net_valid(subnets@[i].0, subnets@[i].1) && v@[i] == (Ipv4Net {
                    addr: subnets@[i].0,
                    prefix: subnets@[i].1,
                }),
            Err(e) => exists|i: int|
                0 <= i < subnets.len() && !net_valid(subnets@[i].0, subnets@[i].1) && e
                    == CodecError::Prefix(subnets@[i].1) && forall|j: int|
                    0 <= j < i ==> net_valid(#[trigger] subnets@[j].0, subnets@[j].1),
        },
{
    let mut out: Vec<Ipv4Net> = Vec::new();
    let mut i: usize = 0;
    while i < subnets.len()
        invariant
            i <= subnets.len(),
            out.len() == i,
            forall|k: int|
                #![trigger out@[k]]
                #![trigger subnets@[k]]
                0 <= k < i ==> net_valid(subnets@[k].0, subnets@[k].1) && out@[k] == (Ipv4Net {
                    addr: subnets@[k].0,
                    prefix: subnets@[k].1,
                }),
        decreases subnets.len() - i,
    {
        match subnets[i].to_cidr() {
            Ok(n) => {
                assert(net_valid(subnets@[i as int].0, subnets@[i as int].1));
                assert(n == (Ipv4Net { addr: subnets@[i as int].0, prefix: subnets@[i as int].1 }));
                let ghost before = out@;
                out.push(n);
                assert forall|k: int|
                    #![trigger out@[k]]
                    #![trigger subnets@[k]]
                    0 <= k < i + 1 implies net_valid(subnets@[k].0, subnets@[k].1) && out@[k] == (
                    Ipv4Net { addr: subnets@[k].0, prefix: subnets@[k].1 }) by {
                    if k < i {
                        assert(out@[k] == before[k]);
                    }
                }
            },
            Err(e) => {
                assert forall|j: int| 0 <= j < i implies net_valid(#[trigger] subnets@[j].0, subnets@[j].1) by {
                    assert(out@[j] == (Ipv4Net { addr: subnets@[j].0, prefix: subnets@[j].1 }));
                }
                return Err(e);
            },
        }
        i += 1;
    }
    Ok(out)
}

/// The wire form of routes.
pub fn subnets_from_routes(routes: &Vec<Ipv4Net>) -> (r: Vec<Subnet>)
    ensures
        r.len() == routes.len(),
        forall|i: int| 0 <= i < r.len() ==> #[trigger] r@[i] == Subnet(routes@[i].addr, routes@[i].prefix),
{
    let mut out: Vec<Subnet> = Vec::new();
    let mut i: usize = 0;
    while i < routes.len()
        invariant
            i <= routes.len(),
            out.len() == i,
            forall|k: int| 0 <= k < i ==> #[trigger] out@[k] == Subnet(routes@[k].addr, routes@[k].prefix),
        decreases routes.len() - i,
    {
        out.push(Subnet::from_cidr(routes[i]));
        i += 1;
    }
    out
}

/// The body of an announce: the routes its sender exports.  Announces are
/// meant to stay small, so the list is often empty and routes travel in
/// link messages instead.
#[derive(Debug, Clone, Default)]
pub struct Announce {
    pub routes: Vec<Subnet>,
}

/// A control message inside a link.
#[derive(Debug, Clone)]
pub enum Ctrl {
    /// Sent once by each side when a link comes up, with the sender's
    /// exported routes.
    Hello { routes: Vec<Subnet> },
    /// A refresh of the sender's routes.
    Routes { routes: Vec<Subnet> },
    /// A heartbeat.
    Ping,
}

impl Announce {
    /// The announce that carries `routes`.
    pub fn from_routes(routes: &Vec<Ipv4Net>) -> (r: Self)
        ensures
            r.routes.len() == routes.len(),
            forall|i: int|
                0 <= i < routes.len() ==> #[trigger] r.routes@[i] == Subnet(
                    routes@[i].addr,
                    routes@[i].prefix,
                ),
    {
        Announce { routes: subnets_from_routes(routes) }
    }
}

impl Ctrl {
    /// The greeting that carries `routes`.
    pub fn hello(routes: &Vec<Ipv4Net>) -> (r: Self)
        ensures
            r matches Ctrl::Hello { routes: s } && s.len() == routes.len() && forall|i: int|
                0 <= i < routes.len() ==> #[trigger] s@[i] == Subnet(routes@[i].addr, routes@[i].prefix),
    {
        Ctrl::Hello { routes: subnets_from_routes(routes) }
    }

    /// The refresh that carries `routes`.
    pub fn routes_update(routes: &Vec<Ipv4Net>) -> (r: Self)
        ensures
            r matches Ctrl::Routes { routes: s } && s.len() == routes.len() && forall|i: int|
                0 <= i < routes.len() ==> #[trigger] s@[i] == Subnet(routes@[i].addr, routes@[i].prefix),
    {
        Ctrl::Routes { routes: subnets_from_routes(routes) }
    }
}

/// The bytes that open every announce: the magic and the version.
pub fn announce_header() -> (r: Vec<u8>)
    ensures
        r@ == announce_magic().push(ANNOUNCE_VERSION),
{
    let mut v: Vec<u8> = Vec::new();
    v.push(0x6b);
    v.push(0x76);
    v.push(0x70);
    v.push(0x6e);
    v.push(ANNOUNCE_VERSION);
    assert(v@ =~= announce_magic().push(ANNOUNCE_VERSION));
    v
}

/// The data is an announce: at least five bytes, opening with the magic.
pub open spec fn announce_like(data: Seq<u8>) -> bool {
    data.len() >= 5 && data.take(4) == announce_magic()
}

/// Whether the data is an announce.
pub fn is_announce(data: &[u8]) -> (r: bool)
    ensures
        r == announce_like(data@),
{
    let r = data.len() >= 5 && data[0] == 0x6b && data[1] == 0x76 && data[2] == 0x70 && data[3]
        == 0x6e;
    proof {
        if data.len() >= 5 {
            if r {
                assert(data@.take(4) =~= announce_magic());
            } else {
                assert(data@.take(4) != announce_magic()) by {
                    if data@.take(4) == announce_magic() {
                        assert(data@.take(4)[0] == data@[0]);
                        assert(data@.take(4)[1] == data@[1]);
                        assert(data@.take(4)[2] == data@[2]);
                        assert(data@.take(4)[3] == data@[3]);
                    }
                }
            }
        }
    }
    r
}

/// Checks the announce header and gives where the body starts: too short
/// below five bytes, then the magic, then the version.
pub fn check_announce_header(data: &[u8]) -> (r: Result<usize, CodecError>)
    ensures
        data@.len() < 5 ==> r == Err::<usize, CodecError>(CodecError::Short),
        data@.len() >= 5 && data@.take(4) != announce_magic() ==> r == Err::<usize, CodecError>(
            CodecError::BadMagic,
        ),
        announce_like(data@) && data@[4] != ANNOUNCE_VERSION ==> r == Err::<usize, CodecError>(
            CodecError::Version(data@[4]),
        ),
        announce_like(data@) && data@[4] == ANNOUNCE_VERSION ==> r == Ok::<usize, CodecError>(5),
{
    if data.len() < 5 {
        return Err(CodecError::Short);
    }
    if !is_announce(data) {
        return Err(CodecError::BadMagic);
    }
    let version = data[4];
    if version != ANNOUNCE_VERSION {
        return Err(CodecError::Version(version));
    }
    Ok(5)
}

/// Whether a link payload is a control frame: its first byte is `0xFB`.
pub fn is_ctrl(data: &[u8]) -> (r: bool)
    ensures
        r == (data@.len() > 0 && data@[0] == CTRL_TAG),
{
    data.len() > 0 && data[0] == CTRL_TAG
}

/// A control frame around a MessagePack body.
pub fn frame_ctrl(body: &[u8]) -> (r: Vec<u8>)
    ensures
        r@ == seq![CTRL_TAG] + body@,
{
    let mut out: Vec<u8> = Vec::new();
    out.push(CTRL_TAG);
    let mut i: usize = 0;
    while i < body.len()
        invariant
            i <= body.len(),
            out@ == seq![CTRL_TAG] + body@.take(i as int),
        decreases body.len() - i,
    {
        out.push(body[i]);
        assert(body@.take(i + 1) =~= body@.take(i as int).push(body@[i as int]));
        assert(out@ =~= seq![CTRL_TAG] + body@.take(i + 1));
        i += 1;
    }
    assert(body@.take(body.len() as int) =~= body@);
    out
}

/// Checks that a link payload is a control frame and gives where its body
/// starts.
pub fn check_ctrl_frame(data: &[u8]) -> (r: Result<usize, CodecError>)
    ensures
        data@.len() > 0 && data@[0] == CTRL_TAG ==> r == Ok::<usize, CodecError>(1),
        !(data@.len() > 0 && data@[0] == CTRL_TAG) ==> r == Err::<usize, CodecError>(
            CodecError::BadMagic,
        ),
{
    if data.len() == 0 || data[0] != CTRL_TAG {
        return Err(CodecError::BadMagic);
    }
    Ok(1)
}

/// A framed announce is read back as one: after the header, the check finds
/// the announce version, and the body starts right after it, unchanged.
pub proof fn lemma_announce_frame_round_trip(body: Seq<u8>)
    ensures
        ({
            let data = announce_magic().push(ANNOUNCE_VERSION) + body;
            &&& announce_like(data)
            &&& data[4] == ANNOUNCE_VERSION
            &&& data.skip(5) == body
        }),
{
    let data = announce_magic().push(ANNOUNCE_VERSION) + body;
    assert(data.take(4) =~= announce_magic());
    assert(data.skip(5) =~= body);
}

/// A framed control message is read back as one, with its body unchanged
/// after the tag.
pub proof fn lemma_ctrl_frame_round_trip(body: Seq<u8>)
    ensures
        ({
            let data = seq![CTRL_TAG] + body;
            &&& data.len() > 0 && data[0] == CTRL_TAG
            &&& data.skip(1) == body
        }),
{
    let data = seq![CTRL_TAG] + body;
    assert(data.skip(1) =~= body);
}

/// An IP packet never passes for a control frame: its first byte is `0x4X`
/// or `0x6X`, while control frames start with `0xFB`.  An IPv4 packet never
/// passes for an announce either, which starts with `k` (`0x6B`).
pub proof fn lemma_ip_packet_is_data(data: Seq<u8>)
    requires
        data.len() > 0,
        0x40 <= data[0] < 0x50 || 0x60 <= data[0] < 0x70,
    ensures
        !(data[0] == CTRL_TAG),
        0x40 <= data[0] < 0x50 ==> !announce_like(data),
{
    if announce_like(data) {
        assert(data.take(4)[0] == data[0]);
    }
}

} // verus!
