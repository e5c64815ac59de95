//! IPv4 networks (`address/prefix`), with the meaning the `cidr` crate gives
//! them: the prefix is at most 32 and the address has no host bits.

use vstd::prelude::*;

use crate::atak::interface::{format_ipv4, ipv4_text};
use crate::text::{chars_to_string, decimal, extend_str, push_decimal};

verus! {

/// `2` to the power `k`.
pub open spec fn two_to(k: nat) -> nat
    decreases k,
{
    if k == 0 {
        1
    } else {
        2 * two_to((k - 1) as nat)
    }
}

/// The number of addresses in a network of prefix `p`.
pub open spec fn block(p: u8) -> nat {
    two_to((32 - p) as nat)
}

/// `addr/prefix` names a network: the prefix is at most 32 and the host
/// bits of the address are zero.
pub open spec fn net_valid(addr: u32, prefix: u8) -> bool {
    prefix <= 32 && addr as nat % block(prefix) == 0
}

/// The network `addr/prefix` holds `ip`: they agree on the first `prefix`
/// bits.
pub open spec fn net_holds(addr: u32, prefix: u8, ip: u32) -> bool {
    ip as nat / block(prefix) == addr as nat / block(prefix)
}

/// An IPv4 network.
#[derive(Debug, Clone, Copy, PartialEq, Eq, Hash, Structural)]
pub struct Ipv4Net {
    /// The first address of the network.
    pub addr: u32,
    /// The number of leading bits that identify the network.
    pub prefix: u8,
}

impl Ipv4Net {
    /// The network is well formed.
    pub open spec fn wf(self) -> bool {
        net_valid(self.addr, self.prefix)
    }

    /// The network holds `ip`.
    pub open spec fn holds(self, ip: u32) -> bool {
        net_holds(self.addr, self.prefix, ip)
    }
}

proof fn lemma_two_to_pos(k: nat)
    ensures
        two_to(k) >= 1,
    decreases k,
{
    if k > 0 {
        lemma_two_to_pos((k - 1) as nat);
    }
}

/// The block size of a prefix, as a number.
fn block_size(prefix: u8) -> (r: u64)
    requires
        prefix <= 32,
    ensures
        r == block(prefix),
        r >= 1,
{
    let n = 32 - prefix;
    let mut v: u64 = 1;
    let mut k: u8 = 0;
    while k < n
        invariant
            k <= n <= 32,
            v == two_to(k as nat),
            v <= 0x1_0000_0000,
        decreases n - k,
    {
        proof {
            lemma_two_to_k_le(k as nat);
        }
        v = v * 2;
        k += 1;
    }
    proof {
        lemma_two_to_pos(n as nat);
    }
    v
}

proof fn lemma_two_to_k_le(k: nat)
    requires
        k < 32,
    ensures
        two_to(k + 1) <= 0x1_0000_0000,
    decreases 32 - k,
{
    if k + 1 < 32 {
        lemma_two_to_k_le(k + 1);
        assert(two_to(k + 2) == 2 * two_to(k + 1));
    } else {
        assert(two_to(32) == 0x1_0000_0000) by {
            reveal_with_fuel(two_to, 33);
        }
    }
}

impl Ipv4Net {
    /// The network `addr/prefix`, when it is one.
    pub fn new(addr: u32, prefix: u8) -> (r: Option<Self>)
        ensures
            match r {
                Some(n) => n.addr == addr && n.prefix == prefix && net_valid(addr, prefix),
                None => !net_valid(addr, prefix),
            },
    {
        if prefix > 32 {
            return None;
        }
        let b = block_size(prefix);
        if (addr as u64) % b != 0 {
            return None;
        }
        Some(Ipv4Net { addr, prefix })
    }

    /// Whether the network holds `ip`.
    pub fn contains(&self, ip: u32) -> (r: bool)
        requires
            self.prefix <= 32,
        ensures
            r == self.holds(ip),
    {
        let b = block_size(self.prefix);
        (ip as u64) / b == (self.addr as u64) / b
    }

    /// The first address of the network.
    pub fn first_address(&self) -> (r: u32)
        ensures
            r == self.addr,
    {
        self.addr
    }

    /// The prefix length.
    pub fn network_length(&self) -> (r: u8)
        ensures
            r == self.prefix,
    {
        self.prefix
    }
}

/// The text of a network: `a.b.c.d/p`, or only the address for a single
/// host (`/32`), as the `cidr` crate displays it.
pub open spec fn net_text(n: Ipv4Net) -> Seq<char> {
    if n.prefix == 32 {
        ipv4_text(n.addr)
    } else {
        ipv4_text(n.addr) + "/"@ + decimal(n.prefix as nat)
    }
}

/// Writes a network as text.
pub fn format_net(n: &Ipv4Net) -> (r: String)
    ensures
        r@ == net_text(*n),
{
    let a = format_ipv4(n.addr);
    if n.prefix == 32 {
        return a;
    }
    let mut out: Vec<char> = Vec::new();
    extend_str(&mut out, a.as_str());
    extend_str(&mut out, "/");
    push_decimal(&mut out, n.prefix as u64);
    chars_to_string(&out)
}

/// The network that a text names, as the `cidr` crate reads it.
pub uninterp spec fn cidr_text_net(text: Seq<char>) -> Option<(u32, u8)>;

/// `str::parse::<cidr::Ipv4Cidr>`, read back as (first address, prefix).
/// The contract claims that the result is the named reading of the text and
/// that a network read is well formed, which `cidr::Ipv4Cidr::new` checks
/// for every network it builds.
#[verifier::external_body]
fn parse_cidr(text: &str) -> (r: Option<(u32, u8)>)
    ensures
        r == cidr_text_net(text@),
        r matches Some((a, p)) ==> net_valid(a, p),
{
    match text.parse::<cidr::Ipv4Cidr>() {
        Ok(c) => Some((u32::from(c.first_address()), c.network_length())),
        Err(_) => None,
    }
}

impl Ipv4Net {
    /// Reads a network from its text (`a.b.c.d/p`, or an address for a
    /// single host).
    pub fn parse(text: &str) -> (r: Option<Self>)
        ensures
            match cidr_text_net(text@) {
                Some((a, p)) => r == Some(Ipv4Net { addr: a, prefix: p }),
                None => r is None,
            },
            r matches Some(n) ==> n.wf(),
    {
        match parse_cidr(text) {
            Some((a, p)) => Some(Ipv4Net { addr: a, prefix: p }),
            None => None,
        }
    }
}

/// The default route advertised for the Kaonic LAN, 192.168.10.0/24.
pub fn default_advertised_routes() -> (r: Vec<Ipv4Net>)
    ensures
        r@ == seq![Ipv4Net { addr: 0xC0A8_0A00, prefix: 24 }],
{
    let mut v: Vec<Ipv4Net> = Vec::new();
    v.push(Ipv4Net { addr: 0xC0A8_0A00, prefix: 24 });
    v
}

} // verus!
