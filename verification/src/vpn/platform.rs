//! The commands that set up the VPN's network on Linux: the TUN address,
//! forwarding, routes and the `iptables` rules that translate local subnets
//! to the subnets they are exported as.  The commands are planned here and
//! run by the caller.

use vstd::prelude::*;

use crate::atak::interface::{format_ipv4, ipv4_text};
use crate::text::{strings_view, chars_to_string, decimal, extend_str, find, find_chars, push_decimal, str_chars, trim, trim_chars};
use crate::vpn::net::{format_net, net_text, Ipv4Net};

verus! {

/// The MTU of the TUN device.
pub const TUN_MTU: usize = 1400;

/// The TCP MSS clamped to the MTU less the IPv4 and TCP headers.
pub const TCP_MSS: usize = 1360;

/// A local subnet and the subnet it is exported as.
#[derive(Debug, Clone, Copy, PartialEq, Eq, Structural)]
pub struct LocalRouteTranslation {
    pub local: Ipv4Net,
    pub exported: Ipv4Net,
}

fn strings(items: &Vec<&str>) -> (r: Vec<String>)
    ensures
        strings_view(r@) == items@.map_values(|s: &str| s@),
{
    let mut out: Vec<String> = Vec::new();
    let mut i: usize = 0;
    while i < items.len()
        invariant
            i <= items.len(),
            out.len() == i,
            forall|j: int| 0 <= j < i ==> #[trigger] out@[j]@ == items@[j]@,
        decreases items.len() - i,
    {
        out.push(items[i].to_owned());
        i += 1;
    }
    assert(strings_view(out@) =~= items@.map_values(|s: &str| s@));
    out
}

/// The `ip` arguments that bring the TUN device up with its address:
/// `link set dev <if> up`, `link set dev <if> mtu 1400`, `addr replace
/// <addr>/<prefix> dev <if>`.
pub fn configure_tun_address_commands(interface: &str, addr: u32, prefix: u8) -> (r: Vec<
    Vec<String>,
>)
    ensures
        r.len() == 3,
        strings_view(r@[0]@) == seq!["link"@, "set"@, "dev"@, interface@, "up"@],
        strings_view(r@[1]@) == seq!["link"@, "set"@, "dev"@, interface@, "mtu"@, "1400"@],
        strings_view(r@[2]@) == seq![
            "addr"@,
            "replace"@,
            ipv4_text(addr) + "/"@ + decimal(prefix as nat),
            "dev"@,
            interface@,
        ],
{
    let a = strings(&vec!["link", "set", "dev", interface, "up"]);
    let b = strings(&vec!["link", "set", "dev", interface, "mtu", "1400"]);
    let mut cidr: Vec<char> = Vec::new();
    let t = format_ipv4(addr);
    extend_str(&mut cidr, t.as_str());
    extend_str(&mut cidr, "/");
    push_decimal(&mut cidr, prefix as u64);
    let cidr_s = chars_to_string(&cidr);
    let c = strings(&vec!["addr", "replace", cidr_s.as_str(), "dev", interface]);
    let mut out: Vec<Vec<String>> = Vec::new();
    out.push(a);
    out.push(b);
    out.push(c);
    out
}

/// The command that turns on IPv4 forwarding.
pub fn enable_forwarding_command() -> (r: (String, Vec<String>))
    ensures
        r.0@ == "sysctl"@,
        strings_view(r.1@) == seq!["-w"@, "net.ipv4.ip_forward=1"@],
{
    ("sysctl".to_owned(), strings(&vec!["-w", "net.ipv4.ip_forward=1"]))
}

/// The `ip` arguments that route `route` through `interface`.
pub fn replace_route_args(interface: &str, route: &str) -> (r: Vec<String>)
    ensures
        strings_view(r@) == seq!["route"@, "replace"@, route@, "dev"@, interface@],
{
    strings(&vec!["route", "replace", route, "dev", interface])
}

/// The `ip` arguments that remove the route of `route` through `interface`.
pub fn delete_route_args(interface: &str, route: &str) -> (r: Vec<String>)
    ensures
        strings_view(r@) == seq!["route"@, "del"@, route@, "dev"@, interface@],
{
    strings(&vec!["route", "del", route, "dev", interface])
}

/// The backend named in snapshots: `linux` on Linux, else `mock`.
pub fn backend_name(linux: bool) -> (r: &'static str)
    ensures
        r@ == (if linux {
            "linux"@
        } else {
            "mock"@
        }),
{
    if linux {
        "linux"
    } else {
        "mock"
    }
}

/// One step of setting up the translation rules.
#[derive(Debug, Clone, PartialEq, Eq)]
pub enum IptablesStep {
    /// Create a chain; an existing chain is fine.
    EnsureChain { table: String, chain: String },
    /// Add a jump from `parent` to `target` for traffic on the interface
    /// (`-i` or `-o`), unless it is there.
    EnsureJump { table: String, parent: String, flag: String, interface: String, target: String },
    /// Run `iptables` with these arguments.
    Run(Vec<String>),
}

/// The view of a step.
pub enum StepView {
    EnsureChain(Seq<char>, Seq<char>),
    EnsureJump(Seq<char>, Seq<char>, Seq<char>, Seq<char>, Seq<char>),
    Run(Seq<Seq<char>>),
}

/// The plain view of a step.
pub open spec fn step_view(s: IptablesStep) -> StepView {
    match s {
        IptablesStep::EnsureChain { table, chain } => StepView::EnsureChain(table@, chain@),
        IptablesStep::EnsureJump { table, parent, flag, interface, target } => StepView::EnsureJump(
            table@,
            parent@,
            flag@,
            interface@,
            target@,
        ),
        IptablesStep::Run(args) => StepView::Run(strings_view(args@)),
    }
}

/// The NETMAP rules of one translation: none when the subnet is exported
/// as itself.
pub open spec fn translation_steps(t: LocalRouteTranslation) -> Seq<StepView> {
    if t.local == t.exported {
        Seq::empty()
    } else {
        seq![
            StepView::Run(
                seq![
                    "-t"@,
                    "nat"@,
                    "-A"@,
                    "KAONIC_VPN_PREROUTING"@,
                    "-d"@,
                    net_text(t.exported),
                    "-j"@,
                    "NETMAP"@,
                    "--to"@,
                    net_text(t.local),
                ],
            ),
            StepView::Run(
                seq![
                    "-t"@,
                    "nat"@,
                    "-A"@,
                    "KAONIC_VPN_POSTROUTING"@,
                    "-s"@,
                    net_text(t.local),
                    "-j"@,
                    "NETMAP"@,
                    "--to"@,
                    net_text(t.exported),
                ],
            ),
        ]
    }
}

/// The NETMAP rules of all translations, in order.
pub open spec fn translations_steps(ts: Seq<LocalRouteTranslation>) -> Seq<StepView>
    decreases ts.len(),
{
    if ts.len() == 0 {
        Seq::empty()
    } else {
        translations_steps(ts.drop_last()) + translation_steps(ts.last())
    }
}

/// The fixed steps: the three chains, the four jumps on the interface, the
/// flushes and the MSS clamp.
pub open spec fn base_steps(interface: Seq<char>) -> Seq<StepView> {
    seq![
        StepView::EnsureChain("nat"@, "KAONIC_VPN_PREROUTING"@),
        StepView::EnsureChain("nat"@, "KAONIC_VPN_POSTROUTING"@),
        StepView::EnsureChain("mangle"@, "KAONIC_VPN_MSS"@),
        StepView::EnsureJump("nat"@, "PREROUTING"@, "-i"@, interface, "KAONIC_VPN_PREROUTING"@),
        StepView::EnsureJump("nat"@, "POSTROUTING"@, "-o"@, interface, "KAONIC_VPN_POSTROUTING"@),
        StepView::EnsureJump("mangle"@, "FORWARD"@, "-i"@, interface, "KAONIC_VPN_MSS"@),
        StepView::EnsureJump("mangle"@, "FORWARD"@, "-o"@, interface, "KAONIC_VPN_MSS"@),
        StepView::Run(seq!["-t"@, "nat"@, "-F"@, "KAONIC_VPN_PREROUTING"@]),
        StepView::Run(seq!["-t"@, "nat"@, "-F"@, "KAONIC_VPN_POSTROUTING"@]),
        StepView::Run(seq!["-t"@, "mangle"@, "-F"@, "KAONIC_VPN_MSS"@]),
        mss_clamp_step(),
    ]
}

/// The rule that clamps the TCP MSS of forwarded SYNs to 1360.
pub open spec fn mss_clamp_step() -> StepView {
    StepView::Run(
        seq![
            "-t"@,
            "mangle"@,
            "-A"@,
            "KAONIC_VPN_MSS"@,
            "-p"@,
            "tcp"@,
            "--tcp-flags"@,
            "SYN,RST"@,
            "SYN"@,
            "-j"@,
            "TCPMSS"@,
            "--set-mss"@,
            "1360"@,
        ],
    )
}

fn chain_step(table: &str, chain: &str) -> (r: IptablesStep)
    ensures
        step_view(r) == StepView::EnsureChain(table@, chain@),
{
    IptablesStep::EnsureChain { table: table.to_owned(), chain: chain.to_owned() }
}

fn jump_step(table: &str, parent: &str, flag: &str, interface: &str, target: &str) -> (r: IptablesStep)
    ensures
        step_view(r) == StepView::EnsureJump(table@, parent@, flag@, interface@, target@),
{
    IptablesStep::EnsureJump {
        table: table.to_owned(),
        parent: parent.to_owned(),
        flag: flag.to_owned(),
        interface: interface.to_owned(),
        target: target.to_owned(),
    }
}

fn flush_step(table: &str, chain: &str) -> (r: IptablesStep)
    ensures
        step_view(r) == StepView::Run(seq!["-t"@, table@, "-F"@, chain@]),
{
    let args = strings(&vec!["-t", table, "-F", chain]);
    proof {
        assert(strings_view(args@) =~= seq!["-t"@, table@, "-F"@, chain@]);
    }
    IptablesStep::Run(args)
}

fn mss_step() -> (r: IptablesStep)
    ensures
        step_view(r) == mss_clamp_step(),
{
    let args = strings(
        &vec![
            "-t",
            "mangle",
            "-A",
            "KAONIC_VPN_MSS",
            "-p",
            "tcp",
            "--tcp-flags",
            "SYN,RST",
            "SYN",
            "-j",
            "TCPMSS",
            "--set-mss",
            "1360",
        ],
    );
    proof {
        assert(strings_view(args@) =~= seq![
            "-t"@,
            "mangle"@,
            "-A"@,
            "KAONIC_VPN_MSS"@,
            "-p"@,
            "tcp"@,
            "--tcp-flags"@,
            "SYN,RST"@,
            "SYN"@,
            "-j"@,
            "TCPMSS"@,
            "--set-mss"@,
            "1360"@,
        ]);
    }
    IptablesStep::Run(args)
}

fn netmap_step(chain: &str, flag: &str, matched: &str, to: &str) -> (r: IptablesStep)
    ensures
        step_view(r) == StepView::Run(
            seq!["-t"@, "nat"@, "-A"@, chain@, flag@, matched@, "-j"@, "NETMAP"@, "--to"@, to@],
        ),
{
    let args = strings(&vec!["-t", "nat", "-A", chain, flag, matched, "-j", "NETMAP", "--to", to]);
    proof {
        assert(strings_view(args@) =~= seq![
            "-t"@,
            "nat"@,
            "-A"@,
            chain@,
            flag@,
            matched@,
            "-j"@,
            "NETMAP"@,
            "--to"@,
            to@,
        ]);
    }
    IptablesStep::Run(args)
}

fn base_plan(interface: &str) -> (r: Vec<IptablesStep>)
    ensures
        r@.map_values(|s: IptablesStep| step_view(s)) == base_steps(interface@),
{
    let mut out: Vec<IptablesStep> = Vec::new();
    out.push(chain_step("nat", "KAONIC_VPN_PREROUTING"));
    out.push(chain_step("nat", "KAONIC_VPN_POSTROUTING"));
    out.push(chain_step("mangle", "KAONIC_VPN_MSS"));
    out.push(jump_step("nat", "PREROUTING", "-i", interface, "KAONIC_VPN_PREROUTING"));
    out.push(jump_step("nat", "POSTROUTING", "-o", interface, "KAONIC_VPN_POSTROUTING"));
    out.push(jump_step("mangle", "FORWARD", "-i", interface, "KAONIC_VPN_MSS"));
    out.push(jump_step("mangle", "FORWARD", "-o", interface, "KAONIC_VPN_MSS"));
    out.push(flush_step("nat", "KAONIC_VPN_PREROUTING"));
    out.push(flush_step("nat", "KAONIC_VPN_POSTROUTING"));
    out.push(flush_step("mangle", "KAONIC_VPN_MSS"));
    out.push(mss_step());
    assert(out@.map_values(|s: IptablesStep| step_view(s)) =~= base_steps(interface@));
    out
}

/// The steps that make the translation rules match `translations` on
/// `interface`.
pub fn route_translation_plan(interface: &str, translations: &Vec<LocalRouteTranslation>) -> (r:
    Vec<IptablesStep>)
    ensures
        r@.map_values(|s: IptablesStep| step_view(s)) == base_steps(interface@) + translations_steps(
            translations@,
        ),
{
    let mut out = base_plan(interface);
    let mut i: usize = 0;
    while i < translations.len()
        invariant
            i <= translations.len(),
            out@.map_values(|s: IptablesStep| step_view(s)) == base_steps(interface@)
                + translations_steps(translations@.take(i as int)),
        decreases translations.len() - i,
    {
        let t = translations[i];
        let ghost before = out@.map_values(|s: IptablesStep| step_view(s));
        assert(translations@.take(i + 1).drop_last() =~= translations@.take(i as int));
        if !(t.local.addr == t.exported.addr && t.local.prefix == t.exported.prefix) {
            let exported = format_net(&t.exported);
            let local = format_net(&t.local);
            out.push(netmap_step("KAONIC_VPN_PREROUTING", "-d", exported.as_str(), local.as_str()));
            out.push(netmap_step("KAONIC_VPN_POSTROUTING", "-s", local.as_str(), exported.as_str()));
            assert(out@.map_values(|s: IptablesStep| step_view(s)) =~= before + translation_steps(t));
        } else {
            assert(before + translation_steps(t) =~= before);
        }
        i += 1;
    }
    assert(translations@.take(translations.len() as int) =~= translations@);
    out
}

/// The `iptables` arguments that check for a jump.
pub fn jump_check_args(table: &str, parent: &str, flag: &str, interface: &str, target: &str) -> (r:
    Vec<String>)
    ensures
        strings_view(r@) == seq!["-t"@, table@, "-C"@, parent@, flag@, interface@, "-j"@, target@],
{
    strings(&vec!["-t", table, "-C", parent, flag, interface, "-j", target])
}

/// The `iptables` arguments that add a jump.
pub fn jump_add_args(table: &str, parent: &str, flag: &str, interface: &str, target: &str) -> (r:
    Vec<String>)
    ensures
        strings_view(r@) == seq!["-t"@, table@, "-A"@, parent@, flag@, interface@, "-j"@, target@],
{
    strings(&vec!["-t", table, "-A", parent, flag, interface, "-j", target])
}

/// The `iptables` arguments that create a chain.
pub fn chain_create_args(table: &str, chain: &str) -> (r: Vec<String>)
    ensures
        strings_view(r@) == seq!["-t"@, table@, "-N"@, chain@],
{
    strings(&vec!["-t", table, "-N", chain])
}

/// The `iptables` commands tried, in order.
pub fn iptables_candidates() -> (r: Vec<&'static str>)
    ensures
        r@.map_values(|s: &str| s@) == seq!["iptables"@, "iptables-nft"@, "iptables-legacy"@],
{
    let v = vec!["iptables", "iptables-nft", "iptables-legacy"];
    assert(v@.map_values(|s: &str| s@) =~= seq!["iptables"@, "iptables-nft"@, "iptables-legacy"@]);
    v
}

fn contains_str(haystack: &str, needle: &str) -> (r: bool)
    ensures
        r == find(haystack@, needle@) is Some,
{
    find_chars(&str_chars(haystack), &str_chars(needle)).is_some()
}

/// An `iptables` supports NETMAP: asking for its help succeeds or mentions
/// NETMAP.
pub fn netmap_supported(success: bool, stdout: &str, stderr: &str) -> (r: bool)
    ensures
        r == (success || find(stdout@, "NETMAP"@) is Some || find(stderr@, "NETMAP"@) is Some),
{
    success || contains_str(stdout, "NETMAP") || contains_str(stderr, "NETMAP")
}

/// A failure to create a chain that only says it exists.
pub fn chain_exists_error(message: &str) -> (r: bool)
    ensures
        r == find(message@, "Chain already exists"@) is Some,
{
    contains_str(message, "Chain already exists")
}

/// The message of a failed command: `<cmd> <args> failed: <stderr>`.
pub fn command_error_message(cmd: &str, args: &Vec<String>, stderr: &str) -> (r: String)
    ensures
        r@ == cmd@ + " "@ + joined(strings_view(args@)) + " failed: "@ + trim(stderr@),
{
    let mut out: Vec<char> = Vec::new();
    extend_str(&mut out, cmd);
    extend_str(&mut out, " ");
    let mut i: usize = 0;
    while i < args.len()
        invariant
            i <= args.len(),
            out@ == cmd@ + " "@ + joined(strings_view(args@).take(i as int)),
        decreases args.len() - i,
    {
        if i > 0 {
            extend_str(&mut out, " ");
        }
        extend_str(&mut out, args[i].as_str());
        proof {
            let t = strings_view(args@).take(i + 1);
            assert(t.drop_last() =~= strings_view(args@).take(i as int));
            assert(t.last() == args@[i as int]@);
            if i == 0 {
                assert(t[0] == t.last());
            }
        }
        assert(out@ =~= cmd@ + " "@ + joined(strings_view(args@).take(i + 1)));
        i += 1;
    }
    assert(strings_view(args@).take(args.len() as int) =~= strings_view(args@));
    extend_str(&mut out, " failed: ");
    let e = trim_chars(&str_chars(stderr));
    crate::text::extend_chars(&mut out, &e);
    chars_to_string(&out)
}

/// Words joined by single spaces.
pub open spec fn joined(ws: Seq<Seq<char>>) -> Seq<char>
    decreases ws.len(),
{
    if ws.len() == 0 {
        Seq::empty()
    } else if ws.len() == 1 {
        ws[0]
    } else {
        joined(ws.drop_last()) + " "@ + ws.last()
    }
}

} // verus!
