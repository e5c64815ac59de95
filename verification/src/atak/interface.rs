//! Choosing the local network interface that faces the ATAK devices.
//!
//! IPv4 addresses are held as their 32-bit value (`a.b.c.d` is
//! `a << 24 | b << 16 | c << 8 | d`).

use vstd::prelude::*;

use crate::text::{opt_view, chars_to_string, decimal, extend_str, push_decimal, str_chars};

verus! {

/// A non-loopback IPv4 address of a local interface.
#[derive(Debug, Clone, PartialEq, Eq)]
pub struct InterfaceCandidate {
    pub name: String,
    pub addr: u32,
}

/// The interface chosen for ATAK traffic.
#[derive(Debug, Clone, PartialEq, Eq)]
pub struct LocalInterface {
    pub name: String,
    pub addr: u32,
}

/// What the operator asked for: an interface name, an address, both or
/// neither.
#[derive(Debug, Clone, Default, PartialEq, Eq)]
pub struct InterfaceSelection {
    pub interface_name: Option<String>,
    pub local_addr: Option<u32>,
}

/// Why no interface was chosen.
#[derive(Debug, Clone, PartialEq, Eq)]
pub enum InterfaceSelectionError {
    NoUsableInterfaces,
    NoAutomaticAtakInterface,
    InterfaceNotFound(String),
    AddressNotFound(u32),
    AmbiguousInterface(String),
}

/// The plain view of a candidate: its name and address.
pub open spec fn cand_view(c: InterfaceCandidate) -> (Seq<char>, u32) {
    (c.name@, c.addr)
}

/// The plain views of the candidates.
pub open spec fn cands_view(s: Seq<InterfaceCandidate>) -> Seq<(Seq<char>, u32)> {
    s.map_values(|c: InterfaceCandidate| cand_view(c))
}

/// The dotted-quad text of an address.
pub open spec fn ipv4_text(a: u32) -> Seq<char> {
    decimal((a / 0x100_0000) as nat) + "."@ + decimal(((a / 0x1_0000) % 256) as nat) + "."@
        + decimal(((a / 0x100) % 256) as nat) + "."@ + decimal((a % 256) as nat)
}

/// An address on the Kaonic LAN, 192.168.10.0/24.
pub open spec fn is_kaonic_lan(a: u32) -> bool {
    a / 0x100 == 0xC0A80A
}

/// The candidate passes the selection's filters.
pub open spec fn selected_by(c: (Seq<char>, u32), name: Option<Seq<char>>, addr: Option<u32>) -> bool {
    (name matches Some(n) ==> c.0 == n) && (addr matches Some(a) ==> c.1 == a)
}

/// The candidates that pass the selection's filters, in order.
pub open spec fn matching(cs: Seq<(Seq<char>, u32)>, name: Option<Seq<char>>, addr: Option<u32>) -> Seq<
    (Seq<char>, u32),
>
    decreases cs.len(),
{
    if cs.len() == 0 {
        cs
    } else {
        let rest = matching(cs.drop_last(), name, addr);
        if selected_by(cs.last(), name, addr) {
            rest.push(cs.last())
        } else {
            rest
        }
    }
}

/// The candidates on the Kaonic LAN, in order.
pub open spec fn lan_only(cs: Seq<(Seq<char>, u32)>) -> Seq<(Seq<char>, u32)>
    decreases cs.len(),
{
    if cs.len() == 0 {
        cs
    } else {
        let rest = lan_only(cs.drop_last());
        if is_kaonic_lan(cs.last().1) {
            rest.push(cs.last())
        } else {
            rest
        }
    }
}

/// `name=address` for each candidate, joined by `, `.
pub open spec fn describe(cs: Seq<(Seq<char>, u32)>) -> Seq<char>
    decreases cs.len(),
{
    if cs.len() == 0 {
        Seq::empty()
    } else if cs.len() == 1 {
        cs[0].0 + "="@ + ipv4_text(cs[0].1)
    } else {
        describe(cs.drop_last()) + ", "@ + cs.last().0 + "="@ + ipv4_text(cs.last().1)
    }
}

/// The outcome of a selection, as plain values.
pub enum SelectionOutcome {
    Chosen(Seq<char>, u32),
    NoUsableInterfaces,
    NoAutomaticAtakInterface,
    InterfaceNotFound(Seq<char>),
    AddressNotFound(u32),
    AmbiguousInterface(Seq<char>),
}

/// The choice among the matching candidates: the only one, else none or
/// ambiguous.
pub open spec fn one_of(m: Seq<(Seq<char>, u32)>, context: Seq<char>) -> SelectionOutcome {
    if m.len() == 0 {
        SelectionOutcome::NoUsableInterfaces
    } else if m.len() == 1 {
        SelectionOutcome::Chosen(m[0].0, m[0].1)
    } else {
        SelectionOutcome::AmbiguousInterface(context + " matched "@ + describe(m))
    }
}

/// The automatic choice: the only candidate in 192.168.10.0/24.
pub open spec fn auto_of(m: Seq<(Seq<char>, u32)>) -> SelectionOutcome {
    let lan = lan_only(m);
    if m.len() == 0 {
        SelectionOutcome::NoUsableInterfaces
    } else if lan.len() == 1 {
        SelectionOutcome::Chosen(lan[0].0, lan[0].1)
    } else if lan.len() == 0 {
        SelectionOutcome::NoAutomaticAtakInterface
    } else {
        SelectionOutcome::AmbiguousInterface(
            "multiple 192.168.10.0/24 candidates: "@ + describe(lan),
        )
    }
}

/// The choice: the candidates are filtered by the requested name and
/// address; an explicit request must match exactly one, and without one the
/// single candidate on 192.168.10.0/24 is taken.
pub open spec fn selection_outcome(
    cs: Seq<(Seq<char>, u32)>,
    name: Option<Seq<char>>,
    addr: Option<u32>,
) -> SelectionOutcome {
    let m = matching(cs, name, addr);
    if name is Some && m.len() == 0 {
        SelectionOutcome::InterfaceNotFound(name->0)
    } else if addr is Some && m.len() == 0 {
        SelectionOutcome::AddressNotFound(addr->0)
    } else if name is Some && addr is Some {
        one_of(m, "explicit interface/address"@)
    } else if name is Some {
        one_of(m, "explicit interface"@)
    } else if addr is Some {
        one_of(m, "explicit address"@)
    } else {
        auto_of(m)
    }
}

/// The candidate has the requested name, when one is requested, and the
/// requested address, when one is requested.
pub open spec fn wants(c: (Seq<char>, u32), name: Option<Seq<char>>, addr: Option<u32>) -> bool {
    &&& name is Some ==> c.0 == name->0
    &&& addr is Some ==> c.1 == addr->0
}

/// Every candidate the filters keep is a candidate that has the requested
/// name and address.
proof fn lemma_matching_sound(cs: Seq<(Seq<char>, u32)>, name: Option<Seq<char>>, addr: Option<u32>)
    ensures
        forall|k: int|
            0 <= k < matching(cs, name, addr).len() ==> cs.contains(
                #[trigger] matching(cs, name, addr)[k],
            ) && wants(matching(cs, name, addr)[k], name, addr),
    decreases cs.len(),
{
    if cs.len() > 0 {
        let d = cs.drop_last();
        lemma_matching_sound(d, name, addr);
        let m = matching(cs, name, addr);
        let r = matching(d, name, addr);
        assert forall|k: int| 0 <= k < m.len() implies cs.contains(#[trigger] m[k]) && wants(
            m[k],
            name,
            addr,
        ) by {
            if k < r.len() {
                assert(m[k] == r[k]);
                let j = choose|j: int| 0 <= j < d.len() && d[j] == r[k];
                assert(cs[j] == d[j]);
            } else {
                assert(m[k] == cs.last());
                assert(cs[cs.len() - 1] == cs.last());
            }
        }
    }
}

/// When exactly one candidate has the requested name and address, the
/// filters keep that candidate alone.
proof fn lemma_matching_single(
    cs: Seq<(Seq<char>, u32)>,
    name: Option<Seq<char>>,
    addr: Option<u32>,
    i: int,
)
    requires
        0 <= i < cs.len(),
        wants(cs[i], name, addr),
        forall|j: int|
            0 <= j < cs.len() && j != i ==> !wants(#[trigger] cs[j], name, addr),
    ensures
        matching(cs, name, addr) == seq![cs[i]],
    decreases cs.len(),
{
    let d = cs.drop_last();
    if i == cs.len() - 1 {
        lemma_matching_none(d, name, addr);
        assert(matching(d, name, addr).push(cs.last()) =~= seq![cs[i]]);
    } else {
        assert forall|j: int|
            0 <= j < d.len() && j != i implies !wants(#[trigger] d[j], name, addr) by {
            assert(d[j] == cs[j]);
        }
        assert(!wants(cs[cs.len() - 1], name, addr));
        lemma_matching_single(d, name, addr, i);
    }
}

/// When no candidate has the requested name and address, the filters keep
/// none.
proof fn lemma_matching_none(cs: Seq<(Seq<char>, u32)>, name: Option<Seq<char>>, addr: Option<u32>)
    requires
        forall|j: int|
            0 <= j < cs.len() ==> !wants(#[trigger] cs[j], name, addr),
    ensures
        matching(cs, name, addr).len() == 0,
    decreases cs.len(),
{
    if cs.len() > 0 {
        let d = cs.drop_last();
        assert forall|j: int| 0 <= j < d.len() implies !wants(#[trigger] d[j], name, addr) by {
            assert(d[j] == cs[j]);
        }
        assert(!wants(cs[cs.len() - 1], name, addr));
        lemma_matching_none(d, name, addr);
    }
}

/// What a selection chooses: a chosen interface is one of the candidates,
/// with the requested name when a name is given and the requested address
/// when an address is given (both when both are), and on 192.168.10.0/24
/// when neither is.  When a name or an address is requested and exactly
/// one candidate has what was requested, that candidate is chosen.
pub proof fn lemma_selection_honours_request(
    cs: Seq<(Seq<char>, u32)>,
    name: Option<Seq<char>>,
    addr: Option<u32>,
)
    ensures
        selection_outcome(cs, name, addr) matches SelectionOutcome::Chosen(x, y) ==> {
            &&& cs.contains((x, y))
            &&& name matches Some(n) ==> x == n
            &&& addr matches Some(a) ==> y == a
            &&& name is None && addr is None ==> is_kaonic_lan(y)
        },
        (name is Some || addr is Some) && (exists|i: int|
            0 <= i < cs.len() && wants(#[trigger] cs[i], name, addr) && forall|j: int|
                0 <= j < cs.len() && j != i ==> !wants(#[trigger] cs[j], name, addr)) ==> exists|i: int|
            0 <= i < cs.len() && selection_outcome(cs, name, addr) == SelectionOutcome::Chosen(
                (#[trigger] cs[i]).0,
                cs[i].1,
            ),
{
    let m = matching(cs, name, addr);
    lemma_matching_sound(cs, name, addr);
    if selection_outcome(cs, name, addr) is Chosen {
        if name is None && addr is None {
            lemma_lan_only_sound(m);
            let lan = lan_only(m);
            assert(m.contains(lan[0]));
            let k = choose|k: int| 0 <= k < m.len() && m[k] == lan[0];
            assert(cs.contains(m[k]));
        } else {
            assert(m.len() == 1);
            assert(cs.contains(m[0]));
        }
    }
    if (name is Some || addr is Some) && (exists|i: int|
        0 <= i < cs.len() && wants(#[trigger] cs[i], name, addr) && forall|j: int|
            0 <= j < cs.len() && j != i ==> !wants(#[trigger] cs[j], name, addr)) {
        let i = choose|i: int|
            0 <= i < cs.len() && wants(#[trigger] cs[i], name, addr) && forall|j: int|
                0 <= j < cs.len() && j != i ==> !wants(#[trigger] cs[j], name, addr);
        lemma_matching_single(cs, name, addr, i);
        assert(m[0] == cs[i]);
    }
}

/// A request that no candidate meets is refused: with a name, as that name
/// not found; with only an address, as that address not found.  And a
/// request some candidate meets is never refused as not found.
pub proof fn lemma_selection_not_found(
    cs: Seq<(Seq<char>, u32)>,
    name: Option<Seq<char>>,
    addr: Option<u32>,
)
    ensures
        (forall|j: int| 0 <= j < cs.len() ==> !wants(#[trigger] cs[j], name, addr)) ==> {
            &&& name matches Some(n) ==> selection_outcome(cs, name, addr)
                == SelectionOutcome::InterfaceNotFound(n)
            &&& (name is None && addr is Some) ==> selection_outcome(cs, name, addr)
                == SelectionOutcome::AddressNotFound(addr->0)
        },
        (exists|j: int| 0 <= j < cs.len() && wants(#[trigger] cs[j], name, addr)) ==> !(
        selection_outcome(cs, name, addr) is InterfaceNotFound) && !(selection_outcome(
            cs,
            name,
            addr,
        ) is AddressNotFound),
{
    if forall|j: int| 0 <= j < cs.len() ==> !wants(#[trigger] cs[j], name, addr) {
        lemma_matching_none(cs, name, addr);
    }
    if exists|j: int| 0 <= j < cs.len() && wants(#[trigger] cs[j], name, addr) {
        let j = choose|j: int| 0 <= j < cs.len() && wants(#[trigger] cs[j], name, addr);
        lemma_matching_has(cs, name, addr, j);
    }
}

/// A candidate that has what was requested is kept by the filters.
proof fn lemma_matching_has(cs: Seq<(Seq<char>, u32)>, name: Option<Seq<char>>, addr: Option<u32>, j: int)
    requires
        0 <= j < cs.len(),
        wants(cs[j], name, addr),
    ensures
        matching(cs, name, addr).len() > 0,
    decreases cs.len(),
{
    if j < cs.len() - 1 {
        let d = cs.drop_last();
        assert(d[j] == cs[j]);
        lemma_matching_has(d, name, addr, j);
    }
}

/// Every candidate `lan_only` keeps is on 192.168.10.0/24 and among the
/// given ones.
proof fn lemma_lan_only_sound(cs: Seq<(Seq<char>, u32)>)
    ensures
        forall|k: int|
            0 <= k < lan_only(cs).len() ==> cs.contains(#[trigger] lan_only(cs)[k]) && is_kaonic_lan(
                lan_only(cs)[k].1,
            ),
    decreases cs.len(),
{
    if cs.len() > 0 {
        let d = cs.drop_last();
        lemma_lan_only_sound(d);
        let l = lan_only(cs);
        let r = lan_only(d);
        assert forall|k: int| 0 <= k < l.len() implies cs.contains(#[trigger] l[k]) && is_kaonic_lan(
            l[k].1,
        ) by {
            if k < r.len() {
                assert(l[k] == r[k]);
                let j = choose|j: int| 0 <= j < d.len() && d[j] == r[k];
                assert(cs[j] == d[j]);
            } else {
                assert(l[k] == cs.last());
                assert(cs[cs.len() - 1] == cs.last());
            }
        }
    }
}

/// The outcome a result stands for.
pub open spec fn result_outcome(r: Result<LocalInterface, InterfaceSelectionError>) -> SelectionOutcome {
    match r {
        Ok(i) => SelectionOutcome::Chosen(i.name@, i.addr),
        Err(InterfaceSelectionError::NoUsableInterfaces) => SelectionOutcome::NoUsableInterfaces,
        Err(InterfaceSelectionError::NoAutomaticAtakInterface) => {
            SelectionOutcome::NoAutomaticAtakInterface
        },
        Err(InterfaceSelectionError::InterfaceNotFound(n)) => SelectionOutcome::InterfaceNotFound(
            n@,
        ),
        Err(InterfaceSelectionError::AddressNotFound(a)) => SelectionOutcome::AddressNotFound(a),
        Err(InterfaceSelectionError::AmbiguousInterface(d)) => SelectionOutcome::AmbiguousInterface(
            d@,
        ),
    }
}

/// The dotted-quad text of an address.
pub fn format_ipv4(a: u32) -> (r: String)
    ensures
        r@ == ipv4_text(a),
{
    let mut out: Vec<char> = Vec::new();
    push_decimal(&mut out, (a / 0x100_0000) as u64);
    out.push('.');
    push_decimal(&mut out, ((a / 0x1_0000) % 256) as u64);
    out.push('.');
    push_decimal(&mut out, ((a / 0x100) % 256) as u64);
    out.push('.');
    push_decimal(&mut out, (a % 256) as u64);
    proof {
        reveal_strlit(".");
    }
    assert(out@ =~= ipv4_text(a));
    chars_to_string(&out)
}

fn copy_candidate(c: &InterfaceCandidate) -> (r: InterfaceCandidate)
    ensures
        cand_view(r) == cand_view(*c),
{
    InterfaceCandidate { name: c.name.clone(), addr: c.addr }
}

fn describe_candidates(cs: &Vec<InterfaceCandidate>) -> (r: String)
    ensures
        r@ == describe(cands_view(cs@)),
{
    let mut out: Vec<char> = Vec::new();
    let mut i: usize = 0;
    while i < cs.len()
        invariant
            i <= cs.len(),
            out@ == describe(cands_view(cs@.take(i as int))),
        decreases cs.len() - i,
    {
        if i > 0 {
            extend_str(&mut out, ", ");
        }
        extend_str(&mut out, cs[i].name.as_str());
        out.push('=');
        let a = format_ipv4(cs[i].addr);
        extend_str(&mut out, a.as_str());
        proof {
            reveal_strlit("=");
            reveal_strlit(", ");
            let t = cands_view(cs@.take(i + 1));
            assert(t.drop_last() =~= cands_view(cs@.take(i as int)));
            assert(t.last() == cand_view(cs@[i as int]));
            if i == 0 {
                assert(t[0] == t.last());
            }
        }
        assert(out@ =~= describe(cands_view(cs@.take(i + 1))));
        i += 1;
    }
    assert(cs@.take(cs.len() as int) =~= cs@);
    chars_to_string(&out)
}

fn one_candidate(m: Vec<InterfaceCandidate>, context: &str) -> (r: Result<
    LocalInterface,
    InterfaceSelectionError,
>)
    ensures
        result_outcome(r) == one_of(cands_view(m@), context@),
{
    if m.len() == 0 {
        Err(InterfaceSelectionError::NoUsableInterfaces)
    } else if m.len() == 1 {
        assert(cands_view(m@)[0] == cand_view(m@[0]));
        Ok(LocalInterface { name: m[0].name.clone(), addr: m[0].addr })
    } else {
        let mut out: Vec<char> = Vec::new();
        extend_str(&mut out, context);
        extend_str(&mut out, " matched ");
        let d = describe_candidates(&m);
        extend_str(&mut out, d.as_str());
        Err(InterfaceSelectionError::AmbiguousInterface(chars_to_string(&out)))
    }
}

fn auto_detect(m: Vec<InterfaceCandidate>) -> (r: Result<LocalInterface, InterfaceSelectionError>)
    ensures
        result_outcome(r) == auto_of(cands_view(m@)),
{
    if m.len() == 0 {
        return Err(InterfaceSelectionError::NoUsableInterfaces);
    }
    let mut lan: Vec<InterfaceCandidate> = Vec::new();
    let mut i: usize = 0;
    while i < m.len()
        invariant
            i <= m.len(),
            cands_view(lan@) == lan_only(cands_view(m@.take(i as int))),
        decreases m.len() - i,
    {
        let ghost before = lan@;
        if m[i].addr / 0x100 == 0xC0A80A {
            lan.push(copy_candidate(&m[i]));
            assert(cands_view(lan@) =~= cands_view(before).push(cand_view(m@[i as int])));
        }
        assert(cands_view(m@.take(i + 1)).drop_last() =~= cands_view(m@.take(i as int)));
        assert(cands_view(m@.take(i + 1)).last() == cand_view(m@[i as int]));
        i += 1;
    }
    assert(m@.take(m.len() as int) =~= m@);
    if lan.len() == 1 {
        assert(cands_view(lan@)[0] == cand_view(lan@[0]));
        Ok(LocalInterface { name: lan[0].name.clone(), addr: lan[0].addr })
    } else if lan.len() == 0 {
        Err(InterfaceSelectionError::NoAutomaticAtakInterface)
    } else {
        let mut out: Vec<char> = Vec::new();
        extend_str(&mut out, "multiple 192.168.10.0/24 candidates: ");
        let d = describe_candidates(&lan);
        extend_str(&mut out, d.as_str());
        Err(InterfaceSelectionError::AmbiguousInterface(chars_to_string(&out)))
    }
}

/// Chooses the ATAK-facing interface among the candidates.
pub fn select_local_interface(
    candidates: &Vec<InterfaceCandidate>,
    selection: &InterfaceSelection,
) -> (r: Result<LocalInterface, InterfaceSelectionError>)
    ensures
        result_outcome(r) == selection_outcome(
            cands_view(candidates@),
            opt_view(selection.interface_name),
            selection.local_addr,
        ),
{
    let ghost name = opt_view(selection.interface_name);
    let ghost addr = selection.local_addr;
    let mut m: Vec<InterfaceCandidate> = Vec::new();
    let mut i: usize = 0;
    while i < candidates.len()
        invariant
            i <= candidates.len(),
            name == opt_view(selection.interface_name),
            addr == selection.local_addr,
            cands_view(m@) == matching(cands_view(candidates@.take(i as int)), name, addr),
        decreases candidates.len() - i,
    {
        let c = &candidates[i];
        let name_ok = match &selection.interface_name {
            Some(n) => c.name == *n,
            None => true,
        };
        let addr_ok = match selection.local_addr {
            Some(a) => c.addr == a,
            None => true,
        };
        let ghost before = m@;
        if name_ok && addr_ok {
            m.push(copy_candidate(c));
            assert(cands_view(m@) =~= cands_view(before).push(cand_view(candidates@[i as int])));
        }
        assert(cands_view(candidates@.take(i + 1)).drop_last() =~= cands_view(
            candidates@.take(i as int),
        ));
        assert(cands_view(candidates@.take(i + 1)).last() == cand_view(candidates@[i as int]));
        i += 1;
    }
    assert(candidates@.take(candidates.len() as int) =~= candidates@);
    if let Some(n) = &selection.interface_name {
        if m.len() == 0 {
            return Err(InterfaceSelectionError::InterfaceNotFound(n.clone()));
        }
    }
    if let Some(a) = selection.local_addr {
        if m.len() == 0 {
            return Err(InterfaceSelectionError::AddressNotFound(a));
        }
    }
    match (selection.interface_name.is_some(), selection.local_addr.is_some()) {
        (true, true) => one_candidate(m, "explicit interface/address"),
        (true, false) => one_candidate(m, "explicit interface"),
        (false, true) => one_candidate(m, "explicit address"),
        (false, false) => {
            proof {
                lemma_matching_all(cands_view(candidates@));
            }
            auto_detect(m)
        },
    }
}

proof fn lemma_matching_all(cs: Seq<(Seq<char>, u32)>)
    ensures
        matching(cs, None, None) == cs,
    decreases cs.len(),
{
    if cs.len() > 0 {
        lemma_matching_all(cs.drop_last());
        assert(cs.drop_last().push(cs.last()) =~= cs);
    }
}

/// Without an explicit request, an interface is chosen exactly when one
/// candidate lies on 192.168.10.0/24, and then it is that one.
pub proof fn lemma_auto_selection(cs: Seq<(Seq<char>, u32)>)
    ensures
        (selection_outcome(cs, None, None) is Chosen) <==> lan_only(cs).len() == 1,
        lan_only(cs).len() == 1 ==> selection_outcome(cs, None, None) == SelectionOutcome::Chosen(
            lan_only(cs)[0].0,
            lan_only(cs)[0].1,
        ),
{
    lemma_matching_all(cs);
    lemma_lan_only_len(cs);
}

proof fn lemma_lan_only_len(cs: Seq<(Seq<char>, u32)>)
    ensures
        lan_only(cs).len() <= cs.len(),
    decreases cs.len(),
{
    if cs.len() > 0 {
        lemma_lan_only_len(cs.drop_last());
    }
}

impl InterfaceSelectionError {
    /// The human-readable description of the error.
    pub fn message(&self) -> (s: String)
        ensures
            s@ == selection_error_text(*self),
    {
        let mut out: Vec<char> = Vec::new();
        match self {
            InterfaceSelectionError::NoUsableInterfaces => {
                extend_str(&mut out, "no non-loopback IPv4 interfaces found");
            },
            InterfaceSelectionError::NoAutomaticAtakInterface => {
                extend_str(
                    &mut out,
                    "no unambiguous 192.168.10.0/24 ATAK interface found; configure KAONIC_ATAK_INTERFACE_IP or --local-address explicitly",
                );
            },
            InterfaceSelectionError::InterfaceNotFound(name) => {
                extend_str(&mut out, "interface '");
                extend_str(&mut out, name.as_str());
                extend_str(&mut out, "' was not found");
            },
            InterfaceSelectionError::AddressNotFound(a) => {
                extend_str(&mut out, "local address ");
                let t = format_ipv4(*a);
                extend_str(&mut out, t.as_str());
                extend_str(&mut out, " was not found");
            },
            InterfaceSelectionError::AmbiguousInterface(detail) => {
                extend_str(&mut out, "local ATAK interface selection is ambiguous: ");
                extend_str(&mut out, detail.as_str());
            },
        }
        chars_to_string(&out)
    }
}

/// The description of each error.
pub open spec fn selection_error_text(e: InterfaceSelectionError) -> Seq<char> {
    match e {
        InterfaceSelectionError::NoUsableInterfaces => "no non-loopback IPv4 interfaces found"@,
        InterfaceSelectionError::NoAutomaticAtakInterface =>
            "no unambiguous 192.168.10.0/24 ATAK interface found; configure KAONIC_ATAK_INTERFACE_IP or --local-address explicitly"@,
        InterfaceSelectionError::InterfaceNotFound(name) => "interface '"@ + name@
            + "' was not found"@,
        InterfaceSelectionError::AddressNotFound(a) => "local address "@ + ipv4_text(a)
            + " was not found"@,
        InterfaceSelectionError::AmbiguousInterface(d) =>
            "local ATAK interface selection is ambiguous: "@ + d@,
    }
}

} // verus!
