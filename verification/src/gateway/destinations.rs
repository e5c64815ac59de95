//! The destination tables of the Reticulum page: the destinations this
//! gateway serves, and the remote destinations it has links with, one row
//! per destination in the order of their hashes.

use vstd::prelude::*;

use crate::text::{
    chars_eq_str, chars_to_string, extend_str, lemma_text_less_total, lemma_text_less_transitive,
    str_chars, str_less, strings_view, text_less,
};
use crate::vpn::types::VpnSnapshot;

verus! {

/// A link of the Reticulum stack: the remote destination and its state.
#[derive(Debug, Clone)]
pub struct ReticulumLink {
    pub destination: String,
    pub status: String,
}

/// A destination that this gateway serves.
#[derive(Debug, Clone)]
pub struct LocalDestinationRow {
    pub name: String,
    pub destination: String,
    pub kind: String,
    pub status: String,
}

/// A remote destination with open links.
#[derive(Debug, Clone)]
pub struct DestinationRow {
    pub destination: String,
    pub source: String,
    pub status: String,
}

/// Whether a link in `links` leads to `d`.
pub open spec fn links_reach(links: Seq<ReticulumLink>, d: Seq<char>) -> bool {
    exists|i: int| 0 <= i < links.len() && (#[trigger] links[i]).destination@ == d
}

/// `acc` with `status` added at its end, unless it is empty or already
/// there.
pub open spec fn add_status(acc: Seq<Seq<char>>, status: Seq<char>) -> Seq<Seq<char>> {
    if status.len() == 0 || acc.contains(status) {
        acc
    } else {
        acc.push(status)
    }
}

/// `acc` with the states of the links to `d` added in their order.
pub open spec fn statuses_of(acc: Seq<Seq<char>>, links: Seq<ReticulumLink>, d: Seq<char>) -> Seq<
    Seq<char>,
>
    decreases links.len(),
{
    if links.len() == 0 {
        acc
    } else {
        let prev = statuses_of(acc, links.drop_last(), d);
        if links.last().destination@ == d {
            add_status(prev, links.last().status@)
        } else {
            prev
        }
    }
}

/// The parts joined with `", "`.
pub open spec fn comma_joined(parts: Seq<Seq<char>>) -> Seq<char>
    decreases parts.len(),
{
    if parts.len() == 0 {
        Seq::empty()
    } else if parts.len() == 1 {
        parts[0]
    } else {
        comma_joined(parts.drop_last()) + ", "@ + parts.last()
    }
}

/// The parts joined with `", "`, or a dash when there are none.
pub open spec fn listed_or_dash(parts: Seq<Seq<char>>) -> Seq<char> {
    if parts.len() == 0 {
        "—"@
    } else {
        comma_joined(parts)
    }
}

/// The kinds of links that lead to `d`: incoming first, then outgoing.
pub open spec fn sources_of(
    incoming: Seq<ReticulumLink>,
    outgoing: Seq<ReticulumLink>,
    d: Seq<char>,
) -> Seq<Seq<char>> {
    (if links_reach(incoming, d) {
        seq!["incoming link"@]
    } else {
        Seq::empty()
    }) + (if links_reach(outgoing, d) {
        seq!["outgoing link"@]
    } else {
        Seq::empty()
    })
}

/// The row of the open destination `d`: its link kinds and the distinct
/// states of its links, incoming links first.
pub open spec fn open_row(
    incoming: Seq<ReticulumLink>,
    outgoing: Seq<ReticulumLink>,
    d: Seq<char>,
) -> (Seq<char>, Seq<char>, Seq<char>) {
    (
        d,
        listed_or_dash(sources_of(incoming, outgoing, d)),
        listed_or_dash(statuses_of(statuses_of(Seq::empty(), incoming, d), outgoing, d)),
    )
}

/// Texts in strictly increasing order.
pub open spec fn strictly_sorted(v: Seq<Seq<char>>) -> bool {
    forall|i: int, j: int| 0 <= i < j < v.len() ==> text_less(#[trigger] v[i], #[trigger] v[j])
}

fn str_eq(a: &str, b: &str) -> (r: bool)
    ensures
        r == (a@ == b@),
{
    chars_eq_str(&str_chars(a), b)
}

/// Adds `d` to the sorted keys unless it is there.
fn insert_key(keys: &mut Vec<String>, d: &str)
    requires
        strictly_sorted(strings_view(old(keys)@)),
    ensures
        strictly_sorted(strings_view(final(keys)@)),
        forall|x: Seq<char>|
            #![trigger strings_view(final(keys)@).contains(x)]
            strings_view(final(keys)@).contains(x) <==> (strings_view(old(keys)@).contains(x)
                || x == d@),
{
    let ghost old_v = strings_view(keys@);
    let mut p: usize = 0;
    while p < keys.len() && str_less(keys[p].as_str(), d)
        invariant
            p <= keys.len(),
            strings_view(keys@) == old_v,
            strictly_sorted(old_v),
            forall|i: int| 0 <= i < p ==> text_less(#[trigger] old_v[i], d@),
        decreases keys.len() - p,
    {
        p += 1;
    }
    if p < keys.len() && str_eq(keys[p].as_str(), d) {
        assert(old_v[p as int] == d@);
        return;
    }
    proof {
        if p < keys.len() {
            lemma_text_less_total(old_v[p as int], d@);
        }
    }
    keys.insert(p, d.to_owned());
    let ghost new_v = strings_view(keys@);
    assert(new_v =~= old_v.insert(p as int, d@));
    assert forall|i: int, j: int| 0 <= i < j < new_v.len() implies text_less(
        #[trigger] new_v[i],
        #[trigger] new_v[j],
    ) by {
        if j > p {
            assert(text_less(d@, old_v[p as int]));
            if j > p + 1 {
                lemma_text_less_transitive(d@, old_v[p as int], old_v[j - 1]);
            }
            assert(text_less(d@, new_v[j]));
            if i < p {
                lemma_text_less_transitive(new_v[i], d@, new_v[j]);
            } else if i > p {
                assert(text_less(old_v[i - 1], old_v[j - 1]));
            }
        } else if j < p {
            assert(text_less(old_v[i], old_v[j]));
        }
    }
    assert forall|x: Seq<char>|
        new_v.contains(x) <==> (old_v.contains(x) || x == d@) by {
        if new_v.contains(x) {
            let k = choose|k: int| 0 <= k < new_v.len() && new_v[k] == x;
            if k < p {
                assert(old_v[k] == x);
            } else if k > p {
                assert(old_v[k - 1] == x);
            }
        }
        if old_v.contains(x) {
            let k = choose|k: int| 0 <= k < old_v.len() && old_v[k] == x;
            if k < p {
                assert(new_v[k] == x);
            } else {
                assert(new_v[k + 1] == x);
            }
        }
        if x == d@ {
            assert(new_v[p as int] == x);
        }
    }
}

/// Adds the destinations of `links` to the sorted keys.
fn insert_link_keys(keys: &mut Vec<String>, links: &Vec<ReticulumLink>)
    requires
        strictly_sorted(strings_view(old(keys)@)),
    ensures
        strictly_sorted(strings_view(final(keys)@)),
        forall|x: Seq<char>|
            #![trigger strings_view(final(keys)@).contains(x)]
            strings_view(final(keys)@).contains(x) <==> (strings_view(old(keys)@).contains(x)
                || links_reach(links@, x)),
{
    let ghost start = strings_view(keys@);
    let mut i: usize = 0;
    while i < links.len()
        invariant
            i <= links.len(),
            start == strings_view(old(keys)@),
            strictly_sorted(strings_view(keys@)),
            forall|x: Seq<char>|
                strings_view(keys@).contains(x) <==> (start.contains(x) || links_reach(
                    links@.take(i as int),
                    x,
                )),
        decreases links.len() - i,
    {
        let ghost before = strings_view(keys@);
        insert_key(keys, links[i].destination.as_str());
        let ghost j = i as int;
        i += 1;
        assert forall|x: Seq<char>|
            strings_view(keys@).contains(x) <==> (start.contains(x) || links_reach(
                links@.take(i as int),
                x,
            )) by {
            let prev = links@.take(j);
            let next = links@.take(i as int);
            assert(before.contains(x) <==> (start.contains(x) || links_reach(prev, x)));
            assert(strings_view(keys@).contains(x) <==> (before.contains(x) || x
                == links@[j].destination@));
            if links_reach(next, x) {
                let k = choose|k: int| 0 <= k < next.len() && (#[trigger] next[k]).destination@ == x;
                if k < j {
                    assert(prev[k] == next[k]);
                    assert(links_reach(prev, x));
                } else {
                    assert(next[k] == links@[j]);
                }
            }
            if links_reach(prev, x) {
                let k = choose|k: int| 0 <= k < prev.len() && (#[trigger] prev[k]).destination@ == x;
                assert(next[k] == prev[k]);
                assert(links_reach(next, x));
            }
            if x == links@[j].destination@ {
                assert(next[j] == links@[j]);
                assert(links_reach(next, x));
            }
        }
    }
    assert(links@.take(i as int) =~= links@);
    assert forall|x: Seq<char>|
        #![trigger strings_view(keys@).contains(x)]
        strings_view(keys@).contains(x) <==> (strings_view(old(keys)@).contains(x) || links_reach(
            links@,
            x,
        )) by {
        assert(strings_view(keys@).contains(x) <==> (start.contains(x) || links_reach(
            links@.take(i as int),
            x,
        )));
    }
}

/// Whether a link in `links` leads to `d`.
fn reaches(links: &Vec<ReticulumLink>, d: &str) -> (r: bool)
    ensures
        r == links_reach(links@, d@),
{
    let mut i: usize = 0;
    while i < links.len()
        invariant
            i <= links.len(),
            forall|k: int| 0 <= k < i ==> (#[trigger] links@[k]).destination@ != d@,
        decreases links.len() - i,
    {
        if str_eq(links[i].destination.as_str(), d) {
            return true;
        }
        i += 1;
    }
    false
}

fn contains_text(v: &Vec<String>, s: &str) -> (r: bool)
    ensures
        r == strings_view(v@).contains(s@),
{
    let mut i: usize = 0;
    while i < v.len()
        invariant
            i <= v.len(),
            forall|k: int| 0 <= k < i ==> (#[trigger] v@[k])@ != s@,
        decreases v.len() - i,
    {
        if str_eq(v[i].as_str(), s) {
            assert(strings_view(v@)[i as int] == s@);
            return true;
        }
        i += 1;
    }
    false
}

/// Adds the states of the links to `d`, in order, to `acc`.
fn add_statuses(acc: &mut Vec<String>, links: &Vec<ReticulumLink>, d: &str)
    ensures
        strings_view(final(acc)@) == statuses_of(strings_view(old(acc)@), links@, d@),
{
    let ghost start = strings_view(acc@);
    let mut i: usize = 0;
    while i < links.len()
        invariant
            i <= links.len(),
            strings_view(acc@) == statuses_of(start, links@.take(i as int), d@),
        decreases links.len() - i,
    {
        let ghost before = strings_view(acc@);
        assert(links@.take(i + 1).drop_last() =~= links@.take(i as int));
        let link = &links[i];
        if str_eq(link.destination.as_str(), d) {
            if !link.status.as_str().is_empty() && !contains_text(acc, link.status.as_str()) {
                acc.push(link.status.clone());
                assert(strings_view(acc@) =~= before.push(link.status@));
            } else {
                proof {
                    if link.status@.len() > 0 {
                        assert(link.status@.len() == 0 || before.contains(link.status@));
                    }
                }
            }
        }
        i += 1;
    }
    assert(links@.take(links.len() as int) =~= links@);
}

/// The parts joined with `", "`, or a dash when there are none.
fn join_or_dash(parts: &Vec<String>) -> (r: String)
    ensures
        r@ == listed_or_dash(strings_view(parts@)),
{
    if parts.len() == 0 {
        return "—".to_owned();
    }
    let mut out: Vec<char> = Vec::new();
    let mut i: usize = 0;
    while i < parts.len()
        invariant
            0 < parts.len(),
            i <= parts.len(),
            i > 0 ==> out@ == comma_joined(strings_view(parts@).take(i as int)),
            i == 0 ==> out@.len() == 0,
        decreases parts.len() - i,
    {
        if i > 0 {
            extend_str(&mut out, ", ");
        }
        extend_str(&mut out, parts[i].as_str());
        proof {
            let t = strings_view(parts@).take(i + 1);
            assert(t.drop_last() =~= strings_view(parts@).take(i as int));
            assert(t.last() == parts@[i as int]@);
            if i == 0 {
                assert(t.len() == 1);
                assert(out@ =~= t[0]);
            } else {
                assert(out@ =~= comma_joined(t.drop_last()) + ", "@ + t.last());
            }
        }
        i += 1;
    }
    assert(strings_view(parts@).take(parts.len() as int) =~= strings_view(parts@));
    chars_to_string(&out)
}

/// The remote destinations with open links, one row each in the order of
/// their hashes: whether the links are incoming, outgoing or both, and the
/// distinct states of the links, those of incoming links first.
pub fn collect_open_destinations(
    incoming: &Vec<ReticulumLink>,
    outgoing: &Vec<ReticulumLink>,
) -> (r: Vec<DestinationRow>)
    ensures
        strictly_sorted(r@.map_values(|row: DestinationRow| row.destination@)),
        forall|d: Seq<char>|
            r@.map_values(|row: DestinationRow| row.destination@).contains(d) <==> (links_reach(
                incoming@,
                d,
            ) || links_reach(outgoing@, d)),
        forall|i: int|
            0 <= i < r.len() ==> ((#[trigger] r@[i]).destination@, r@[i].source@, r@[i].status@)
                == open_row(incoming@, outgoing@, r@[i].destination@),
{
    let mut keys: Vec<String> = Vec::new();
    let ghost k0 = strings_view(keys@);
    assert(k0 =~= Seq::<Seq<char>>::empty());
    insert_link_keys(&mut keys, incoming);
    let ghost k1 = strings_view(keys@);
    insert_link_keys(&mut keys, outgoing);
    let ghost kv = strings_view(keys@);
    assert forall|d: Seq<char>|
        kv.contains(d) <==> (links_reach(incoming@, d) || links_reach(outgoing@, d)) by {
        assert(kv.contains(d) <==> (k1.contains(d) || links_reach(outgoing@, d)));
        assert(k1.contains(d) <==> (k0.contains(d) || links_reach(incoming@, d)));
        assert(!k0.contains(d));
    }
    let mut rows: Vec<DestinationRow> = Vec::new();
    let mut i: usize = 0;
    while i < keys.len()
        invariant
            i <= keys.len(),
            kv == strings_view(keys@),
            forall|d: Seq<char>|
                kv.contains(d) <==> (links_reach(incoming@, d) || links_reach(outgoing@, d)),
            strictly_sorted(kv),
            rows.len() == i,
            forall|k: int| 0 <= k < i ==> (#[trigger] rows@[k]).destination@ == kv[k],
            forall|k: int|
                0 <= k < i ==> ((#[trigger] rows@[k]).destination@, rows@[k].source@, rows@[k].status@)
                    == open_row(incoming@, outgoing@, rows@[k].destination@),
        decreases keys.len() - i,
    {
        let d = keys[i].as_str();
        let mut sources: Vec<String> = Vec::new();
        let inc = reaches(incoming, d);
        let out = reaches(outgoing, d);
        if inc {
            sources.push("incoming link".to_owned());
        }
        if out {
            sources.push("outgoing link".to_owned());
        }
        assert(strings_view(sources@) =~= sources_of(incoming@, outgoing@, d@));
        let mut statuses: Vec<String> = Vec::new();
        assert(strings_view(statuses@) =~= Seq::<Seq<char>>::empty());
        add_statuses(&mut statuses, incoming, d);
        add_statuses(&mut statuses, outgoing, d);
        let row = DestinationRow {
            destination: keys[i].clone(),
            source: join_or_dash(&sources),
            status: join_or_dash(&statuses),
        };
        rows.push(row);
        i += 1;
    }
    let ghost rv = rows@.map_values(|row: DestinationRow| row.destination@);
    assert(rv =~= kv);
    assert forall|d: Seq<char>|
        rv.contains(d) <==> (links_reach(incoming@, d) || links_reach(outgoing@, d)) by {
        assert(kv.contains(d) <==> (links_reach(incoming@, d) || links_reach(outgoing@, d)));
    }
    rows
}

/// The destinations this gateway serves: the VPN's, when it has one.
pub fn collect_local_destinations(vpn: &VpnSnapshot) -> (r: Vec<LocalDestinationRow>)
    ensures
        vpn.destination_hash@.len() == 0 ==> r.len() == 0,
        vpn.destination_hash@.len() > 0 ==> r.len() == 1 && r@[0].name@ == "kaonic.vpn"@
            && r@[0].destination@ == vpn.destination_hash@ && r@[0].kind@ == "VPN"@
            && r@[0].status@ == vpn.status@,
{
    let mut rows: Vec<LocalDestinationRow> = Vec::new();
    if !vpn.destination_hash.as_str().is_empty() {
        rows.push(
            LocalDestinationRow {
                name: "kaonic.vpn".to_owned(),
                destination: vpn.destination_hash.clone(),
                kind: "VPN".to_owned(),
                status: vpn.status.clone(),
            },
        );
    }
    rows
}

} // verus!
