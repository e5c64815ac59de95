//! What the gateway's pages show: compact hashes, times, status classes,
//! route descriptions, shortcut links and QR codes.

use vstd::prelude::*;

use crate::gateway::audio::AudioControlSnapshot;
use crate::vpn::types::VpnRouteSnapshot;

use crate::text::{opt_view, strings_view, 
    chars_eq_str, chars_to_bytes, chars_to_string, copy_range, decimal, extend_chars, extend_str,
    find, find_chars, is_ws, is_ws_char, lemma_find_from_bounds, lower_all, lower_chars,
    push_decimal, split, split_chars, str_chars, trim, trim_chars, views, words, words_chars,
};

verus! {

/// The characters of a text that are not whitespace, in order.
pub open spec fn compact(s: Seq<char>) -> Seq<char>
    decreases s.len(),
{
    if s.len() == 0 {
        s
    } else if is_ws(s.last()) {
        compact(s.drop_last())
    } else {
        compact(s.drop_last()).push(s.last())
    }
}

fn compact_chars(s: &Vec<char>) -> (r: Vec<char>)
    ensures
        r@ == compact(s@),
{
    let mut out: Vec<char> = Vec::new();
    let mut i: usize = 0;
    while i < s.len()
        invariant
            i <= s.len(),
            out@ == compact(s@.take(i as int)),
        decreases s.len() - i,
    {
        assert(s@.take(i + 1).drop_last() =~= s@.take(i as int));
        if !is_ws_char(s[i]) {
            out.push(s[i]);
        }
        i += 1;
    }
    assert(s@.take(s.len() as int) =~= s@);
    out
}

/// A hash can be shortened: its compact form is at most 16 bytes long or
/// has a character boundary at byte 16.
pub open spec fn shortenable(hash: Seq<char>) -> bool {
    let c = compact(hash);
    vstd::utf8::encode_utf8(c).len() <= 16 || exists|k: int|
        0 <= k <= c.len() && #[trigger] vstd::utf8::encode_utf8(c.take(k)).len() == 16
}

/// A hash without whitespace, cut to its first 16 bytes and marked with
/// `…` when longer.
pub open spec fn truncated_hash(hash: Seq<char>) -> Seq<char> {
    let c = compact(hash);
    if vstd::utf8::encode_utf8(c).len() > 16 {
        let k = choose|k: int|
            0 <= k <= c.len() && #[trigger] vstd::utf8::encode_utf8(c.take(k)).len() == 16;
        c.take(k) + seq!['…']
    } else {
        c
    }
}

/// Shortens a hash for display.
pub fn truncate_hash(hash: &str) -> (r: String)
    requires
        shortenable(hash@),
    ensures
        r@ == truncated_hash(hash@),
{
    let c = compact_chars(&str_chars(hash));
    if chars_to_bytes(&c).len() <= 16 {
        return chars_to_string(&c);
    }
    let mut k: usize = 0;
    while k <= c.len()
        invariant
            k <= c.len() + 1,
            c@ == compact(hash@),
            vstd::utf8::encode_utf8(c@).len() > 16,
            shortenable(hash@),
            forall|j: int| 0 <= j < k ==> #[trigger] vstd::utf8::encode_utf8(c@.take(j)).len()
                != 16,
        decreases c.len() + 1 - k,
    {
        let prefix = copy_range(&c, 0, k);
        assert(prefix@ =~= c@.take(k as int));
        if chars_to_bytes(&prefix).len() == 16 {
            proof {
                let k0 = choose|j: int|
                    0 <= j <= c@.len() && #[trigger] vstd::utf8::encode_utf8(c@.take(j)).len()
                        == 16;
                lemma_utf8_prefix_lengths_unique(c@, k as int, k0);
            }
            let mut out = prefix;
            out.push('…');
            return chars_to_string(&out);
        }
        k += 1;
    }
    proof {
        let k0 = choose|j: int|
            0 <= j <= c@.len() && #[trigger] vstd::utf8::encode_utf8(c@.take(j)).len() == 16;
        assert(vstd::utf8::encode_utf8(c@.take(k0)).len() != 16);
    }
    chars_to_string(&c)
}

/// The encoded length of a prefix grows strictly with the prefix.
proof fn lemma_utf8_prefix_strict(s: Seq<char>, a: int, b: int)
    requires
        0 <= a < b <= s.len(),
    ensures
        vstd::utf8::encode_utf8(s.take(a)).len() < vstd::utf8::encode_utf8(s.take(b)).len(),
    decreases b - a,
{
    lemma_utf8_push(s.take(b - 1), s[b - 1]);
    assert(s.take(b - 1).push(s[b - 1]) =~= s.take(b));
    if a < b - 1 {
        lemma_utf8_prefix_strict(s, a, b - 1);
    } else {
        assert(s.take(a) =~= s.take(b - 1));
    }
}

proof fn lemma_utf8_concat(a: Seq<char>, b: Seq<char>)
    ensures
        vstd::utf8::encode_utf8(a + b) == vstd::utf8::encode_utf8(a) + vstd::utf8::encode_utf8(b),
    decreases a.len(),
{
    if a.len() == 0 {
        assert(a + b =~= b);
        assert(vstd::utf8::encode_utf8(a) =~= Seq::<u8>::empty());
        assert(Seq::<u8>::empty() + vstd::utf8::encode_utf8(b) =~= vstd::utf8::encode_utf8(b));
    } else {
        lemma_utf8_concat(a.drop_first(), b);
        assert((a + b).drop_first() =~= a.drop_first() + b);
        assert((a + b)[0] == a[0]);
        assert(vstd::utf8::encode_scalar(a[0] as u32) + (vstd::utf8::encode_utf8(a.drop_first())
            + vstd::utf8::encode_utf8(b)) =~= (vstd::utf8::encode_scalar(a[0] as u32)
            + vstd::utf8::encode_utf8(a.drop_first())) + vstd::utf8::encode_utf8(b));
    }
}

proof fn lemma_utf8_push(s: Seq<char>, c: char)
    ensures
        vstd::utf8::encode_utf8(s.push(c)).len() > vstd::utf8::encode_utf8(s).len(),
{
    lemma_utf8_concat(s, seq![c]);
    assert(s + seq![c] =~= s.push(c));
    assert(seq![c].drop_first() =~= Seq::<char>::empty());
    assert(vstd::utf8::encode_scalar(c as u32).len() > 0);
}

proof fn lemma_utf8_prefix_lengths_unique(s: Seq<char>, a: int, b: int)
    requires
        0 <= a <= s.len(),
        0 <= b <= s.len(),
        vstd::utf8::encode_utf8(s.take(a)).len() == vstd::utf8::encode_utf8(s.take(b)).len(),
    ensures
        a == b,
        s.take(a) == s.take(b),
{
    if a < b {
        lemma_utf8_prefix_strict(s, a, b);
    } else if b < a {
        lemma_utf8_prefix_strict(s, b, a);
    }
}

/// Two decimal digits of `n < 100`.
pub open spec fn two_digits(n: nat) -> Seq<char> {
    seq![(48 + n / 10) as char, (48 + n % 10) as char]
}

fn push_two_digits(out: &mut Vec<char>, n: u64)
    requires
        n < 100,
    ensures
        final(out)@ == old(out)@ + two_digits(n as nat),
{
    out.push(((48 + n / 10) as u8) as char);
    out.push(((48 + n % 10) as u8) as char);
}

/// A timestamp's time of day, `HH:MM:SS UTC`, or `never` for 0.
pub open spec fn relative_time_text(ts: u64) -> Seq<char> {
    if ts == 0 {
        "never"@
    } else {
        let seconds = ts % 86_400;
        two_digits((seconds / 3_600) as nat) + ":"@ + two_digits(((seconds % 3_600) / 60) as nat)
            + ":"@ + two_digits((seconds % 60) as nat) + " UTC"@
    }
}

/// Shows a timestamp as its time of day.
pub fn format_relative_time(ts: u64) -> (r: String)
    ensures
        r@ == relative_time_text(ts),
{
    if ts == 0 {
        return "never".to_owned();
    }
    let seconds = ts % 86_400;
    let mut out: Vec<char> = Vec::new();
    push_two_digits(&mut out, seconds / 3_600);
    extend_str(&mut out, ":");
    push_two_digits(&mut out, (seconds % 3_600) / 60);
    extend_str(&mut out, ":");
    push_two_digits(&mut out, seconds % 60);
    extend_str(&mut out, " UTC");
    assert(out@ =~= relative_time_text(ts));
    chars_to_string(&out)
}

/// A status word, trimmed and lowercased.
pub open spec fn norm(v: Seq<char>) -> Seq<char> {
    lower_all(trim(v))
}

fn norm_chars(v: &str) -> (r: Vec<char>)
    ensures
        r@ == norm(v@),
{
    lower_chars(&trim_chars(&str_chars(v)))
}

fn is_any(v: &Vec<char>, a: &str, b: &str, c: &str, d: &str, e: &str) -> (r: bool)
    ensures
        r == (v@ == a@ || v@ == b@ || v@ == c@ || v@ == d@ || v@ == e@),
{
    chars_eq_str(v, a) || chars_eq_str(v, b) || chars_eq_str(v, c) || chars_eq_str(v, d)
        || chars_eq_str(v, e)
}

/// The badge class of a VPN state.
pub open spec fn vpn_badge(v: Seq<char>) -> Seq<char> {
    let n = norm(v);
    if n == "running"@ || n == "active"@ || n == "ready"@ || n == "installed"@ || n == "yes"@ {
        "badge-ok"@
    } else if n == "discovered"@ || n == "configured"@ || n == "pending"@ || n == "starting"@ {
        "badge-warn"@
    } else if n == "error"@ || n == "closed"@ || n == "failed"@ || n == "no"@ || n == "drop"@ {
        "badge-err"@
    } else {
        "reticulum-badge-soft"@
    }
}

/// The badge class of a VPN state.
pub fn vpn_badge_class(value: &str) -> (r: &'static str)
    ensures
        r@ == vpn_badge(value@),
{
    let n = norm_chars(value);
    if is_any(&n, "running", "active", "ready", "installed", "yes") {
        "badge-ok"
    } else if is_any(&n, "discovered", "configured", "pending", "starting", "starting") {
        "badge-warn"
    } else if is_any(&n, "error", "closed", "failed", "no", "drop") {
        "badge-err"
    } else {
        "reticulum-badge-soft"
    }
}

/// The status dot of the VPN service.
pub open spec fn status_dot(v: Seq<char>) -> Seq<char> {
    let n = norm(v);
    if n == "running"@ {
        "status-dot status-dot--ok"@
    } else if n == "error"@ {
        "status-dot status-dot--err"@
    } else if n == "mock"@ {
        "status-dot status-dot--idle"@
    } else {
        "status-dot status-dot--warn"@
    }
}

/// The status dot of the VPN service.
pub fn status_dot_class(status: &str) -> (r: &'static str)
    ensures
        r@ == status_dot(status@),
{
    let n = norm_chars(status);
    if chars_eq_str(&n, "running") {
        "status-dot status-dot--ok"
    } else if chars_eq_str(&n, "error") {
        "status-dot status-dot--err"
    } else if chars_eq_str(&n, "mock") {
        "status-dot status-dot--idle"
    } else {
        "status-dot status-dot--warn"
    }
}

/// The banner class of the VPN service.
pub open spec fn banner(v: Seq<char>) -> Seq<char> {
    let n = norm(v);
    if n == "running"@ {
        "vpn-banner vpn-banner--ok"@
    } else if n == "error"@ {
        "vpn-banner vpn-banner--err"@
    } else {
        "vpn-banner vpn-banner--idle"@
    }
}

/// The banner class of the VPN service.
pub fn banner_modifier(status: &str) -> (r: &'static str)
    ensures
        r@ == banner(status@),
{
    let n = norm_chars(status);
    if chars_eq_str(&n, "running") {
        "vpn-banner vpn-banner--ok"
    } else if chars_eq_str(&n, "error") {
        "vpn-banner vpn-banner--err"
    } else {
        "vpn-banner vpn-banner--idle"
    }
}

/// The status dot of a peer link.
pub open spec fn peer_dot(v: Seq<char>) -> Seq<char> {
    let n = norm(v);
    if n == "active"@ {
        "status-dot status-dot--ok"@
    } else if n == "pending"@ || n == "starting"@ || n == "configured"@ || n == "discovered"@ {
        "status-dot status-dot--warn"@
    } else if n == "closed"@ || n == "error"@ || n == "failed"@ {
        "status-dot status-dot--err"@
    } else {
        "status-dot status-dot--idle"@
    }
}

/// The status dot of a peer link.
pub fn peer_dot_class(link_state: &str) -> (r: &'static str)
    ensures
        r@ == peer_dot(link_state@),
{
    let n = norm_chars(link_state);
    if chars_eq_str(&n, "active") {
        "status-dot status-dot--ok"
    } else if is_any(&n, "pending", "starting", "configured", "discovered", "discovered") {
        "status-dot status-dot--warn"
    } else if is_any(&n, "closed", "error", "failed", "failed", "failed") {
        "status-dot status-dot--err"
    } else {
        "status-dot status-dot--idle"
    }
}

/// The badge class of a link or destination status.
pub open spec fn status_badge(v: Seq<char>) -> Seq<char> {
    let n = norm(v);
    if n == "active"@ || n == "ready"@ || n == "running"@ || n == "announce"@ || n == "open"@ {
        "badge-ok"@
    } else if n == "starting"@ || n == "discovered"@ || n == "configured"@ || n == "pending"@ {
        "badge-warn"@
    } else if n == "error"@ || n == "failed"@ || n == "closed"@ || n == "down"@ {
        "badge-err"@
    } else {
        "reticulum-badge-soft"@
    }
}

/// The badge class of a link or destination status.
pub fn status_badge_class(value: &str) -> (r: &'static str)
    ensures
        r@ == status_badge(value@),
{
    let n = norm_chars(value);
    if is_any(&n, "active", "ready", "running", "announce", "open") {
        "badge-ok"
    } else if is_any(&n, "starting", "discovered", "configured", "pending", "pending") {
        "badge-warn"
    } else if is_any(&n, "error", "failed", "closed", "down", "down") {
        "badge-err"
    } else {
        "reticulum-badge-soft"
    }
}

/// The badge class of where a destination was seen.
pub open spec fn source_badge(v: Seq<char>) -> Seq<char> {
    let n = norm(v);
    if n == "incoming link"@ {
        "reticulum-badge-source-in"@
    } else if n == "outgoing link"@ {
        "reticulum-badge-source-out"@
    } else if n == "announce"@ {
        "reticulum-badge-source-announce"@
    } else {
        "reticulum-badge-soft"@
    }
}

/// The badge class of where a destination was seen.
pub fn source_badge_class(value: &str) -> (r: &'static str)
    ensures
        r@ == source_badge(value@),
{
    let n = norm_chars(value);
    if chars_eq_str(&n, "incoming link") {
        "reticulum-badge-source-in"
    } else if chars_eq_str(&n, "outgoing link") {
        "reticulum-badge-source-out"
    } else if chars_eq_str(&n, "announce") {
        "reticulum-badge-source-announce"
    } else {
        "reticulum-badge-soft"
    }
}

/// The badge class of a destination's kind.
pub fn destination_kind_badge_class(value: &str) -> (r: &'static str)
    ensures
        r@ == (if norm(value@) == "vpn"@ {
            "reticulum-badge-kind-vpn"@
        } else {
            "reticulum-badge-soft"@
        }),
{
    let n = norm_chars(value);
    if chars_eq_str(&n, "vpn") {
        "reticulum-badge-kind-vpn"
    } else {
        "reticulum-badge-soft"
    }
}

/// A VPN route `alias/prefix -> local/prefix` as (alias, local network);
/// a route without ` -> ` is its own alias.
pub open spec fn route_display(route: Seq<char>) -> (Seq<char>, Option<Seq<char>>) {
    match find(route, " -> "@) {
        Some(i) => (trim(route.take(i)), Some(trim(route.skip(i + 4)))),
        None => (trim(route), None),
    }
}

/// Splits a VPN route for display.
pub fn parse_route_display(route: &str) -> (r: (String, Option<String>))
    ensures
        (r.0@, opt_view(r.1)) == route_display(route@),
{
    let c = str_chars(route);
    let arrow = str_chars(" -> ");
    proof {
        reveal_strlit(" -> ");
    }
    assert(arrow@.len() == 4);
    match find_chars(&c, &arrow) {
        Some(i) => {
            proof {
                lemma_find_from_bounds(c@, arrow@, 0);
            }
            assert(crate::text::occurs_at(c@, arrow@, i as int));
            let n = c.len();
            assert(i + 4 <= n);
            let a = copy_range(&c, 0, i);
            let b = copy_range(&c, i + 4, n);
            assert(a@ =~= c@.take(i as int));
            assert(b@ =~= c@.skip(i + 4));
            (chars_to_string(&trim_chars(&a)), Some(chars_to_string(&trim_chars(&b))))
        },
        None => (chars_to_string(&trim_chars(&c)), None),
    }
}

/// The test address of a `/24`-style route: `a.b.c.1` when the network
/// part is four dot-separated fields ending in `0`.
pub open spec fn test_ip_of(route: Seq<char>) -> Option<Seq<char>> {
    let network = trim(split(route, '/')[0]);
    let o = split(network, '.');
    if o.len() == 4 && o[3] == "0"@ {
        Some(o[0] + "."@ + o[1] + "."@ + o[2] + ".1"@)
    } else {
        None
    }
}

/// The address to test a route with.
pub fn serial_test_ip(route: &str) -> (r: Option<String>)
    ensures
        opt_view(r) == test_ip_of(route@),
{
    let parts = split_chars(&str_chars(route), '/');
    assert(views(parts@)[0] == parts@[0]@);
    let network = trim_chars(&parts[0]);
    let o = split_chars(&network, '.');
    let ghost ov = views(o@);
    if o.len() == 4 {
        assert(ov[0] == o@[0]@ && ov[1] == o@[1]@ && ov[2] == o@[2]@ && ov[3] == o@[3]@);
        if chars_eq_str(&o[3], "0") {
            let mut out: Vec<char> = Vec::new();
            extend_chars(&mut out, &o[0]);
            extend_str(&mut out, ".");
            extend_chars(&mut out, &o[1]);
            extend_str(&mut out, ".");
            extend_chars(&mut out, &o[2]);
            extend_str(&mut out, ".1");
            return Some(chars_to_string(&out));
        }
    }
    None
}

/// The peer count as shown: `1 peer`, `2 peers`.
pub open spec fn peer_count_label(count: nat) -> Seq<char> {
    decimal(count) + (if count == 1 {
        " peer"@
    } else {
        " peers"@
    })
}

/// The peer count as shown.
pub fn peer_count_text(count: usize) -> (r: String)
    ensures
        r@ == peer_count_label(count as nat),
{
    let mut out: Vec<char> = Vec::new();
    push_decimal(&mut out, count as u64);
    if count == 1 {
        extend_str(&mut out, " peer");
    } else {
        extend_str(&mut out, " peers");
    }
    chars_to_string(&out)
}

/// The badge of the VPN backend: the data badge on Linux, else the soft one.
pub fn backend_badge_class(backend: &str) -> (r: &'static str)
    ensures
        r@ == (if backend@ == "linux"@ {
            "badge reticulum-badge-kind-data"@
        } else {
            "badge reticulum-badge-soft"@
        }),
{
    if chars_eq_str(&str_chars(backend), "linux") {
        "badge reticulum-badge-kind-data"
    } else {
        "badge reticulum-badge-soft"
    }
}

/// The networks of the installed remote routes, in order.
pub open spec fn installed_networks(routes: Seq<VpnRouteSnapshot>) -> Seq<Seq<char>>
    decreases routes.len(),
{
    if routes.len() == 0 {
        Seq::empty()
    } else {
        let rest = installed_networks(routes.drop_last());
        if routes.last().installed {
            rest.push(routes.last().network@)
        } else {
            rest
        }
    }
}

/// The networks of the installed remote routes, as the laptop setup card
/// lists them.
pub fn installed_route_networks(routes: &Vec<VpnRouteSnapshot>) -> (r: Vec<String>)
    ensures
        strings_view(r@) == installed_networks(routes@),
{
    let mut out: Vec<String> = Vec::new();
    let mut i: usize = 0;
    while i < routes.len()
        invariant
            i <= routes.len(),
            strings_view(out@) == installed_networks(routes@.take(i as int)),
        decreases routes.len() - i,
    {
        assert(routes@.take(i + 1).drop_last() =~= routes@.take(i as int));
        let ghost before = strings_view(out@);
        if routes[i].installed {
            out.push(routes[i].network.clone());
            assert(strings_view(out@) =~= before.push(routes@[i as int].network@));
        }
        i += 1;
    }
    assert(routes@.take(routes.len() as int) =~= routes@);
    out
}

/// The routes to advertise: the configured ones, or the Kaonic LAN when
/// none are configured.
pub fn default_advertised_route_strings(routes: Vec<String>) -> (r: Vec<String>)
    ensures
        routes.len() == 0 ==> r.len() == 1 && r@[0]@ == "192.168.10.0/24"@,
        routes.len() > 0 ==> r == routes,
{
    if routes.len() == 0 {
        let mut v: Vec<String> = Vec::new();
        v.push("192.168.10.0/24".to_owned());
        v
    } else {
        routes
    }
}

/// The link a phone opens to add this device as a VPN peer.
pub fn vpn_add_peer_url(hash: &str, codename: &str) -> (r: String)
    ensures
        r@ == "https://192.168.10.1/vpn?vpn-add-peer="@ + hash@ + "&codename="@ + codename@,
{
    let mut out: Vec<char> = Vec::new();
    extend_str(&mut out, "https://192.168.10.1/vpn?vpn-add-peer=");
    extend_str(&mut out, hash);
    extend_str(&mut out, "&codename=");
    extend_str(&mut out, codename);
    chars_to_string(&out)
}

/// A hash without whitespace, or `—` when nothing is left.
pub fn format_hash(value: &str) -> (r: String)
    ensures
        r@ == (if compact(value@).len() == 0 {
            seq!['—']
        } else {
            compact(value@)
        }),
{
    let c = compact_chars(&str_chars(value));
    if c.len() == 0 {
        let mut out: Vec<char> = Vec::new();
        out.push('—');
        return chars_to_string(&out);
    }
    chars_to_string(&c)
}

/// The non-blank comma-separated values of a text, trimmed.
pub open spec fn badge_values(pieces: Seq<Seq<char>>) -> Seq<Seq<char>>
    decreases pieces.len(),
{
    if pieces.len() == 0 {
        Seq::empty()
    } else {
        let rest = badge_values(pieces.drop_last());
        if trim(pieces.last()).len() > 0 {
            rest.push(trim(pieces.last()))
        } else {
            rest
        }
    }
}

/// Splits a comma-separated list of badges.
pub fn split_badge_values(value: &str) -> (r: Vec<String>)
    ensures
        r@.map_values(|s: String| s@) == badge_values(split(value@, ',')),
{
    let pieces = split_chars(&str_chars(value), ',');
    let ghost pv = views(pieces@);
    let mut out: Vec<String> = Vec::new();
    let mut i: usize = 0;
    while i < pieces.len()
        invariant
            i <= pieces.len(),
            pv == views(pieces@),
            out@.map_values(|s: String| s@) == badge_values(pv.take(i as int)),
        decreases pieces.len() - i,
    {
        assert(pv.take(i + 1).drop_last() =~= pv.take(i as int));
        assert(pv.take(i + 1).last() == pieces@[i as int]@);
        let t = trim_chars(&pieces[i]);
        let ghost before = out@.map_values(|s: String| s@);
        if t.len() > 0 {
            out.push(chars_to_string(&t));
            assert(out@.map_values(|s: String| s@) =~= before.push(t@));
        }
        i += 1;
    }
    assert(pv.take(pieces.len() as int) =~= pv);
    out
}

/// The text that lossy UTF-8 decoding gives for some bytes.
pub uninterp spec fn utf8_lossy(bytes: Seq<u8>) -> Seq<char>;

/// `String::from_utf8_lossy`: the contract claims that the text is the
/// named lossy decoding, and the exact text when the bytes are valid UTF-8.
#[verifier::external_body]
fn lossy_text(bytes: &[u8]) -> (r: String)
    ensures
        r@ == utf8_lossy(bytes@),
        vstd::utf8::valid_utf8(bytes@) ==> r@ == vstd::utf8::decode_utf8(bytes@),
{
    String::from_utf8_lossy(bytes).into_owned()
}

/// The rows of a hash split every `row_len` bytes; the whole hash when
/// `row_len` is 0.
pub open spec fn hash_rows(bytes: Seq<u8>, row_len: nat) -> Seq<Seq<char>>
    decreases bytes.len(),
{
    if row_len == 0 || bytes.len() == 0 {
        Seq::empty()
    } else if bytes.len() <= row_len {
        seq![utf8_lossy(bytes)]
    } else {
        seq![utf8_lossy(bytes.take(row_len as int))] + hash_rows(
            bytes.skip(row_len as int),
            row_len,
        )
    }
}

/// Splits a hash into rows of `row_len` bytes for display.
pub fn split_hash_rows(value: &str, row_len: usize) -> (r: Vec<String>)
    ensures
        row_len == 0 ==> r.len() == 1 && r@[0]@ == value@,
        row_len > 0 ==> r@.map_values(|s: String| s@) == hash_rows(
            vstd::utf8::encode_utf8(value@),
            row_len as nat,
        ),
{
    if row_len == 0 {
        let mut v: Vec<String> = Vec::new();
        v.push(value.to_owned());
        return v;
    }
    let bytes = value.as_bytes();
    let ghost all = bytes@;
    let mut out: Vec<String> = Vec::new();
    let mut start: usize = 0;
    assert(all.skip(0) =~= all);
    assert(out@.map_values(|s: String| s@) + hash_rows(all, row_len as nat) =~= hash_rows(
        all,
        row_len as nat,
    ));
    while start < bytes.len()
        invariant
            row_len > 0,
            start <= bytes.len(),
            all == bytes@,
            out@.map_values(|s: String| s@) + hash_rows(all.skip(start as int), row_len as nat)
                == hash_rows(all, row_len as nat),
        decreases bytes.len() - start,
    {
        let end = if bytes.len() - start <= row_len {
            bytes.len()
        } else {
            start + row_len
        };
        let chunk = vstd::slice::slice_subrange(bytes, start, end);
        let row = lossy_text(chunk);
        let ghost rest = all.skip(start as int);
        let ghost before = out@.map_values(|s: String| s@);
        out.push(row);
        assert(out@.map_values(|s: String| s@) =~= before.push(row@));
        if end == bytes.len() {
            assert(chunk@ =~= rest);
            assert(rest.skip(rest.len() as int) =~= Seq::<u8>::empty());
            assert(all.skip(end as int) =~= Seq::<u8>::empty());
            assert(hash_rows(rest, row_len as nat) == seq![utf8_lossy(rest)]);
        } else {
            assert(chunk@ =~= rest.take(row_len as int));
            assert(rest.skip(row_len as int) =~= all.skip(end as int));
        }
        assert(before + hash_rows(rest, row_len as nat) =~= before.push(row@) + hash_rows(
            all.skip(end as int),
            row_len as nat,
        ));
        start = end;
    }
    assert(all.skip(bytes.len() as int) =~= Seq::<u8>::empty());
    assert(out@.map_values(|s: String| s@) =~= out@.map_values(|s: String| s@) + Seq::<
        Seq<char>,
    >::empty());
    out
}

/// The module grid of the QR code (medium error correction) of a text,
/// `None` when the text is too long for a QR code.
pub uninterp spec fn qr_modules(text: Seq<char>) -> Option<Seq<Seq<bool>>>;

/// `qrcodegen::QrCode::encode_text` with medium error correction, read as
/// its grid of modules (`get_module(x, y)` is `grid[y][x]`).  The contract
/// claims that the grid is the named one of the text and that it is square
/// with a side of 21 to 177, as the crate documents for `size`.
#[verifier::external_body]
fn qr_grid(text: &str) -> (r: Option<Vec<Vec<bool>>>)
    ensures
        match r {
            Some(g) => qr_modules(text@) == Some(g@.map_values(|row: Vec<bool>| row@))
                && 21 <= g.len() <= 177 && forall|y: int|
                0 <= y < g.len() ==> #[trigger] g@[y].len() == g.len(),
            None => qr_modules(text@) is None,
        },
{
    match qrcodegen::QrCode::encode_text(text, qrcodegen::QrCodeEcc::Medium) {
        Ok(qr) => Some(
            (0..qr.size()).map(|y| (0..qr.size()).map(|x| qr.get_module(x, y)).collect()).collect(),
        ),
        Err(_) => None,
    }
}

/// The SVG start: a white square of the grid's side plus a border of 2.
pub open spec fn svg_head(dimension: nat) -> Seq<char> {
    "<svg xmlns=\"http://www.w3.org/2000/svg\" viewBox=\"0 0 "@ + decimal(dimension) + " "@
        + decimal(dimension)
        + "\" shape-rendering=\"crispEdges\" aria-hidden=\"true\"><rect width=\"100%\" height=\"100%\" fill=\"#ffffff\"/>"@
}

/// One dark module at (x, y) of the grid, shifted by the border.
pub open spec fn svg_cell(x: nat, y: nat) -> Seq<char> {
    "<rect x=\""@ + decimal(x + 2) + "\" y=\""@ + decimal(y + 2)
        + "\" width=\"1\" height=\"1\" fill=\"#111827\"/>"@
}

/// The dark modules of row `y`, from column 0 up to `x`.
pub open spec fn svg_row(row: Seq<bool>, y: nat, x: nat) -> Seq<char>
    decreases x,
{
    if x == 0 {
        Seq::empty()
    } else {
        svg_row(row, y, (x - 1) as nat) + if row[x - 1] {
            svg_cell((x - 1) as nat, y)
        } else {
            Seq::empty()
        }
    }
}

/// The dark modules of rows 0 up to `y`.
pub open spec fn svg_rows(grid: Seq<Seq<bool>>, y: nat) -> Seq<char>
    decreases y,
{
    if y == 0 {
        Seq::empty()
    } else {
        svg_rows(grid, (y - 1) as nat) + svg_row(grid[y - 1], (y - 1) as nat, grid.len())
    }
}

/// The SVG picture of a module grid.
pub open spec fn svg_of(grid: Seq<Seq<bool>>) -> Seq<char> {
    svg_head(grid.len() + 4) + svg_rows(grid, grid.len()) + "</svg>"@
}

/// Draws a hash as a QR code in SVG; `None` when it does not fit in one.
pub fn render_hash_qr_svg(value: &str) -> (r: Option<String>)
    ensures
        match qr_modules(value@) {
            Some(g) => r matches Some(s) && s@ == svg_of(g),
            None => r is None,
        },
{
    let grid = match qr_grid(value) {
        Some(g) => g,
        None => return None,
    };
    let ghost gv = grid@.map_values(|row: Vec<bool>| row@);
    let size = grid.len();
    let mut out: Vec<char> = Vec::new();
    extend_str(
        &mut out,
        "<svg xmlns=\"http://www.w3.org/2000/svg\" viewBox=\"0 0 ",
    );
    push_decimal(&mut out, (size + 4) as u64);
    extend_str(&mut out, " ");
    push_decimal(&mut out, (size + 4) as u64);
    extend_str(
        &mut out,
        "\" shape-rendering=\"crispEdges\" aria-hidden=\"true\"><rect width=\"100%\" height=\"100%\" fill=\"#ffffff\"/>",
    );
    assert(out@ =~= svg_head((size + 4) as nat));
    let ghost head = out@;
    let mut y: usize = 0;
    while y < size
        invariant
            y <= size == grid.len() <= 177,
            gv == grid@.map_values(|row: Vec<bool>| row@),
            gv.len() == size,
            forall|k: int| 0 <= k < size ==> #[trigger] grid@[k].len() == size,
            out@ == head + svg_rows(gv, y as nat),
        decreases size - y,
    {
        let row = &grid[y];
        assert(gv[y as int] == row@);
        let ghost before = out@;
        let mut x: usize = 0;
        while x < size
            invariant
                x <= size == row.len() <= 177,
                y < size,
                out@ == before + svg_row(row@, y as nat, x as nat),
            decreases size - x,
        {
            if row[x] {
                extend_str(&mut out, "<rect x=\"");
                push_decimal(&mut out, (x + 2) as u64);
                extend_str(&mut out, "\" y=\"");
                push_decimal(&mut out, (y + 2) as u64);
                extend_str(&mut out, "\" width=\"1\" height=\"1\" fill=\"#111827\"/>");
            }
            assert(out@ =~= before + svg_row(row@, y as nat, (x + 1) as nat));
            x += 1;
        }
        assert(out@ =~= head + svg_rows(gv, (y + 1) as nat));
        y += 1;
    }
    extend_str(&mut out, "</svg>");
    assert(out@ =~= svg_of(gv));
    Some(chars_to_string(&out))
}

/// The icon of an audio control, as inline SVG.
pub open spec fn icon_of(id: Seq<char>) -> Seq<char> {
    if id == "speaker"@ {
        "<svg xmlns=\"http://www.w3.org/2000/svg\" width=\"22\" height=\"22\" viewBox=\"0 0 24 24\" fill=\"none\" stroke=\"currentColor\" stroke-width=\"1.8\" stroke-linecap=\"round\" stroke-linejoin=\"round\"><polygon points=\"11 5 6 9 2 9 2 15 6 15 11 19 11 5\"/><path d=\"M15.54 8.46a5 5 0 0 1 0 7.07\"/><path d=\"M19.07 4.93a10 10 0 0 1 0 14.14\"/></svg>"@
    } else if id == "headphones"@ {
        "<svg xmlns=\"http://www.w3.org/2000/svg\" width=\"22\" height=\"22\" viewBox=\"0 0 24 24\" fill=\"none\" stroke=\"currentColor\" stroke-width=\"1.8\" stroke-linecap=\"round\" stroke-linejoin=\"round\"><path d=\"M3 18v-6a9 9 0 0 1 18 0v6\"/><path d=\"M21 19a2 2 0 0 1-2 2h-1a2 2 0 0 1-2-2v-3a2 2 0 0 1 2-2h3z\"/><path d=\"M3 19a2 2 0 0 0 2 2h1a2 2 0 0 0 2-2v-3a2 2 0 0 0-2-2H3z\"/></svg>"@
    } else if id == "microphone"@ {
        "<svg xmlns=\"http://www.w3.org/2000/svg\" width=\"22\" height=\"22\" viewBox=\"0 0 24 24\" fill=\"none\" stroke=\"currentColor\" stroke-width=\"1.8\" stroke-linecap=\"round\" stroke-linejoin=\"round\"><path d=\"M12 3a3 3 0 0 1 3 3v6a3 3 0 0 1-6 0V6a3 3 0 0 1 3-3z\"/><path d=\"M19 10v2a7 7 0 0 1-14 0v-2\"/><path d=\"M12 19v3\"/><path d=\"M8 22h8\"/></svg>"@
    } else {
        "<svg xmlns=\"http://www.w3.org/2000/svg\" width=\"22\" height=\"22\" viewBox=\"0 0 24 24\" fill=\"none\" stroke=\"currentColor\" stroke-width=\"1.8\" stroke-linecap=\"round\" stroke-linejoin=\"round\"><circle cx=\"12\" cy=\"12\" r=\"9\"/><path d=\"M8 12h8\"/></svg>"@
    }
}

/// The icon of an audio control, as inline SVG.
pub fn audio_icon(control_id: &str) -> (r: &'static str)
    ensures
        r@ == icon_of(control_id@),
{
    let c = str_chars(control_id);
    if chars_eq_str(&c, "speaker") {
        "<svg xmlns=\"http://www.w3.org/2000/svg\" width=\"22\" height=\"22\" viewBox=\"0 0 24 24\" fill=\"none\" stroke=\"currentColor\" stroke-width=\"1.8\" stroke-linecap=\"round\" stroke-linejoin=\"round\"><polygon points=\"11 5 6 9 2 9 2 15 6 15 11 19 11 5\"/><path d=\"M15.54 8.46a5 5 0 0 1 0 7.07\"/><path d=\"M19.07 4.93a10 10 0 0 1 0 14.14\"/></svg>"
    } else if chars_eq_str(&c, "headphones") {
        "<svg xmlns=\"http://www.w3.org/2000/svg\" width=\"22\" height=\"22\" viewBox=\"0 0 24 24\" fill=\"none\" stroke=\"currentColor\" stroke-width=\"1.8\" stroke-linecap=\"round\" stroke-linejoin=\"round\"><path d=\"M3 18v-6a9 9 0 0 1 18 0v6\"/><path d=\"M21 19a2 2 0 0 1-2 2h-1a2 2 0 0 1-2-2v-3a2 2 0 0 1 2-2h3z\"/><path d=\"M3 19a2 2 0 0 0 2 2h1a2 2 0 0 0 2-2v-3a2 2 0 0 0-2-2H3z\"/></svg>"
    } else if chars_eq_str(&c, "microphone") {
        "<svg xmlns=\"http://www.w3.org/2000/svg\" width=\"22\" height=\"22\" viewBox=\"0 0 24 24\" fill=\"none\" stroke=\"currentColor\" stroke-width=\"1.8\" stroke-linecap=\"round\" stroke-linejoin=\"round\"><path d=\"M12 3a3 3 0 0 1 3 3v6a3 3 0 0 1-6 0V6a3 3 0 0 1 3-3z\"/><path d=\"M19 10v2a7 7 0 0 1-14 0v-2\"/><path d=\"M12 19v3\"/><path d=\"M8 22h8\"/></svg>"
    } else {
        "<svg xmlns=\"http://www.w3.org/2000/svg\" width=\"22\" height=\"22\" viewBox=\"0 0 24 24\" fill=\"none\" stroke=\"currentColor\" stroke-width=\"1.8\" stroke-linecap=\"round\" stroke-linejoin=\"round\"><circle cx=\"12\" cy=\"12\" r=\"9\"/><path d=\"M8 12h8\"/></svg>"
    }
}

/// The volume bars of an audio control.
pub const VOLUME_BAR_COUNT: usize = 16;

/// What an audio control's card shows and where it sends changes.
pub struct AudioControlView {
    /// How many of the volume bars are lit.
    pub active_bars: usize,
    /// The card's key, `<card>-<control>`.
    pub control_key: String,
    /// Where volume and mute changes are sent.
    pub endpoint: String,
    /// Where a test sound is requested; empty for controls that cannot
    /// play one.
    pub test_endpoint: String,
    /// The volume as shown: `Muted`, or the percentage.
    pub display: String,
    /// The mute button's label.
    pub mute_label: String,
}

/// Controls that can play a test sound.
pub open spec fn test_supported(control_id: Seq<char>) -> bool {
    control_id == "speaker"@ || control_id == "headphones"@
}

/// The audio endpoint of a control on a card.
pub open spec fn audio_endpoint(card_id: nat, control_id: Seq<char>) -> Seq<char> {
    "/api/audio/"@ + decimal(card_id) + "/"@ + control_id
}

/// What the card of an audio control shows: `volume * 16 / 100` lit bars,
/// the control's endpoint, the test endpoint for the speaker and the
/// headphones only, and `Muted` or the volume in percent.
pub fn audio_control_view(card_id: usize, control: &AudioControlSnapshot) -> (r: AudioControlView)
    ensures
        r.active_bars == control.volume as int * 16 / 100,
        r.control_key@ == decimal(card_id as nat) + "-"@ + control.control_id@,
        r.endpoint@ == audio_endpoint(card_id as nat, control.control_id@),
        r.test_endpoint@ == if test_supported(control.control_id@) {
            audio_endpoint(card_id as nat, control.control_id@) + "/test"@
        } else {
            Seq::empty()
        },
        r.display@ == if control.muted {
            "Muted"@
        } else {
            decimal(control.volume as nat) + "%"@
        },
        r.mute_label@ == if control.muted {
            "Unmute"@
        } else {
            "Mute"@
        },
{
    let active_bars = (control.volume as usize * VOLUME_BAR_COUNT) / 100;
    let mut key: Vec<char> = Vec::new();
    push_decimal(&mut key, card_id as u64);
    extend_str(&mut key, "-");
    extend_str(&mut key, control.control_id.as_str());
    let mut endpoint: Vec<char> = Vec::new();
    extend_str(&mut endpoint, "/api/audio/");
    push_decimal(&mut endpoint, card_id as u64);
    extend_str(&mut endpoint, "/");
    extend_str(&mut endpoint, control.control_id.as_str());
    let id = str_chars(control.control_id.as_str());
    let supported = chars_eq_str(&id, "speaker") || chars_eq_str(&id, "headphones");
    let mut test: Vec<char> = Vec::new();
    if supported {
        extend_chars(&mut test, &endpoint);
        extend_str(&mut test, "/test");
    }
    let mut display: Vec<char> = Vec::new();
    if control.muted {
        extend_str(&mut display, "Muted");
    } else {
        push_decimal(&mut display, control.volume as u64);
        extend_str(&mut display, "%");
    }
    let mute_label = if control.muted {
        "Unmute".to_owned()
    } else {
        "Mute".to_owned()
    };
    AudioControlView {
        active_bars,
        control_key: chars_to_string(&key),
        endpoint: chars_to_string(&endpoint),
        test_endpoint: chars_to_string(&test),
        display: chars_to_string(&display),
        mute_label,
    }
}

} // verus!
