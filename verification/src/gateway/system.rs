//! System information shown by the gateway: reading `/proc` and
//! `/etc` files, summarizing `systemctl` output, and the gateway's own
//! services.

use vstd::prelude::*;

use crate::text::{
    chars_eq_str, chars_to_string, copy_range, extend_str, lines, lines_chars, parse_unsigned,
    parse_unsigned_chars, split_once, split_once_chars, str_chars, strip_prefix, strip_prefix_str,
    trim, trim_char, trim_char_chars, trim_chars, views, words, words_chars,
};

verus! {

// ---------------------------------------------------------------------------
// Memory
// ---------------------------------------------------------------------------

/// The first word of a text read as a number, 0 when it is not one.
pub open spec fn first_number(s: Seq<char>) -> nat {
    let w = words(s);
    if w.len() > 0 {
        match parse_unsigned(w[0], u64::MAX as nat) {
            Some(v) => v,
            None => 0,
        }
    } else {
        0
    }
}

/// The (total, available) kibibytes of a `/proc/meminfo` text: the values
/// of the last `MemTotal:` and `MemAvailable:` lines.
pub open spec fn meminfo(ls: Seq<Seq<char>>) -> (nat, nat)
    decreases ls.len(),
{
    if ls.len() == 0 {
        (0, 0)
    } else {
        let (t, a) = meminfo(ls.drop_last());
        match strip_prefix(ls.last(), "MemTotal:"@) {
            Some(r) => (first_number(r), a),
            None => match strip_prefix(ls.last(), "MemAvailable:"@) {
                Some(r) => (t, first_number(r)),
                None => (t, a),
            },
        }
    }
}

fn first_number_exec(s: &Vec<char>) -> (r: u64)
    ensures
        r == first_number(s@),
{
    let w = words_chars(s);
    if w.len() > 0 {
        assert(views(w@)[0] == w@[0]@);
        match parse_unsigned_chars(&w[0], u64::MAX) {
            Some(v) => v,
            None => 0,
        }
    } else {
        0
    }
}

/// The (used, total) memory in mebibytes from a `/proc/meminfo` text; used
/// is total minus available, never below 0.
pub fn mem_mb_from_meminfo(data: &str) -> (r: (u64, u64))
    ensures
        ({
            let (t, a) = meminfo(lines(data@));
            r == ((if t >= a {
                t - a
            } else {
                0
            }) as u64 / 1024, (t / 1024) as u64)
        }),
{
    let ls = lines_chars(&str_chars(data));
    let ghost lv = views(ls@);
    let mut total: u64 = 0;
    let mut available: u64 = 0;
    let mut i: usize = 0;
    while i < ls.len()
        invariant
            i <= ls.len(),
            lv == views(ls@),
            (total as nat, available as nat) == meminfo(lv.take(i as int)),
        decreases ls.len() - i,
    {
        assert(lv.take(i + 1).drop_last() =~= lv.take(i as int));
        assert(lv.take(i + 1).last() == ls@[i as int]@);
        match strip_prefix_str(&ls[i], "MemTotal:") {
            Some(r) => {
                total = first_number_exec(&r);
            },
            None => match strip_prefix_str(&ls[i], "MemAvailable:") {
                Some(r) => {
                    available = first_number_exec(&r);
                },
                None => {},
            },
        }
        i += 1;
    }
    assert(lv.take(ls.len() as int) =~= lv);
    (total.saturating_sub(available) / 1024, total / 1024)
}

// ---------------------------------------------------------------------------
// Processor
// ---------------------------------------------------------------------------

/// The value of a `key: value` line for `key`, when it is not blank.
pub open spec fn keyed_value(line: Seq<char>, key: Seq<char>) -> Option<Seq<char>> {
    match split_once(line, ":"@) {
        Some((name, value)) => if trim(name) == key && trim(value).len() > 0 {
            Some(trim(value))
        } else {
            None
        },
        None => None,
    }
}

/// The first line (from `i` on) with a value for `key`.
pub open spec fn keyed_from(ls: Seq<Seq<char>>, key: Seq<char>, i: int) -> Option<Seq<char>>
    decreases ls.len() - i,
{
    if i < 0 || i >= ls.len() {
        None
    } else {
        match keyed_value(ls[i], key) {
            Some(v) => Some(v),
            None => keyed_from(ls, key, i + 1),
        }
    }
}

/// The processor model in `/proc/cpuinfo`: the value of the first of the
/// keys `model name`, `Hardware`, `Processor`, `Model` that has one.
pub open spec fn cpu_model(ls: Seq<Seq<char>>) -> Seq<char> {
    match keyed_from(ls, "model name"@, 0) {
        Some(v) => v,
        None => match keyed_from(ls, "Hardware"@, 0) {
            Some(v) => v,
            None => match keyed_from(ls, "Processor"@, 0) {
                Some(v) => v,
                None => match keyed_from(ls, "Model"@, 0) {
                    Some(v) => v,
                    None => "Unknown"@,
                },
            },
        },
    }
}

fn keyed_search(ls: &Vec<Vec<char>>, key: &str) -> (r: Option<Vec<char>>)
    ensures
        match r {
            Some(v) => keyed_from(views(ls@), key@, 0) == Some(v@),
            None => keyed_from(views(ls@), key@, 0) is None,
        },
{
    let ghost lv = views(ls@);
    let mut i: usize = 0;
    while i < ls.len()
        invariant
            i <= ls.len(),
            lv == views(ls@),
            keyed_from(lv, key@, 0) == keyed_from(lv, key@, i as int),
        decreases ls.len() - i,
    {
        assert(lv[i as int] == ls@[i as int]@);
        match split_once_chars(&ls[i], ":") {
            Some((name, value)) => {
                let n = trim_chars(&name);
                let v = trim_chars(&value);
                if chars_eq_str(&n, key) && v.len() > 0 {
                    return Some(v);
                }
            },
            None => {},
        }
        i += 1;
    }
    None
}

/// The processor model named in a `/proc/cpuinfo` text.
pub fn cpu_model_from_cpuinfo(data: &str) -> (r: String)
    ensures
        r@ == cpu_model(lines(data@)),
{
    let ls = lines_chars(&str_chars(data));
    if let Some(v) = keyed_search(&ls, "model name") {
        return chars_to_string(&v);
    }
    if let Some(v) = keyed_search(&ls, "Hardware") {
        return chars_to_string(&v);
    }
    if let Some(v) = keyed_search(&ls, "Processor") {
        return chars_to_string(&v);
    }
    if let Some(v) = keyed_search(&ls, "Model") {
        return chars_to_string(&v);
    }
    "Unknown".to_owned()
}

/// The (idle, total) jiffies of the first line of `/proc/stat`: the numbers
/// after its first word; idle is the fourth.  The total wraps around as an
/// unsigned 64-bit sum.
pub open spec fn stat_numbers(ws: Seq<Seq<char>>) -> Seq<u64>
    decreases ws.len(),
{
    if ws.len() == 0 {
        Seq::empty()
    } else {
        let rest = stat_numbers(ws.drop_last());
        match parse_unsigned(ws.last(), u64::MAX as nat) {
            Some(v) => rest.push(v as u64),
            None => rest,
        }
    }
}

/// The sum of numbers, wrapping at 2^64.
pub open spec fn wrapping_sum(v: Seq<u64>) -> u64
    decreases v.len(),
{
    if v.len() == 0 {
        0
    } else {
        let s = wrapping_sum(v.drop_last());
        if s + v.last() > u64::MAX {
            (s + v.last() - 0x1_0000_0000_0000_0000) as u64
        } else {
            (s + v.last()) as u64
        }
    }
}

/// The idle time and the total of the times on the first line of
/// `/proc/stat`, when it has at least four numbers.
pub open spec fn stat_of(data: Seq<char>) -> Option<(u64, u64)> {
    let ls = lines(data);
    if ls.len() == 0 {
        None
    } else {
        let ws = words(ls[0]);
        let vals = if ws.len() > 0 {
            stat_numbers(ws.drop_first())
        } else {
            Seq::empty()
        };
        if vals.len() < 4 {
            None
        } else {
            Some((vals[3], wrapping_sum(vals)))
        }
    }
}

/// Reads the idle and total jiffies from a `/proc/stat` text.
pub fn parse_stat_text(data: &str) -> (r: Option<(u64, u64)>)
    ensures
        r == stat_of(data@),
{
    let ls = lines_chars(&str_chars(data));
    if ls.len() == 0 {
        return None;
    }
    assert(views(ls@)[0] == ls@[0]@);
    let ws = words_chars(&ls[0]);
    let ghost wv = views(ws@);
    let ghost tail = if wv.len() > 0 {
        wv.drop_first()
    } else {
        Seq::<Seq<char>>::empty()
    };
    let mut vals: Vec<u64> = Vec::new();
    let mut sum: u64 = 0;
    let mut i: usize = 1;
    while i < ws.len()
        invariant
            1 <= i,
            ws.len() > 0 ==> i <= ws.len(),
            ws.len() == 0 ==> i == 1,
            wv == views(ws@),
            tail == (if wv.len() > 0 {
                wv.drop_first()
            } else {
                Seq::<Seq<char>>::empty()
            }),
            vals@ == stat_numbers(tail.take(i - 1)),
            sum == wrapping_sum(vals@),
        decreases ws.len() - i,
    {
        assert(tail.take(i as int).drop_last() =~= tail.take(i - 1));
        assert(tail.take(i as int).last() == ws@[i as int]@);
        match parse_unsigned_chars(&ws[i], u64::MAX) {
            Some(v) => {
                let ghost before = vals@;
                vals.push(v);
                assert(vals@.drop_last() =~= before);
                sum = sum.wrapping_add(v);
            },
            None => {},
        }
        i += 1;
    }
    proof {
        if wv.len() > 0 {
            assert(i == ws.len());
            assert(tail.len() == i - 1);
            assert(tail.take(i - 1) =~= tail);
        } else {
            assert(tail.take(i - 1) =~= tail);
        }
    }
    assert(lines(data@) == views(ls@));
    assert(lines(data@)[0] == ls@[0]@);
    assert(words(lines(data@)[0]) == wv);
    assert(vals@ == stat_numbers(tail));
    if vals.len() < 4 {
        return None;
    }
    Some((vals[3], sum))
}

// ---------------------------------------------------------------------------
// Storage
// ---------------------------------------------------------------------------

/// The (free, total) mebibytes of a file system from its `statvfs` block
/// counts: blocks are `fragment_size` bytes, or `block_size` when that is
/// 0; products saturate.
pub fn fs_mb_from_stats(fragment_size: u64, block_size: u64, blocks: u64, available_blocks: u64) -> (r: (
    u64,
    u64,
))
    ensures
        ({
            let bs = if fragment_size > 0 {
                fragment_size
            } else {
                block_size
            };
            let total = if blocks * bs > u64::MAX {
                u64::MAX as int
            } else {
                blocks * bs
            };
            let free = if available_blocks * bs > u64::MAX {
                u64::MAX as int
            } else {
                available_blocks * bs
            };
            r == ((free / 1024 / 1024) as u64, (total / 1024 / 1024) as u64)
        }),
{
    let bs = if fragment_size > 0 {
        fragment_size
    } else {
        block_size
    };
    let total = match blocks.checked_mul(bs) {
        Some(v) => v,
        None => u64::MAX,
    };
    let free = match available_blocks.checked_mul(bs) {
        Some(v) => v,
        None => u64::MAX,
    };
    (free / 1024 / 1024, total / 1024 / 1024)
}

// ---------------------------------------------------------------------------
// Operating system
// ---------------------------------------------------------------------------

/// The operating system's name in `/etc/os-release`: the first
/// `PRETTY_NAME=` value, quotes removed.
pub open spec fn pretty_name_from(ls: Seq<Seq<char>>, i: int) -> Option<Seq<char>>
    decreases ls.len() - i,
{
    if i < 0 || i >= ls.len() {
        None
    } else {
        match strip_prefix(ls[i], "PRETTY_NAME="@) {
            Some(v) => Some(trim_char(v, '"')),
            None => pretty_name_from(ls, i + 1),
        }
    }
}

/// The operating system's name: from `/etc/os-release` when it has one,
/// else `<os> <arch>`.
pub fn os_name_from(os_release: Option<&str>, os: &str, arch: &str) -> (r: String)
    ensures
        ({
            let found = match os_release {
                Some(d) => pretty_name_from(lines(d@), 0),
                None => None,
            };
            match found {
                Some(n) => r@ == n,
                None => r@ == os@ + " "@ + arch@,
            }
        }),
{
    if let Some(d) = os_release {
        let ls = lines_chars(&str_chars(d));
        let ghost lv = views(ls@);
        let mut i: usize = 0;
        while i < ls.len()
            invariant
                i <= ls.len(),
                os_release == Some(d),
                lv == views(ls@),
                lv == lines(d@),
                pretty_name_from(lv, 0) == pretty_name_from(lv, i as int),
            decreases ls.len() - i,
        {
            assert(lv[i as int] == ls@[i as int]@);
            if let Some(v) = strip_prefix_str(&ls[i], "PRETTY_NAME=") {
                return chars_to_string(&trim_char_chars(&v, '"'));
            }
            i += 1;
        }
    }
    let mut out: Vec<char> = Vec::new();
    extend_str(&mut out, os);
    extend_str(&mut out, " ");
    extend_str(&mut out, arch);
    chars_to_string(&out)
}

/// The kernel line: `Kernel <release>`.
pub fn kernel_text(release: &str) -> (r: String)
    ensures
        r@ == "Kernel "@ + release@,
{
    let mut out: Vec<char> = Vec::new();
    extend_str(&mut out, "Kernel ");
    extend_str(&mut out, release);
    chars_to_string(&out)
}

/// The operating system line: name and kernel joined by ` / `, whichever is
/// known, or `Unknown`.
pub fn os_details(os_name: &str, kernel: &str) -> (r: String)
    ensures
        os_name@.len() > 0 && kernel@.len() > 0 ==> r@ == os_name@ + " / "@ + kernel@,
        os_name@.len() > 0 && kernel@.len() == 0 ==> r@ == os_name@,
        os_name@.len() == 0 && kernel@.len() > 0 ==> r@ == kernel@,
        os_name@.len() == 0 && kernel@.len() == 0 ==> r@ == "Unknown"@,
{
    match (os_name.is_empty(), kernel.is_empty()) {
        (false, false) => {
            let mut out: Vec<char> = Vec::new();
            extend_str(&mut out, os_name);
            extend_str(&mut out, " / ");
            extend_str(&mut out, kernel);
            chars_to_string(&out)
        },
        (false, true) => os_name.to_owned(),
        (true, false) => kernel.to_owned(),
        (true, true) => "Unknown".to_owned(),
    }
}

/// The host name in `/etc/hostname`, trimmed, or `Unknown`.
pub fn hostname_from(data: Option<&str>) -> (r: String)
    ensures
        match data {
            Some(d) => if trim(d@).len() > 0 {
                r@ == trim(d@)
            } else {
                r@ == "Unknown"@
            },
            None => r@ == "Unknown"@,
        },
{
    match data {
        Some(d) => {
            let t = trim_chars(&str_chars(d));
            if t.len() > 0 {
                chars_to_string(&t)
            } else {
                "Unknown".to_owned()
            }
        },
        None => "Unknown".to_owned(),
    }
}

/// The machine architecture: the `uname` value, trimmed, unless blank,
/// else the architecture the program was built for.
pub fn architecture_from(uname_machine: Option<&str>, built_for: &str) -> (r: String)
    ensures
        match uname_machine {
            Some(m) => if trim(m@).len() > 0 {
                r@ == trim(m@)
            } else {
                r@ == built_for@
            },
            None => r@ == built_for@,
        },
{
    match uname_machine {
        Some(m) => {
            let t = trim_chars(&str_chars(m));
            if t.len() > 0 {
                chars_to_string(&t)
            } else {
                built_for.to_owned()
            }
        },
        None => built_for.to_owned(),
    }
}

// ---------------------------------------------------------------------------
// Services
// ---------------------------------------------------------------------------

/// The state of a systemd unit as shown to the user.
#[derive(Debug, Clone, PartialEq, Eq)]
pub struct ServiceStatus {
    pub unit: String,
    pub brief_name: String,
    pub load_state: String,
    pub active_state: String,
    pub sub_state: String,
    pub status: String,
}

/// The gateway's own units.
pub open spec fn gateway_units() -> Seq<Seq<char>> {
    seq![
        "kaonic-commd.service"@,
        "kaonic-factory.service"@,
        "kaonic-gateway.service"@,
        "kaonic-installer.service"@,
    ]
}

/// The gateway's own units, in display order.
pub fn gateway_service_units() -> (r: Vec<&'static str>)
    ensures
        r@.map_values(|s: &str| s@) == gateway_units(),
{
    let v = vec![
        "kaonic-commd.service",
        "kaonic-factory.service",
        "kaonic-gateway.service",
        "kaonic-installer.service",
    ];
    assert(v@.map_values(|s: &str| s@) =~= gateway_units());
    v
}

/// Whether `unit` is one of the gateway's own units.
pub fn is_gateway_service_unit(unit: &str) -> (r: bool)
    ensures
        r == gateway_units().contains(unit@),
{
    let u = str_chars(unit);
    let r = chars_eq_str(&u, "kaonic-commd.service") || chars_eq_str(&u, "kaonic-factory.service")
        || chars_eq_str(&u, "kaonic-gateway.service") || chars_eq_str(
        &u,
        "kaonic-installer.service",
    );
    proof {
        let g = gateway_units();
        if r {
            if u@ == g[0] {
                assert(g.contains(u@));
            } else if u@ == g[1] {
                assert(g.contains(u@));
            } else if u@ == g[2] {
                assert(g.contains(u@));
            } else {
                assert(u@ == g[3]);
                assert(g.contains(u@));
            }
        } else {
            assert(!g.contains(u@));
        }
    }
    r
}

/// The short description of a unit.
pub open spec fn brief_name_of(unit: Seq<char>) -> Seq<char> {
    if unit == "kaonic-commd.service"@ {
        "Radio control"@
    } else if unit == "kaonic-factory.service"@ {
        "Factory setup"@
    } else if unit == "kaonic-gateway.service"@ {
        "Web gateway"@
    } else if unit == "kaonic-installer.service"@ {
        "Installer agent"@
    } else {
        "Service"@
    }
}

/// The short description of a unit.
pub fn service_brief_name(unit: &str) -> (r: &'static str)
    ensures
        r@ == brief_name_of(unit@),
{
    let u = str_chars(unit);
    if chars_eq_str(&u, "kaonic-commd.service") {
        "Radio control"
    } else if chars_eq_str(&u, "kaonic-factory.service") {
        "Factory setup"
    } else if chars_eq_str(&u, "kaonic-gateway.service") {
        "Web gateway"
    } else if chars_eq_str(&u, "kaonic-installer.service") {
        "Installer agent"
    } else {
        "Service"
    }
}

/// The one-word status of a unit from its load, active and sub states.
pub open spec fn service_status_text(load: Seq<char>, active: Seq<char>, sub: Seq<char>) -> Seq<
    char,
> {
    if load != "loaded"@ && load.len() > 0 {
        load
    } else if active.len() == 0 && sub.len() == 0 {
        "unknown"@
    } else if sub.len() == 0 || sub == active {
        active
    } else {
        active + " ("@ + sub + ")"@
    }
}

/// The status of a unit from its load, active and sub states.
pub fn format_service_status(load_state: &str, active_state: &str, sub_state: &str) -> (r: String)
    ensures
        r@ == service_status_text(load_state@, active_state@, sub_state@),
{
    let l = str_chars(load_state);
    let a = str_chars(active_state);
    let s = str_chars(sub_state);
    if !chars_eq_str(&l, "loaded") && l.len() > 0 {
        return load_state.to_owned();
    }
    if a.len() == 0 && s.len() == 0 {
        return "unknown".to_owned();
    }
    if s.len() == 0 || crate::text::chars_eq(&s, &a) {
        return active_state.to_owned();
    }
    let mut out: Vec<char> = Vec::new();
    extend_str(&mut out, active_state);
    extend_str(&mut out, " (");
    extend_str(&mut out, sub_state);
    extend_str(&mut out, ")");
    chars_to_string(&out)
}

/// The `n`-th line of a text, trimmed, or `default` when there is none.
pub open spec fn nth_line_or(ls: Seq<Seq<char>>, n: int, default: Seq<char>) -> Seq<char> {
    if n < ls.len() {
        trim(ls[n])
    } else {
        trim(default)
    }
}

fn nth_line_or_exec(ls: &Vec<Vec<char>>, n: usize, default: &str) -> (r: String)
    ensures
        r@ == nth_line_or(views(ls@), n as int, default@),
{
    if n < ls.len() {
        assert(views(ls@)[n as int] == ls@[n as int]@);
        chars_to_string(&trim_chars(&ls[n]))
    } else {
        chars_to_string(&trim_chars(&str_chars(default)))
    }
}

/// The status of a unit from the output of `systemctl show
/// --property=LoadState --property=ActiveState --property=SubState --value`.
pub fn service_status_from_output(unit: &str, success: bool, stdout: &str, stderr: &str) -> (r:
    ServiceStatus)
    ensures
        r.unit@ == unit@,
        r.brief_name@ == brief_name_of(unit@),
        success ==> ({
            let ls = lines(stdout@);
            &&& r.load_state@ == nth_line_or(ls, 0, "unknown"@)
            &&& r.active_state@ == nth_line_or(ls, 1, "unknown"@)
            &&& r.sub_state@ == nth_line_or(ls, 2, ""@)
            &&& r.status@ == service_status_text(r.load_state@, r.active_state@, r.sub_state@)
        }),
        !success ==> ({
            let m = if trim(stderr@).len() == 0 {
                trim(stdout@)
            } else {
                trim(stderr@)
            };
            &&& r.load_state@ == "unknown"@
            &&& r.active_state@ == "error"@
            &&& r.sub_state@ == Seq::<char>::empty()
            &&& r.status@ == if m.len() == 0 {
                "systemctl error"@
            } else {
                m
            }
        }),
{
    if success {
        let ls = lines_chars(&str_chars(stdout));
        let load_state = nth_line_or_exec(&ls, 0, "unknown");
        let active_state = nth_line_or_exec(&ls, 1, "unknown");
        let sub_state = nth_line_or_exec(&ls, 2, "");
        proof {
            reveal_strlit("");
            assert(trim(""@) =~= ""@);
        }
        let status = format_service_status(
            load_state.as_str(),
            active_state.as_str(),
            sub_state.as_str(),
        );
        ServiceStatus {
            unit: unit.to_owned(),
            brief_name: service_brief_name(unit).to_owned(),
            load_state,
            active_state,
            sub_state,
            status,
        }
    } else {
        let e = trim_chars(&str_chars(stderr));
        let m = if e.len() == 0 {
            trim_chars(&str_chars(stdout))
        } else {
            e
        };
        let status = if m.len() == 0 {
            "systemctl error".to_owned()
        } else {
            chars_to_string(&m)
        };
        ServiceStatus {
            unit: unit.to_owned(),
            brief_name: service_brief_name(unit).to_owned(),
            load_state: "unknown".to_owned(),
            active_state: "error".to_owned(),
            sub_state: String::new(),
            status,
        }
    }
}

/// The status of a unit when `systemctl` could not be run.
pub fn service_status_unavailable(unit: &str, error: &str) -> (r: ServiceStatus)
    ensures
        r.unit@ == unit@,
        r.brief_name@ == brief_name_of(unit@),
        r.load_state@ == "unknown"@,
        r.active_state@ == "error"@,
        r.sub_state@ == Seq::<char>::empty(),
        r.status@ == "systemctl unavailable: "@ + error@,
{
    let mut out: Vec<char> = Vec::new();
    extend_str(&mut out, "systemctl unavailable: ");
    extend_str(&mut out, error);
    ServiceStatus {
        unit: unit.to_owned(),
        brief_name: service_brief_name(unit).to_owned(),
        load_state: "unknown".to_owned(),
        active_state: "error".to_owned(),
        sub_state: String::new(),
        status: chars_to_string(&out),
    }
}

/// The status of a unit on a host without systemd.
pub fn service_status_mock(unit: &str) -> (r: ServiceStatus)
    ensures
        r.unit@ == unit@,
        r.brief_name@ == brief_name_of(unit@),
        r.load_state@ == "mock"@,
        r.active_state@ == "unknown"@,
        r.sub_state@ == Seq::<char>::empty(),
        r.status@ == "Unavailable on this host"@,
{
    ServiceStatus {
        unit: unit.to_owned(),
        brief_name: service_brief_name(unit).to_owned(),
        load_state: "mock".to_owned(),
        active_state: "unknown".to_owned(),
        sub_state: String::new(),
        status: "Unavailable on this host".to_owned(),
    }
}

} // verus!
