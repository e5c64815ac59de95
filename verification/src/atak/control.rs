//! Local diagnostics control: the requests a local client sends, the text
//! replies it gets, and the settings that decide where control listens.

use vstd::prelude::*;

use vstd::utf8::encode_utf8;

use crate::atak::diagnostics::{
    applied, command_text, disable_result, enable_result, error_message, pruned, recent_of,
    status_of, valid_id, DiagnosticAction, DiagnosticCommand, DiagnosticCommandError,
    DiagnosticModel, DiagnosticRecord, DiagnosticState, DiagnosticStatus, DEFAULT_ENABLE_SECONDS,
    MAX_COMMAND_BYTES, MAX_ENABLE_SECONDS,
};
use crate::text::{
    chars_to_string, chars_eq_str, decimal, extend_chars, extend_str, hex, is_alnum,
    lemma_hex_alnum, lemma_hex_len, lower_all, lower_chars, parse_unsigned, parse_unsigned_chars,
    pow16, push_decimal, push_hex, str_chars, trim, trim_chars, utf8_chars, utf8_text, views,
    words, words_chars,
};

verus! {

/// Most records a local `recent` request may ask for.
pub const MAX_LOCAL_RECENT_RECORDS: usize = 20;

/// Records a bare `recent` request returns.
pub const DEFAULT_LOCAL_RECENT_RECORDS: usize = 10;

/// Requests of this many bytes or more are refused.
pub const MAX_LOCAL_DIAGNOSTIC_REQUEST_BYTES: usize = 256;

/// A request from a local diagnostics client.
#[derive(Debug, Clone, Copy, PartialEq, Eq, Structural)]
pub enum LocalDiagnosticRequest {
    Enable(u64),
    Disable,
    Status,
    Recent(usize),
}

/// What a request text asks for: its whitespace-separated words are
/// `enable [seconds]`, `disable`, `status` or `recent [limit]`.
pub open spec fn local_request_text(text: Seq<char>) -> Result<LocalDiagnosticRequest, Seq<char>> {
    let w = words(text);
    if w.len() == 1 && w[0] == "enable"@ {
        Ok(LocalDiagnosticRequest::Enable(DEFAULT_ENABLE_SECONDS))
    } else if w.len() == 2 && w[0] == "enable"@ {
        match parse_unsigned(w[1], u64::MAX as nat) {
            None => Err("enable duration must be an integer number of seconds"@),
            Some(s) => if 1 <= s <= MAX_ENABLE_SECONDS {
                Ok(LocalDiagnosticRequest::Enable(s as u64))
            } else {
                Err("enable duration must be between 1 and 86400 seconds"@)
            },
        }
    } else if w.len() == 1 && w[0] == "disable"@ {
        Ok(LocalDiagnosticRequest::Disable)
    } else if w.len() == 1 && w[0] == "status"@ {
        Ok(LocalDiagnosticRequest::Status)
    } else if w.len() == 1 && w[0] == "recent"@ {
        Ok(LocalDiagnosticRequest::Recent(DEFAULT_LOCAL_RECENT_RECORDS))
    } else if w.len() == 2 && w[0] == "recent"@ {
        match parse_unsigned(w[1], usize::MAX as nat) {
            None => Err("recent limit must be an integer"@),
            Some(l) => if 1 <= l <= MAX_LOCAL_RECENT_RECORDS {
                Ok(LocalDiagnosticRequest::Recent(l as usize))
            } else {
                Err("recent limit must be between 1 and 20"@)
            },
        }
    } else {
        Err("expected: enable [seconds], disable, status, or recent [1-20]"@)
    }
}

/// What a request payload asks for, or why it is refused.
pub open spec fn local_request(payload: Seq<u8>) -> Result<LocalDiagnosticRequest, Seq<char>> {
    if payload.len() >= MAX_LOCAL_DIAGNOSTIC_REQUEST_BYTES || payload.len() > MAX_COMMAND_BYTES {
        Err("local diagnostics command is too large"@)
    } else {
        match utf8_text(payload) {
            None => Err("local diagnostics command is not UTF-8"@),
            Some(t) => local_request_text(t),
        }
    }
}

/// Reads a local diagnostics request.
pub fn parse_local_diagnostic_request(payload: &[u8]) -> (r: Result<LocalDiagnosticRequest, String>)
    ensures
        match r {
            Ok(q) => local_request(payload@) == Ok::<LocalDiagnosticRequest, Seq<char>>(q),
            Err(e) => local_request(payload@) == Err::<LocalDiagnosticRequest, Seq<char>>(e@),
        },
{
    if payload.len() >= MAX_LOCAL_DIAGNOSTIC_REQUEST_BYTES || payload.len() > MAX_COMMAND_BYTES {
        return Err("local diagnostics command is too large".to_owned());
    }
    let text = match utf8_chars(payload) {
        Some(t) => t,
        None => return Err("local diagnostics command is not UTF-8".to_owned()),
    };
    let w = words_chars(&text);
    let ghost ws = views(w@);
    assert(ws == words(text@));
    if w.len() >= 1 {
        assert(ws[0] == w@[0]@);
    }
    if w.len() == 2 {
        assert(ws[1] == w@[1]@);
    }
    if w.len() == 1 && chars_eq_str(&w[0], "enable") {
        Ok(LocalDiagnosticRequest::Enable(DEFAULT_ENABLE_SECONDS))
    } else if w.len() == 2 && chars_eq_str(&w[0], "enable") {
        match parse_unsigned_chars(&w[1], u64::MAX) {
            None => Err("enable duration must be an integer number of seconds".to_owned()),
            Some(s) => if 1 <= s && s <= MAX_ENABLE_SECONDS {
                Ok(LocalDiagnosticRequest::Enable(s))
            } else {
                Err("enable duration must be between 1 and 86400 seconds".to_owned())
            },
        }
    } else if w.len() == 1 && chars_eq_str(&w[0], "disable") {
        Ok(LocalDiagnosticRequest::Disable)
    } else if w.len() == 1 && chars_eq_str(&w[0], "status") {
        Ok(LocalDiagnosticRequest::Status)
    } else if w.len() == 1 && chars_eq_str(&w[0], "recent") {
        Ok(LocalDiagnosticRequest::Recent(DEFAULT_LOCAL_RECENT_RECORDS))
    } else if w.len() == 2 && chars_eq_str(&w[0], "recent") {
        match parse_unsigned_chars(&w[1], usize::MAX as u64) {
            None => Err("recent limit must be an integer".to_owned()),
            Some(l) => if 1 <= l && l <= MAX_LOCAL_RECENT_RECORDS as u64 {
                Ok(LocalDiagnosticRequest::Recent(l as usize))
            } else {
                Err("recent limit must be between 1 and 20".to_owned())
            },
        }
    } else {
        Err("expected: enable [seconds], disable, status, or recent [1-20]".to_owned())
    }
}

// ---------------------------------------------------------------------------
// Replies
// ---------------------------------------------------------------------------

/// `Display` for `bool`.
pub open spec fn bool_text(b: bool) -> Seq<char> {
    if b {
        "true"@
    } else {
        "false"@
    }
}

/// The status line: `OK enabled=<bool> remaining_seconds=<n> records=<n>`.
pub open spec fn status_text(s: DiagnosticStatus) -> Seq<char> {
    "OK enabled="@ + bool_text(s.enabled) + " remaining_seconds="@ + decimal(
        s.remaining_seconds as nat,
    ) + " records="@ + decimal(s.record_count as nat) + "\n"@
}

/// A field character that is printed as it is: visible ASCII other than `=`.
pub open spec fn keeps_char(c: char) -> bool {
    '!' <= c && c <= '~' && c != '='
}

/// A field with every other character replaced by `_`.
pub open spec fn sanitize(s: Seq<char>) -> Seq<char> {
    s.map_values(|c: char|
        if keeps_char(c) {
            c
        } else {
            '_'
        })
}

/// The line describing one record.  Latitude and longitude are printed as
/// `-` when the event had no point.
pub open spec fn record_text(r: DiagnosticRecord) -> Seq<char> {
    let callsign = match r.callsign {
        Some(c) => c@,
        None => "-"@,
    };
    let (lat, lon) = match r.point {
        Some((a, b)) => (a@, b@),
        None => ("-"@, "-"@),
    };
    "RECORD unix_ms="@ + decimal(r.observed_at_ms as nat) + " peer="@ + r.remote_peer_hash@
        + " port="@ + decimal(r.channel_port as nat) + " uid="@ + sanitize(r.uid@) + " callsign="@
        + sanitize(callsign) + " type="@ + sanitize(r.event_type@) + " lat="@ + lat + " lon="@
        + lon + "\n"@
}

/// The lines of several records, in order.
pub open spec fn records_text(rs: Seq<DiagnosticRecord>) -> Seq<char>
    decreases rs.len(),
{
    if rs.len() == 0 {
        Seq::empty()
    } else {
        records_text(rs.drop_last()) + record_text(rs.last())
    }
}

/// The reply to `recent`: the status line, then the newest records first.
pub open spec fn recent_text(m: DiagnosticModel, limit: nat, now: u64) -> Seq<char> {
    status_text(status_of(m, now)) + records_text(recent_of(pruned(m, now).records, limit))
}

/// Replaces every character that is not visible ASCII, and every `=`, by `_`.
pub fn sanitize_field(value: &str) -> (r: String)
    ensures
        r@ == sanitize(value@),
{
    let chars = str_chars(value);
    let mut out: Vec<char> = Vec::new();
    let mut i: usize = 0;
    while i < chars.len()
        invariant
            i <= chars.len(),
            chars@ == value@,
            out@ == sanitize(chars@.take(i as int)),
        decreases chars.len() - i,
    {
        let c = chars[i];
        let kept = '!' <= c && c <= '~' && c != '=';
        out.push(
            if kept {
                c
            } else {
                '_'
            },
        );
        assert(sanitize(chars@.take(i + 1)) =~= sanitize(chars@.take(i as int)).push(
            if keeps_char(c) {
                c
            } else {
                '_'
            },
        ));
        i += 1;
    }
    assert(chars@.take(chars.len() as int) =~= chars@);
    chars_to_string(&out)
}

fn push_bool(out: &mut Vec<char>, b: bool)
    ensures
        final(out)@ == old(out)@ + bool_text(b),
{
    if b {
        extend_str(out, "true");
    } else {
        extend_str(out, "false");
    }
}

/// The status line of a status value.
pub fn status_line(status: &DiagnosticStatus) -> (r: String)
    ensures
        r@ == status_text(*status),
{
    let mut out: Vec<char> = Vec::new();
    extend_str(&mut out, "OK enabled=");
    push_bool(&mut out, status.enabled);
    extend_str(&mut out, " remaining_seconds=");
    push_decimal(&mut out, status.remaining_seconds);
    extend_str(&mut out, " records=");
    push_decimal(&mut out, status.record_count as u64);
    extend_str(&mut out, "\n");
    assert(out@ =~= status_text(*status));
    chars_to_string(&out)
}

/// The line describing one record.
pub fn format_diagnostic_record(record: &DiagnosticRecord) -> (r: String)
    ensures
        r@ == record_text(*record),
{
    let mut out: Vec<char> = Vec::new();
    extend_str(&mut out, "RECORD unix_ms=");
    push_decimal(&mut out, record.observed_at_ms);
    extend_str(&mut out, " peer=");
    extend_str(&mut out, record.remote_peer_hash.as_str());
    extend_str(&mut out, " port=");
    push_decimal(&mut out, record.channel_port as u64);
    extend_str(&mut out, " uid=");
    let uid = sanitize_field(record.uid.as_str());
    extend_str(&mut out, uid.as_str());
    extend_str(&mut out, " callsign=");
    let callsign = match &record.callsign {
        Some(c) => sanitize_field(c.as_str()),
        None => sanitize_field("-"),
    };
    extend_str(&mut out, callsign.as_str());
    extend_str(&mut out, " type=");
    let event_type = sanitize_field(record.event_type.as_str());
    extend_str(&mut out, event_type.as_str());
    extend_str(&mut out, " lat=");
    match &record.point {
        Some((lat, lon)) => {
            extend_str(&mut out, lat.as_str());
            extend_str(&mut out, " lon=");
            extend_str(&mut out, lon.as_str());
        },
        None => {
            extend_str(&mut out, "-");
            extend_str(&mut out, " lon=");
            extend_str(&mut out, "-");
        },
    }
    extend_str(&mut out, "\n");
    proof {
        reveal_strlit("-");
        let dash = "-"@;
        assert(sanitize(dash) =~= dash);
    }
    assert(out@ =~= record_text(*record));
    chars_to_string(&out)
}

/// The status reply at `now_ms`.
pub fn format_diagnostic_status(state: &mut DiagnosticState, now_ms: u64) -> (r: String)
    requires
        old(state).wf(),
    ensures
        final(state).wf(),
        final(state).model() == pruned(old(state).model(), now_ms),
        r@ == status_text(status_of(old(state).model(), now_ms)),
{
    let status = state.status(now_ms);
    status_line(&status)
}

/// The reply to `recent` at `now_ms`: the status line, then up to `limit`
/// records, newest first.
pub fn format_recent_records(state: &mut DiagnosticState, limit: usize, now_ms: u64) -> (r: String)
    requires
        old(state).wf(),
    ensures
        final(state).wf(),
        final(state).model() == pruned(old(state).model(), now_ms),
        r@ == recent_text(old(state).model(), limit as nat, now_ms),
{
    let ghost m0 = state.model();
    let records = state.recent(limit, now_ms);
    let status = state.status(now_ms);
    proof {
        crate::atak::diagnostics::lemma_pruned_idempotent(m0, now_ms);
    }
    let mut out: Vec<char> = Vec::new();
    let head = status_line(&status);
    extend_str(&mut out, head.as_str());
    let mut i: usize = 0;
    while i < records.len()
        invariant
            i <= records.len(),
            out@ == status_text(status) + records_text(records@.take(i as int)),
        decreases records.len() - i,
    {
        let line = format_diagnostic_record(&records[i]);
        extend_str(&mut out, line.as_str());
        assert(records@.take(i + 1).drop_last() =~= records@.take(i as int));
        i += 1;
    }
    assert(records@.take(records.len() as int) =~= records@);
    chars_to_string(&out)
}

// ---------------------------------------------------------------------------
// Configuration
// ---------------------------------------------------------------------------

/// The path of the local diagnostics socket when none is configured.
pub open spec fn default_socket_path() -> Seq<char> {
    "/run/kaonic-atak-plugin/diagnostics.sock"@
}

/// The verdict on a diagnostics socket path: it must be non-empty and
/// absolute (begin with `/`).
pub open spec fn socket_path_check(path: Seq<char>) -> Result<(), Seq<char>> {
    if path.len() == 0 {
        Err("socket path is empty"@)
    } else if path[0] != '/' {
        Err("socket path must be absolute: "@ + path)
    } else {
        Ok(())
    }
}

/// Checks a diagnostics socket path.
pub fn validate_diagnostics_unix_socket_path(path: &str) -> (r: Result<(), String>)
    ensures
        match r {
            Ok(()) => socket_path_check(path@) == Ok::<(), Seq<char>>(()),
            Err(e) => socket_path_check(path@) == Err::<(), Seq<char>>(e@),
        },
{
    let chars = str_chars(path);
    if chars.len() == 0 {
        return Err("socket path is empty".to_owned());
    }
    if chars[0] != '/' {
        let mut out: Vec<char> = Vec::new();
        extend_str(&mut out, "socket path must be absolute: ");
        extend_chars(&mut out, &chars);
        return Err(chars_to_string(&out));
    }
    Ok(())
}

/// A setting's value trimmed, or nothing when it is unset or blank.
pub open spec fn non_empty(raw: Option<Seq<char>>) -> Option<Seq<char>> {
    match raw {
        Some(v) => if trim(v).len() > 0 {
            Some(trim(v))
        } else {
            None
        },
        None => None,
    }
}

/// Trims a setting's value and drops it when blank.
pub fn non_empty_value(raw: Option<&str>) -> (r: Option<String>)
    ensures
        match r {
            Some(v) => non_empty(
                match raw {
                    Some(x) => Some(x@),
                    None => None,
                },
            ) == Some(v@),
            None => non_empty(
                match raw {
                    Some(x) => Some(x@),
                    None => None,
                },
            ) is None,
        },
{
    match raw {
        Some(v) => {
            let t = trim_chars(&str_chars(v));
            if t.len() > 0 {
                Some(chars_to_string(&t))
            } else {
                None
            }
        },
        None => None,
    }
}

/// A flag setting is on: its trimmed value is `1`, `true`, `yes` or `on`,
/// in any ASCII case.
pub open spec fn flag_on(raw: Option<Seq<char>>) -> bool {
    match non_empty(raw) {
        Some(v) => {
            let l = lower_all(v);
            l == "1"@ || l == "true"@ || l == "yes"@ || l == "on"@
        },
        None => false,
    }
}

/// Whether a flag setting is on.
pub fn env_flag_enabled(raw: Option<&str>) -> (r: bool)
    ensures
        r == flag_on(
            match raw {
                Some(x) => Some(x@),
                None => None,
            },
        ),
{
    match non_empty_value(raw) {
        Some(v) => {
            let l = lower_chars(&str_chars(v.as_str()));
            chars_eq_str(&l, "1") || chars_eq_str(&l, "true") || chars_eq_str(&l, "yes")
                || chars_eq_str(&l, "on")
        },
        None => false,
    }
}

/// The diagnostics socket path to use: the command-line value, else the
/// setting, else the default; nothing when that path is not valid.
pub open spec fn chosen_socket_path(cli: Option<Seq<char>>, setting: Option<Seq<char>>) -> Option<
    Seq<char>,
> {
    let path = match cli {
        Some(p) => p,
        None => match non_empty(setting) {
            Some(p) => p,
            None => default_socket_path(),
        },
    };
    if socket_path_check(path) is Ok {
        Some(path)
    } else {
        None
    }
}

/// Chooses the diagnostics socket path from the command line and the
/// setting.
pub fn configured_diagnostics_unix_socket(cli_value: Option<&str>, setting: Option<&str>) -> (r:
    Option<String>)
    ensures
        match r {
            Some(p) => chosen_socket_path(
                match cli_value {
                    Some(x) => Some(x@),
                    None => None,
                },
                match setting {
                    Some(x) => Some(x@),
                    None => None,
                },
            ) == Some(p@),
            None => chosen_socket_path(
                match cli_value {
                    Some(x) => Some(x@),
                    None => None,
                },
                match setting {
                    Some(x) => Some(x@),
                    None => None,
                },
            ) is None,
        },
{
    let path: String = match cli_value {
        Some(p) => p.to_owned(),
        None => match non_empty_value(setting) {
            Some(p) => p,
            None => "/run/kaonic-atak-plugin/diagnostics.sock".to_owned(),
        },
    };
    match validate_diagnostics_unix_socket_path(path.as_str()) {
        Ok(()) => Some(path),
        Err(_) => None,
    }
}

/// An IP address: IPv4 as its 32-bit value, IPv6 as its 128-bit value.
#[derive(Debug, Clone, Copy, PartialEq, Eq, Structural)]
pub enum IpAddress {
    V4(u32),
    V6(u128),
}

/// A socket address to listen on.
#[derive(Debug, Clone, Copy, PartialEq, Eq, Structural)]
pub struct ListenAddress {
    pub ip: IpAddress,
    pub port: u16,
}

/// A loopback address: 127.0.0.0/8, or `::1`.
pub open spec fn is_loopback(ip: IpAddress) -> bool {
    match ip {
        IpAddress::V4(a) => a / 0x100_0000 == 127,
        IpAddress::V6(a) => a == 1,
    }
}

/// Whether an address is a loopback address.
pub fn ip_is_loopback(ip: IpAddress) -> (r: bool)
    ensures
        r == is_loopback(ip),
{
    match ip {
        IpAddress::V4(a) => a / 0x100_0000 == 127,
        IpAddress::V6(a) => a == 1,
    }
}

/// The refusal of a non-loopback listen address.
pub open spec fn listen_refusal() -> Seq<char> {
    "diagnostics local control socket must bind to loopback unless --allow-insecure-diagnostics-control-listen or KAONIC_ATAK_ALLOW_INSECURE_DIAGNOSTICS_CONTROL_LISTEN=true is set"@
}

/// The local control socket must listen on loopback unless insecure binding
/// was allowed.
pub fn validate_diagnostics_control_listen(listen_addr: ListenAddress, allow_insecure: bool) -> (r:
    Result<(), String>)
    ensures
        r is Ok <==> (is_loopback(listen_addr.ip) || allow_insecure),
        r matches Err(e) ==> e@ == listen_refusal(),
{
    if ip_is_loopback(listen_addr.ip) || allow_insecure {
        Ok(())
    } else {
        Err(
            "diagnostics local control socket must bind to loopback unless --allow-insecure-diagnostics-control-listen or KAONIC_ATAK_ALLOW_INSECURE_DIAGNOSTICS_CONTROL_LISTEN=true is set".to_owned(),
        )
    }
}

/// The local control address to listen on: the command-line value, else the
/// setting (already read as an address), kept only when it passes
/// [`validate_diagnostics_control_listen`].
pub fn configured_diagnostics_udp_addr(
    cli_value: Option<ListenAddress>,
    setting: Option<ListenAddress>,
    allow_insecure: bool,
) -> (r: Option<ListenAddress>)
    ensures
        ({
            let configured = match cli_value {
                Some(v) => Some(v),
                None => setting,
            };
            match configured {
                Some(a) => if is_loopback(a.ip) || allow_insecure {
                    r == Some(a)
                } else {
                    r is None
                },
                None => r is None,
            }
        }),
{
    let configured = match cli_value {
        Some(v) => Some(v),
        None => setting,
    };
    match configured {
        Some(a) => match validate_diagnostics_control_listen(a, allow_insecure) {
            Ok(()) => Some(a),
            Err(_) => None,
        },
        None => None,
    }
}

/// How opening one local control endpoint went.
#[derive(Debug, Clone, PartialEq, Eq)]
pub enum EndpointOutcome {
    NotConfigured,
    Bound,
    /// The endpoint was configured but could not be opened; the message
    /// says why.
    Failed(String),
}

/// Accounts for one endpoint at start-up: a failure is fatal when control is
/// required.  Gives whether some endpoint is available so far.
pub fn control_endpoint_step(require_control: bool, available: bool, outcome: &EndpointOutcome) -> (r:
    Result<bool, String>)
    ensures
        match outcome {
            EndpointOutcome::NotConfigured => r == Ok::<bool, String>(available),
            EndpointOutcome::Bound => r == Ok::<bool, String>(true),
            EndpointOutcome::Failed(m) => if require_control {
                r matches Err(e) && e@ == m@
            } else {
                r == Ok::<bool, String>(available)
            },
        },
{
    match outcome {
        EndpointOutcome::NotConfigured => Ok(available),
        EndpointOutcome::Bound => Ok(true),
        EndpointOutcome::Failed(m) => if require_control {
            Err(m.clone())
        } else {
            Ok(available)
        },
    }
}

/// After all endpoints: having none is fatal when control is required.
pub fn control_availability_check(require_control: bool, available: bool) -> (r: Result<(), String>)
    ensures
        r is Err <==> (require_control && !available),
        r matches Err(e) ==> e@ == "no local diagnostics control endpoint is available"@,
{
    if !available && require_control {
        Err("no local diagnostics control endpoint is available".to_owned())
    } else {
        Ok(())
    }
}

// ---------------------------------------------------------------------------
// Command identifiers
// ---------------------------------------------------------------------------

/// A command identifier: the time in nanoseconds and a random number, both
/// in lowercase hexadecimal, joined by `-`.
pub open spec fn command_id_text(timestamp_nanos: u128, random: u64) -> Seq<char> {
    hex(timestamp_nanos as nat) + "-"@ + hex(random as nat)
}

/// Formats a command identifier.
pub fn format_command_id(timestamp_nanos: u128, random: u64) -> (r: String)
    ensures
        r@ == command_id_text(timestamp_nanos, random),
{
    let mut out: Vec<char> = Vec::new();
    push_hex(&mut out, timestamp_nanos);
    out.push('-');
    push_hex(&mut out, random as u128);
    proof {
        reveal_strlit("-");
    }
    assert(out@ =~= command_id_text(timestamp_nanos, random));
    chars_to_string(&out)
}

/// Every identifier made by [`format_command_id`] is accepted by the
/// diagnostics command format.
pub proof fn lemma_command_id_valid(timestamp_nanos: u128, random: u64)
    ensures
        valid_id(command_id_text(timestamp_nanos, random)),
{
    reveal_strlit("-");
    let a = hex(timestamp_nanos as nat);
    let b = hex(random as nat);
    lemma_hex_alnum(timestamp_nanos as nat);
    lemma_hex_alnum(random as nat);
    assert(pow16(16) == 0x1_0000_0000_0000_0000) by {
        reveal_with_fuel(pow16, 17);
    }
    assert(pow16(32) == 0x1_0000_0000_0000_0000_0000_0000_0000_0000) by {
        reveal_with_fuel(pow16, 33);
    }
    lemma_hex_len(timestamp_nanos as nat, 32);
    lemma_hex_len(random as nat, 16);
    let t = command_id_text(timestamp_nanos, random);
    assert forall|i: int| 0 <= i < t.len() implies is_alnum(#[trigger] t[i]) || t[i] == '-' by {
        if i < a.len() {
            assert(t[i] == a[i]);
        } else if i > a.len() {
            assert(t[i] == b[i - a.len() - 1]);
        }
    }
}

/// `rand::rngs::OsRng` filling eight bytes (`RngCore::try_fill_bytes`),
/// read as a little-endian number; `None` when the operating system's random
/// source fails.  Nothing is claimed of the number.
#[verifier::external_body]
fn os_random_u64() -> (r: Option<u64>) {
    let mut buf = [0u8;8];
    match rand::RngCore::try_fill_bytes(&mut rand::rngs::OsRng, &mut buf) {
        Ok(()) => Some(u64::from_le_bytes(buf)),
        Err(_) => None,
    }
}

/// A fresh command identifier for the time `timestamp_nanos`, with a random
/// part from the operating system; `None` when no random number could be
/// had.
pub fn new_command_id(timestamp_nanos: u128) -> (r: Option<String>)
    ensures
        r matches Some(id) ==> exists|x: u64| id@ == command_id_text(timestamp_nanos, x),
        r matches Some(id) ==> valid_id(id@),
{
    match os_random_u64() {
        Some(x) => {
            let id = format_command_id(timestamp_nanos, x);
            proof {
                lemma_command_id_valid(timestamp_nanos, x);
            }
            Some(id)
        },
        None => None,
    }
}

// ---------------------------------------------------------------------------
// Handling a local request
// ---------------------------------------------------------------------------

/// The reply to a local client, and the command to relay across the mesh.
pub struct LocalDiagnosticReply {
    pub reply: String,
    pub relay: Option<Vec<u8>>,
}

/// An error reply.
pub open spec fn err_reply(e: Seq<char>) -> Seq<char> {
    "ERR "@ + e + "\n"@
}

/// What handling a local request that makes the command `(id, r)` does to
/// the state: the reply is the status after the command is applied, and the
/// command is relayed when mesh control is on.
pub open spec fn command_handled(
    old_m: DiagnosticModel,
    new_m: DiagnosticModel,
    reply: LocalDiagnosticReply,
    id: Seq<char>,
    r: Result<DiagnosticAction, DiagnosticCommandError>,
    mesh_control: bool,
    now: u64,
) -> bool {
    match r {
        Err(e) => reply.reply@ == err_reply(error_message(e)) && reply.relay is None && new_m
            == old_m,
        Ok(a) => {
            let m1 = applied(old_m, id, a, now).0;
            &&& new_m == pruned(m1, now)
            &&& reply.reply@ == status_text(status_of(m1, now))
            &&& if mesh_control {
                reply.relay matches Some(b) && b@ == encode_utf8(command_text(id, a))
            } else {
                reply.relay is None
            }
        },
    }
}

/// Handles one request from a local diagnostics client at `now_ms`.  An
/// enable or disable request becomes a command under `command_id`, applied
/// here and, with mesh control on, handed back for relaying.
pub fn handle_local_diagnostic_request(
    state: &mut DiagnosticState,
    payload: &[u8],
    command_id: String,
    mesh_control: bool,
    now_ms: u64,
) -> (r: LocalDiagnosticReply)
    requires
        old(state).wf(),
    ensures
        final(state).wf(),
        match local_request(payload@) {
            Err(e) => r.reply@ == err_reply(e) && r.relay is None && final(state).model() == old(state).model(),
            Ok(LocalDiagnosticRequest::Status) => r.reply@ == status_text(
                status_of(old(state).model(), now_ms),
            ) && r.relay is None && final(state).model() == pruned(old(state).model(), now_ms),
            Ok(LocalDiagnosticRequest::Recent(l)) => r.reply@ == recent_text(
                old(state).model(),
                l as nat,
                now_ms,
            ) && r.relay is None && final(state).model() == pruned(old(state).model(), now_ms),
            Ok(LocalDiagnosticRequest::Enable(s)) => command_handled(
                old(state).model(),
                final(state).model(),
                r,
                command_id@,
                enable_result(command_id@, s),
                mesh_control,
                now_ms,
            ),
            Ok(LocalDiagnosticRequest::Disable) => command_handled(
                old(state).model(),
                final(state).model(),
                r,
                command_id@,
                disable_result(command_id@),
                mesh_control,
                now_ms,
            ),
        },
{
    let request = match parse_local_diagnostic_request(payload) {
        Ok(q) => q,
        Err(e) => {
            return LocalDiagnosticReply { reply: error_reply(e.as_str()), relay: None };
        },
    };
    match request {
        LocalDiagnosticRequest::Status => {
            let reply = format_diagnostic_status(state, now_ms);
            LocalDiagnosticReply { reply, relay: None }
        },
        LocalDiagnosticRequest::Recent(limit) => {
            let reply = format_recent_records(state, limit, now_ms);
            LocalDiagnosticReply { reply, relay: None }
        },
        LocalDiagnosticRequest::Enable(seconds) => {
            let made = DiagnosticCommand::enable(command_id, seconds);
            run_local_command(state, made, mesh_control, now_ms)
        },
        LocalDiagnosticRequest::Disable => {
            let made = DiagnosticCommand::disable(command_id);
            run_local_command(state, made, mesh_control, now_ms)
        },
    }
}

fn error_reply(e: &str) -> (r: String)
    ensures
        r@ == err_reply(e@),
{
    let mut out: Vec<char> = Vec::new();
    extend_str(&mut out, "ERR ");
    extend_str(&mut out, e);
    extend_str(&mut out, "\n");
    chars_to_string(&out)
}

fn run_local_command(
    state: &mut DiagnosticState,
    made: Result<DiagnosticCommand, DiagnosticCommandError>,
    mesh_control: bool,
    now_ms: u64,
) -> (r: LocalDiagnosticReply)
    requires
        old(state).wf(),
    ensures
        final(state).wf(),
        match made {
            Err(e) => r.reply@ == err_reply(error_message(e)) && r.relay is None && final(state).model() == old(state).model(),
            Ok(c) => {
                let m1 = applied(old(state).model(), c.id@, c.action, now_ms).0;
                &&& final(state).model() == pruned(m1, now_ms)
                &&& r.reply@ == status_text(status_of(m1, now_ms))
                &&& if mesh_control {
                    r.relay matches Some(b) && b@ == encode_utf8(command_text(c.id@, c.action))
                } else {
                    r.relay is None
                }
            },
        },
{
    match made {
        Err(e) => {
            let m = e.message();
            LocalDiagnosticReply { reply: error_reply(m.as_str()), relay: None }
        },
        Ok(command) => {
            state.apply_once(&command, now_ms);
            let reply = format_diagnostic_status(state, now_ms);
            let relay = if mesh_control {
                Some(command.encode())
            } else {
                None
            };
            LocalDiagnosticReply { reply, relay }
        },
    }
}

} // verus!
