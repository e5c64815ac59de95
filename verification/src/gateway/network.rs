//! WiFi settings of the gateway: modes, antennas, credentials, the mock
//! network used where there is no real one, and reading the output of the
//! network tools (`ip`, `ifconfig`, `iw`, `wpa_supplicant` configuration).

use vstd::prelude::*;

use crate::text::{opt_view, 
    chars_eq_str, chars_to_string, copy_range, extend_str, find, find_chars, lemma_find_from_bounds,
    lines, lines_chars, lower_all, lower_chars, split, split_chars, starts_with, starts_with_str,
    str_chars, strip_prefix, strip_prefix_str, trim, trim_char, trim_char_chars, trim_chars, views,
    words, words_chars,
};

verus! {

/// The WiFi role of the gateway.
#[derive(Debug, Clone, Copy, PartialEq, Eq, Structural)]
pub enum WifiMode {
    Ap,
    Sta,
}

/// The WiFi antenna in use.
#[derive(Debug, Clone, Copy, PartialEq, Eq, Structural)]
pub enum WifiAntenna {
    Internal,
    External,
}

/// Why a network operation failed.
#[derive(Debug, Clone, PartialEq, Eq)]
pub enum NetworkError {
    InvalidMode(String),
    InvalidAntenna(String),
    InvalidSsid,
    InvalidPsk,
    MissingStaConfig,
    StatePoisoned,
    TaskJoin(String),
    ModeFileWrite(String),
    /// The command could not be run; `message` is the operating system's
    /// error.
    CommandIo { command: String, message: String },
    CommandFailed { command: String, message: String },
}

/// The name of a WiFi mode.
pub open spec fn mode_text(m: WifiMode) -> Seq<char> {
    match m {
        WifiMode::Ap => "ap"@,
        WifiMode::Sta => "sta"@,
    }
}

/// The name of an antenna.
pub open spec fn antenna_text(a: WifiAntenna) -> Seq<char> {
    match a {
        WifiAntenna::Internal => "internal"@,
        WifiAntenna::External => "external"@,
    }
}

/// The mode a text names: `ap`/`AP` or `sta`/`STA`.
pub open spec fn mode_of(v: Seq<char>) -> Option<WifiMode> {
    if v == "ap"@ || v == "AP"@ {
        Some(WifiMode::Ap)
    } else if v == "sta"@ || v == "STA"@ {
        Some(WifiMode::Sta)
    } else {
        None
    }
}

/// The antenna a text names: `internal`/`INTERNAL` or
/// `external`/`EXTERNAL`.
pub open spec fn antenna_of(v: Seq<char>) -> Option<WifiAntenna> {
    if v == "internal"@ || v == "INTERNAL"@ {
        Some(WifiAntenna::Internal)
    } else if v == "external"@ || v == "EXTERNAL"@ {
        Some(WifiAntenna::External)
    } else {
        None
    }
}

impl WifiMode {
    /// Reads a mode.
    pub fn parse(value: &str) -> (r: Option<Self>)
        ensures
            r == mode_of(value@),
    {
        let v = str_chars(value);
        if chars_eq_str(&v, "ap") || chars_eq_str(&v, "AP") {
            Some(WifiMode::Ap)
        } else if chars_eq_str(&v, "sta") || chars_eq_str(&v, "STA") {
            Some(WifiMode::Sta)
        } else {
            None
        }
    }

    /// The name of the mode.
    pub fn as_str(self) -> (r: &'static str)
        ensures
            r@ == mode_text(self),
    {
        match self {
            WifiMode::Ap => "ap",
            WifiMode::Sta => "sta",
        }
    }
}

impl WifiAntenna {
    /// Reads an antenna.
    pub fn parse(value: &str) -> (r: Option<Self>)
        ensures
            r == antenna_of(value@),
    {
        let v = str_chars(value);
        if chars_eq_str(&v, "internal") || chars_eq_str(&v, "INTERNAL") {
            Some(WifiAntenna::Internal)
        } else if chars_eq_str(&v, "external") || chars_eq_str(&v, "EXTERNAL") {
            Some(WifiAntenna::External)
        } else {
            None
        }
    }

    /// The name of the antenna.
    pub fn as_str(self) -> (r: &'static str)
        ensures
            r@ == antenna_text(self),
    {
        match self {
            WifiAntenna::Internal => "internal",
            WifiAntenna::External => "external",
        }
    }
}

/// A mode's name reads back as the mode.
pub proof fn lemma_mode_round_trip(m: WifiMode)
    ensures
        mode_of(mode_text(m)) == Some(m),
{
    reveal_strlit("ap");
    reveal_strlit("AP");
    reveal_strlit("sta");
    reveal_strlit("STA");
    assert("sta"@.len() != "ap"@.len());
    assert("sta"@.len() != "AP"@.len());
}

/// An antenna's name reads back as the antenna.
pub proof fn lemma_antenna_round_trip(a: WifiAntenna)
    ensures
        antenna_of(antenna_text(a)) == Some(a),
{
    reveal_strlit("internal");
    reveal_strlit("INTERNAL");
    reveal_strlit("external");
    reveal_strlit("EXTERNAL");
    assert("external"@[0] != "internal"@[0]);
    assert("external"@[0] != "INTERNAL"@[0]);
}

/// The description of each error.
pub open spec fn network_error_text(e: NetworkError) -> Seq<char> {
    match e {
        NetworkError::InvalidMode(m) => "invalid WiFi mode '"@ + m@ + "'"@,
        NetworkError::InvalidAntenna(a) => "invalid WiFi antenna '"@ + a@ + "'"@,
        NetworkError::InvalidSsid => "SSID is required"@,
        NetworkError::InvalidPsk => "PSK must be between 8 and 63 characters"@,
        NetworkError::MissingStaConfig => "no saved station WiFi configuration is available"@,
        NetworkError::StatePoisoned => "network mock state lock poisoned"@,
        NetworkError::TaskJoin(s) => "blocking network task failed: "@ + s@,
        NetworkError::ModeFileWrite(s) => "failed to update WiFi mode file: "@ + s@,
        NetworkError::CommandIo { command, message } => "failed to execute `"@ + command@
            + "`: "@ + message@,
        NetworkError::CommandFailed { command, message } => "`"@ + command@ + "` failed: "@
            + message@,
    }
}

impl NetworkError {
    /// The human-readable description of the error.
    pub fn message(&self) -> (r: String)
        ensures
            r@ == network_error_text(*self),
    {
        let mut out: Vec<char> = Vec::new();
        match self {
            NetworkError::InvalidMode(m) => {
                extend_str(&mut out, "invalid WiFi mode '");
                extend_str(&mut out, m.as_str());
                extend_str(&mut out, "'");
            },
            NetworkError::InvalidAntenna(a) => {
                extend_str(&mut out, "invalid WiFi antenna '");
                extend_str(&mut out, a.as_str());
                extend_str(&mut out, "'");
            },
            NetworkError::InvalidSsid => extend_str(&mut out, "SSID is required"),
            NetworkError::InvalidPsk => extend_str(
                &mut out,
                "PSK must be between 8 and 63 characters",
            ),
            NetworkError::MissingStaConfig => extend_str(
                &mut out,
                "no saved station WiFi configuration is available",
            ),
            NetworkError::StatePoisoned => extend_str(&mut out, "network mock state lock poisoned"),
            NetworkError::TaskJoin(s) => {
                extend_str(&mut out, "blocking network task failed: ");
                extend_str(&mut out, s.as_str());
            },
            NetworkError::ModeFileWrite(s) => {
                extend_str(&mut out, "failed to update WiFi mode file: ");
                extend_str(&mut out, s.as_str());
            },
            NetworkError::CommandIo { command, message } => {
                extend_str(&mut out, "failed to execute `");
                extend_str(&mut out, command.as_str());
                extend_str(&mut out, "`: ");
                extend_str(&mut out, message.as_str());
            },
            NetworkError::CommandFailed { command, message } => {
                extend_str(&mut out, "`");
                extend_str(&mut out, command.as_str());
                extend_str(&mut out, "` failed: ");
                extend_str(&mut out, message.as_str());
            },
        }
        chars_to_string(&out)
    }
}

/// Credentials are acceptable: the SSID is not blank and the PSK has 8 to
/// 63 characters.
pub fn validate_wifi_credentials(ssid: &str, psk: &str) -> (r: Result<(), NetworkError>)
    ensures
        trim(ssid@).len() == 0 ==> r == Err::<(), NetworkError>(NetworkError::InvalidSsid),
        trim(ssid@).len() > 0 && !(8 <= psk@.len() <= 63) ==> r == Err::<(), NetworkError>(
            NetworkError::InvalidPsk,
        ),
        trim(ssid@).len() > 0 && 8 <= psk@.len() <= 63 ==> r == Ok::<(), NetworkError>(()),
{
    if trim_chars(&str_chars(ssid)).len() == 0 {
        return Err(NetworkError::InvalidSsid);
    }
    let n = str_chars(psk).len();
    if !(8 <= n && n <= 63) {
        return Err(NetworkError::InvalidPsk);
    }
    Ok(())
}

// ---------------------------------------------------------------------------
// Snapshots and the mock network
// ---------------------------------------------------------------------------

/// The WiFi state shown to the user.
#[derive(Debug, Clone, PartialEq, Eq)]
pub struct WifiStatus {
    pub mode: String,
    pub antenna: String,
    pub antenna_supported: bool,
    pub configured_ssid: Option<String>,
    pub connected_ssid: Option<String>,
    pub wlan0_ip: Option<String>,
    pub hostapd_status: String,
    pub wpa_supplicant_status: String,
    pub link_details: String,
}

/// The network state shown to the user.
#[derive(Debug, Clone, PartialEq, Eq)]
pub struct NetworkSnapshot {
    pub backend: String,
    pub interface_source: String,
    pub interface_details: String,
    pub wifi: WifiStatus,
}

fn copy_opt(o: &Option<String>) -> (r: Option<String>)
    ensures
        opt_view(r) == opt_view(*o),
{
    match o {
        Some(s) => Some(s.clone()),
        None => None,
    }
}

/// The mock network's state.
pub struct NetworkService {
    mode: WifiMode,
    antenna: WifiAntenna,
    configured_ssid: Option<String>,
    connected_ssid: Option<String>,
}

/// The mock interface listing.
pub open spec fn mock_details_text() -> Seq<char> {
    "lo0: flags=8049<UP,LOOPBACK,RUNNING,MULTICAST> mtu 16384\n    inet 127.0.0.1 netmask 0xff000000\nen0: flags=8863<UP,BROADCAST,SMART,RUNNING,SIMPLEX,MULTICAST> mtu 1500\n    inet 192.168.1.42 netmask 0xffffff00 broadcast 192.168.1.255\nwlan0: flags=8843<UP,BROADCAST,RUNNING,SIMPLEX,MULTICAST> mtu 1500\n    status: mock"@
}

/// The interface listing of the mock network.
pub fn mock_interface_details() -> (r: String)
    ensures
        r@ == mock_details_text(),
{
    "lo0: flags=8049<UP,LOOPBACK,RUNNING,MULTICAST> mtu 16384\n    inet 127.0.0.1 netmask 0xff000000\nen0: flags=8863<UP,BROADCAST,SMART,RUNNING,SIMPLEX,MULTICAST> mtu 1500\n    inet 192.168.1.42 netmask 0xffffff00 broadcast 192.168.1.255\nwlan0: flags=8843<UP,BROADCAST,RUNNING,SIMPLEX,MULTICAST> mtu 1500\n    status: mock".to_owned()
}

/// The address the mock gives `wlan0`.
pub open spec fn mock_wlan0_ip(mode: WifiMode, connected: bool) -> Option<Seq<char>> {
    match mode {
        WifiMode::Ap => Some("192.168.10.1"@),
        WifiMode::Sta => if connected {
            Some("192.168.1.42"@)
        } else {
            None
        },
    }
}

/// The link text of the mock.
pub open spec fn mock_link_text(mode: WifiMode, connected: Option<Seq<char>>) -> Seq<char> {
    match connected {
        Some(ssid) => "Connected to mock network\nSSID: "@ + ssid + "\nSignal: -43 dBm"@,
        None => if mode == WifiMode::Ap {
            "AP mode enabled for mock device"@
        } else {
            "Not connected."@
        },
    }
}

impl NetworkService {
    /// The mock's mode.
    pub closed spec fn mode(&self) -> WifiMode {
        self.mode
    }

    /// The mock's antenna.
    pub closed spec fn antenna(&self) -> WifiAntenna {
        self.antenna
    }

    /// The SSID saved for station mode.
    pub closed spec fn configured(&self) -> Option<Seq<char>> {
        opt_view(self.configured_ssid)
    }

    /// The SSID connected to.
    pub closed spec fn connected(&self) -> Option<Seq<char>> {
        opt_view(self.connected_ssid)
    }

    /// Access point mode, internal antenna, nothing saved or connected.
    pub fn new() -> (s: Self)
        ensures
            s.mode() == WifiMode::Ap,
            s.antenna() == WifiAntenna::Internal,
            s.configured() is None,
            s.connected() is None,
    {
        NetworkService {
            mode: WifiMode::Ap,
            antenna: WifiAntenna::Internal,
            configured_ssid: None,
            connected_ssid: None,
        }
    }

    /// The mock network as shown to the user.
    pub fn snapshot_mock(&self) -> (r: NetworkSnapshot)
        ensures
            r.backend@ == "Mock"@,
            r.interface_source@ == "mock ifconfig"@,
            r.interface_details@ == mock_details_text(),
            r.wifi.mode@ == mode_text(self.mode()),
            r.wifi.antenna@ == antenna_text(self.antenna()),
            r.wifi.antenna_supported,
            opt_view(r.wifi.configured_ssid) == self.configured(),
            opt_view(r.wifi.connected_ssid) == self.connected(),
            opt_view(r.wifi.wlan0_ip) == mock_wlan0_ip(self.mode(), self.connected() is Some),
            r.wifi.hostapd_status@ == (if self.mode() == WifiMode::Ap {
                "active"@
            } else {
                "inactive"@
            }),
            r.wifi.wpa_supplicant_status@ == (if self.mode() == WifiMode::Sta {
                "running"@
            } else {
                "stopped"@
            }),
            r.wifi.link_details@ == mock_link_text(self.mode(), self.connected()),
    {
        let wlan0_ip = match self.mode {
            WifiMode::Ap => Some("192.168.10.1".to_owned()),
            WifiMode::Sta => if self.connected_ssid.is_some() {
                Some("192.168.1.42".to_owned())
            } else {
                None
            },
        };
        let link_details = match &self.connected_ssid {
            Some(ssid) => {
                let mut out: Vec<char> = Vec::new();
                extend_str(&mut out, "Connected to mock network\nSSID: ");
                extend_str(&mut out, ssid.as_str());
                extend_str(&mut out, "\nSignal: -43 dBm");
                chars_to_string(&out)
            },
            None => if self.mode == WifiMode::Ap {
                "AP mode enabled for mock device".to_owned()
            } else {
                "Not connected.".to_owned()
            },
        };
        NetworkSnapshot {
            backend: "Mock".to_owned(),
            interface_source: "mock ifconfig".to_owned(),
            interface_details: mock_interface_details(),
            wifi: WifiStatus {
                mode: self.mode.as_str().to_owned(),
                antenna: self.antenna.as_str().to_owned(),
                antenna_supported: true,
                configured_ssid: copy_opt(&self.configured_ssid),
                connected_ssid: copy_opt(&self.connected_ssid),
                wlan0_ip,
                hostapd_status: if self.mode == WifiMode::Ap {
                    "active".to_owned()
                } else {
                    "inactive".to_owned()
                },
                wpa_supplicant_status: if self.mode == WifiMode::Sta {
                    "running".to_owned()
                } else {
                    "stopped".to_owned()
                },
                link_details,
            },
        }
    }

    /// Switches the mock's mode: access point mode disconnects, station
    /// mode connects to the saved SSID, if any (none is needed).
    pub fn set_wifi_mode_mock(&mut self, mode: WifiMode) -> (r: Result<(), NetworkError>)
        ensures
            r is Ok,
            final(self).mode() == mode,
            final(self).antenna() == old(self).antenna(),
            final(self).configured() == old(self).configured(),
            final(self).connected() == (if mode == WifiMode::Ap {
                None
            } else {
                old(self).configured()
            }),
    {
        match mode {
            WifiMode::Ap => {
                self.mode = WifiMode::Ap;
                self.connected_ssid = None;
            },
            WifiMode::Sta => {
                self.mode = WifiMode::Sta;
                self.connected_ssid = copy_opt(&self.configured_ssid);
            },
        }
        Ok(())
    }

    /// Switches the mock's antenna.
    pub fn set_wifi_antenna_mock(&mut self, antenna: WifiAntenna) -> (r: Result<(), NetworkError>)
        ensures
            r is Ok,
            final(self).antenna() == antenna,
            final(self).mode() == old(self).mode(),
            final(self).configured() == old(self).configured(),
            final(self).connected() == old(self).connected(),
    {
        self.antenna = antenna;
        Ok(())
    }

    /// Connects the mock to `ssid` (trimmed) in station mode.
    pub fn connect_wifi_mock(&mut self, ssid: &str) -> (r: Result<(), NetworkError>)
        ensures
            r is Ok,
            final(self).mode() == WifiMode::Sta,
            final(self).antenna() == old(self).antenna(),
            final(self).configured() == Some(trim(ssid@)),
            final(self).connected() == Some(trim(ssid@)),
    {
        let t = chars_to_string(&trim_chars(&str_chars(ssid)));
        self.mode = WifiMode::Sta;
        self.configured_ssid = Some(t.clone());
        self.connected_ssid = Some(t);
        Ok(())
    }

    /// Checks the credentials, then connects the mock.
    pub fn connect_wifi(&mut self, ssid: &str, psk: &str) -> (r: Result<(), NetworkError>)
        ensures
            trim(ssid@).len() == 0 ==> r == Err::<(), NetworkError>(NetworkError::InvalidSsid),
            trim(ssid@).len() > 0 && !(8 <= psk@.len() <= 63) ==> r == Err::<(), NetworkError>(
                NetworkError::InvalidPsk,
            ),
            r is Err ==> {
                &&& final(self).mode() == old(self).mode()
                &&& final(self).antenna() == old(self).antenna()
                &&& final(self).configured() == old(self).configured()
                &&& final(self).connected() == old(self).connected()
            },
            trim(ssid@).len() > 0 && 8 <= psk@.len() <= 63 ==> {
                &&& r is Ok
                &&& final(self).mode() == WifiMode::Sta
                &&& final(self).antenna() == old(self).antenna()
                &&& final(self).configured() == Some(trim(ssid@))
                &&& final(self).connected() == Some(trim(ssid@))
            },
    {
        validate_wifi_credentials(ssid, psk)?;
        self.connect_wifi_mock(ssid)
    }
}

// ---------------------------------------------------------------------------
// Reading tool output
// ---------------------------------------------------------------------------

/// The first line (after `i`) for which `f` gives something, and what it
/// gives (`Iterator::find_map` over lines).
pub open spec fn find_map_from(
    ls: Seq<Seq<char>>,
    f: spec_fn(Seq<char>) -> Option<Seq<char>>,
    i: int,
) -> Option<Seq<char>>
    decreases ls.len() - i,
{
    if i < 0 || i >= ls.len() {
        None
    } else {
        match f(ls[i]) {
            Some(v) => Some(v),
            None => find_map_from(ls, f, i + 1),
        }
    }
}

/// The address on an `ip addr` line: `inet <address>/<prefix>`.
pub open spec fn ip_addr_line(line: Seq<char>) -> Option<Seq<char>> {
    match strip_prefix(trim(line), "inet "@) {
        Some(v) => Some(trim(split(v, '/')[0])),
        None => None,
    }
}

/// The address read from an `ip addr` line `inet a.b.c.d/p ...` is the text
/// between `inet ` and the first `/` (or the end of the line), trimmed: it
/// holds no `/`, so never the prefix length.
pub proof fn lemma_ip_addr_line_address(line: Seq<char>)
    ensures
        ip_addr_line(line) matches Some(v) ==> forall|k: int| 0 <= k < v.len() ==> #[trigger] v[k]
            != '/',
        match strip_prefix(trim(line), "inet "@) {
            Some(rest) => exists|j: int|
                #![trigger rest.take(j)]
                0 <= j <= rest.len() && (forall|k: int| 0 <= k < j ==> #[trigger] rest[k] != '/') && (j
                    == rest.len() || rest[j] == '/') && ip_addr_line(line) == Some(trim(rest.take(j))),
            None => ip_addr_line(line) is None,
        },
{
    match strip_prefix(trim(line), "inet "@) {
        Some(rest) => {
            crate::text::lemma_split_first(rest, '/');
            let p = split(rest, '/')[0];
            let j = p.len() as int;
            crate::text::lemma_trim_within(p);
            let v = trim(p);
            assert forall|k: int| 0 <= k < v.len() implies #[trigger] v[k] != '/' by {
                assert(p.contains(v[k]));
            }
            assert forall|k: int| 0 <= k < j implies #[trigger] rest[k] != '/' by {
                assert(rest[k] == p[k]);
            }
            assert(rest.take(j) == p);
        },
        None => {},
    }
}

/// The address on an `ifconfig` line: the first word after `inet `.
pub open spec fn ifconfig_line(line: Seq<char>) -> Option<Seq<char>> {
    let t = trim(line);
    match find(t, "inet "@) {
        Some(i) => {
            let w = words(t.skip(i + 5));
            if w.len() > 0 {
                Some(w[0])
            } else {
                None
            }
        },
        None => None,
    }
}

/// The SSID of a `wpa_supplicant` configuration line `ssid=...`, quotes
/// removed; comment lines are skipped.
pub open spec fn ssid_line(line: Seq<char>) -> Option<Seq<char>> {
    let v = trim(line);
    if starts_with(v, "#"@) {
        None
    } else {
        match strip_prefix(v, "ssid="@) {
            Some(s) => Some(trim_char(s, '"')),
            None => None,
        }
    }
}

/// The SSID on an `iw dev ... link` line `SSID: ...`.
pub open spec fn iw_ssid_line(line: Seq<char>) -> Option<Seq<char>> {
    match strip_prefix(trim(line), "SSID: "@) {
        Some(v) => Some(trim(v)),
        None => None,
    }
}

fn ip_addr_line_exec(line: &Vec<char>) -> (r: Option<Vec<char>>)
    ensures
        match r {
            Some(v) => ip_addr_line(line@) == Some(v@),
            None => ip_addr_line(line@) is None,
        },
{
    let t = trim_chars(line);
    match strip_prefix_str(&t, "inet ") {
        Some(v) => {
            let parts = split_chars(&v, '/');
            assert(views(parts@)[0] == parts@[0]@);
            Some(trim_chars(&parts[0]))
        },
        None => None,
    }
}

fn ifconfig_line_exec(line: &Vec<char>) -> (r: Option<Vec<char>>)
    ensures
        match r {
            Some(v) => ifconfig_line(line@) == Some(v@),
            None => ifconfig_line(line@) is None,
        },
{
    let t = trim_chars(line);
    let pat = str_chars("inet ");
    proof {
        reveal_strlit("inet ");
    }
    assert(pat@.len() == 5);
    match find_chars(&t, &pat) {
        Some(i) => {
            proof {
                lemma_find_from_bounds(t@, pat@, 0);
            }
            assert(crate::text::occurs_at(t@, pat@, i as int));
            let n = t.len();
            assert(i + 5 <= n);
            let rest = copy_range(&t, i + 5, n);
            assert(rest@ =~= t@.skip(i + 5));
            let w = words_chars(&rest);
            if w.len() > 0 {
                assert(views(w@)[0] == w@[0]@);
                Some(copy_range(&w[0], 0, w[0].len()))
            } else {
                None
            }
        },
        None => None,
    }
}

fn ssid_line_exec(line: &Vec<char>) -> (r: Option<Vec<char>>)
    ensures
        match r {
            Some(v) => ssid_line(line@) == Some(v@),
            None => ssid_line(line@) is None,
        },
{
    let v = trim_chars(line);
    if starts_with_str(&v, "#") {
        return None;
    }
    match strip_prefix_str(&v, "ssid=") {
        Some(s) => Some(trim_char_chars(&s, '"')),
        None => None,
    }
}

fn iw_ssid_line_exec(line: &Vec<char>) -> (r: Option<Vec<char>>)
    ensures
        match r {
            Some(v) => iw_ssid_line(line@) == Some(v@),
            None => iw_ssid_line(line@) is None,
        },
{
    let t = trim_chars(line);
    match strip_prefix_str(&t, "SSID: ") {
        Some(v) => Some(trim_chars(&v)),
        None => None,
    }
}

/// Which line reader to use.
enum LineReader {
    IpAddr,
    Ifconfig,
    Ssid,
    IwSsid,
}

spec fn reader_fn(k: LineReader) -> spec_fn(Seq<char>) -> Option<Seq<char>> {
    match k {
        LineReader::IpAddr => |l: Seq<char>| ip_addr_line(l),
        LineReader::Ifconfig => |l: Seq<char>| ifconfig_line(l),
        LineReader::Ssid => |l: Seq<char>| ssid_line(l),
        LineReader::IwSsid => |l: Seq<char>| iw_ssid_line(l),
    }
}

fn read_line(k: &LineReader, line: &Vec<char>) -> (r: Option<Vec<char>>)
    ensures
        match r {
            Some(v) => (reader_fn(*k))(line@) == Some(v@),
            None => (reader_fn(*k))(line@) is None,
        },
{
    match k {
        LineReader::IpAddr => ip_addr_line_exec(line),
        LineReader::Ifconfig => ifconfig_line_exec(line),
        LineReader::Ssid => ssid_line_exec(line),
        LineReader::IwSsid => iw_ssid_line_exec(line),
    }
}

fn find_map_lines(text: &str, k: LineReader) -> (r: Option<String>)
    ensures
        opt_view(r) == find_map_from(lines(text@), reader_fn(k), 0),
{
    let t = str_chars(text);
    let ls = lines_chars(&t);
    let ghost lv = views(ls@);
    let mut i: usize = 0;
    while i < ls.len()
        invariant
            i <= ls.len(),
            lv == views(ls@),
            lv == lines(text@),
            find_map_from(lv, reader_fn(k), 0) == find_map_from(lv, reader_fn(k), i as int),
        decreases ls.len() - i,
    {
        assert(lv[i as int] == ls@[i as int]@);
        match read_line(&k, &ls[i]) {
            Some(v) => {
                return Some(chars_to_string(&v));
            },
            None => {},
        }
        i += 1;
    }
    None
}

/// The IPv4 address shown by `ip -4 addr show`: that of the first
/// `inet` line.
pub fn parse_ipv4_from_ip_addr(output: &str) -> (r: Option<String>)
    ensures
        opt_view(r) == find_map_from(lines(output@), |l: Seq<char>| ip_addr_line(l), 0),
{
    find_map_lines(output, LineReader::IpAddr)
}

/// The IPv4 address shown by `ifconfig`: the word after the first `inet `.
pub fn parse_ipv4_from_ifconfig(output: &str) -> (r: Option<String>)
    ensures
        opt_view(r) == find_map_from(lines(output@), |l: Seq<char>| ifconfig_line(l), 0),
{
    find_map_lines(output, LineReader::Ifconfig)
}

/// The SSID saved in a `wpa_supplicant` configuration.
pub fn configured_ssid_from(config: &str) -> (r: Option<String>)
    ensures
        opt_view(r) == find_map_from(lines(config@), |l: Seq<char>| ssid_line(l), 0),
{
    find_map_lines(config, LineReader::Ssid)
}

/// The station link as read from `iw dev wlan0 link`: no SSID and
/// `Disconnected` when it says it is not connected, else the SSID of the
/// first `SSID:` line and the whole output.
pub fn station_link_from(output: &str) -> (r: (Option<String>, String))
    ensures
        ({
            let t = trim(output@);
            if t.len() == 0 || lower_all(t) == lower_all("Not connected."@) {
                r.0 is None && r.1@ == "Disconnected"@
            } else {
                opt_view(r.0) == find_map_from(lines(output@), |l: Seq<char>| iw_ssid_line(l), 0)
                    && r.1@ == output@
            }
        }),
{
    let t = trim_chars(&str_chars(output));
    let lt = lower_chars(&t);
    let lnc = lower_chars(&str_chars("Not connected."));
    if t.len() == 0 || crate::text::chars_eq(&lt, &lnc) {
        return (None, "Disconnected".to_owned());
    }
    (find_map_lines(output, LineReader::IwSsid), output.to_owned())
}

/// The WiFi status assembled from what was read.  In access-point mode
/// the address is the fixed one of the access point and the station values
/// are not used; in station mode they are the address of `wlan0` and the
/// station link.  A service state that could not be read is `unknown`.
pub fn wifi_status_from(
    mode: WifiMode,
    antenna: WifiAntenna,
    antenna_supported: bool,
    configured_ssid: Option<String>,
    station_ip: Option<String>,
    station_link: (Option<String>, String),
    hostapd_status: Option<String>,
    wpa_running: bool,
) -> (r: WifiStatus)
    ensures
        r.mode@ == mode_text(mode),
        r.antenna@ == antenna_text(antenna),
        r.antenna_supported == antenna_supported,
        opt_view(r.configured_ssid) == opt_view(configured_ssid),
        mode == WifiMode::Ap ==> opt_view(r.wlan0_ip) == Some("192.168.10.1"@) && r.connected_ssid
            is None && r.link_details@ == "Access Point mode enabled."@,
        mode == WifiMode::Sta ==> opt_view(r.wlan0_ip) == opt_view(station_ip) && opt_view(
            r.connected_ssid,
        ) == opt_view(station_link.0) && r.link_details@ == station_link.1@,
        r.hostapd_status@ == (match hostapd_status {
            Some(s) => s@,
            None => "unknown"@,
        }),
        r.wpa_supplicant_status@ == (if wpa_running {
            "running"@
        } else {
            "stopped"@
        }),
{
    let (wlan0_ip, connected_ssid, link_details) = match mode {
        WifiMode::Ap => (Some("192.168.10.1".to_owned()), None, "Access Point mode enabled.".to_owned()),
        WifiMode::Sta => (station_ip, station_link.0, station_link.1),
    };
    WifiStatus {
        mode: mode.as_str().to_owned(),
        antenna: antenna.as_str().to_owned(),
        antenna_supported,
        configured_ssid,
        connected_ssid,
        wlan0_ip,
        hostapd_status: match hostapd_status {
            Some(s) => s,
            None => "unknown".to_owned(),
        },
        wpa_supplicant_status: if wpa_running {
            "running".to_owned()
        } else {
            "stopped".to_owned()
        },
        link_details,
    }
}

/// The mode script to run: the path set in the environment, else the
/// installed script, else the one in root's home, else `wifi_mode.sh` in the
/// working directory.  The flags say which of the two absolute paths exist.
pub fn wifi_script_choice(configured: Option<&str>, installed_exists: bool, home_exists: bool) -> (r:
    String)
    ensures
        r@ == (match configured {
            Some(p) => p@,
            None => if installed_exists {
                "/usr/bin/kaonic-wifi-mode"@
            } else if home_exists {
                "/home/root/wifi_mode.sh"@
            } else {
                "wifi_mode.sh"@
            },
        }),
{
    match configured {
        Some(p) => p.to_owned(),
        None => if installed_exists {
            "/usr/bin/kaonic-wifi-mode".to_owned()
        } else if home_exists {
            "/home/root/wifi_mode.sh".to_owned()
        } else {
            "wifi_mode.sh".to_owned()
        },
    }
}

/// The first line of a text, trimmed (empty for an empty text).
pub open spec fn first_line(text: Seq<char>) -> Seq<char> {
    if lines(text).len() > 0 {
        trim(lines(text)[0])
    } else {
        Seq::empty()
    }
}

fn first_line_exec(text: &str) -> (r: Vec<char>)
    ensures
        r@ == first_line(text@),
{
    let ls = lines_chars(&str_chars(text));
    if ls.len() > 0 {
        assert(views(ls@)[0] == ls@[0]@);
        trim_chars(&ls[0])
    } else {
        Vec::new()
    }
}

/// The mode saved in the mode file: its first line, else access point.
pub fn mode_from_file(text: &str) -> (r: WifiMode)
    ensures
        r == match mode_of(first_line(text@)) {
            Some(m) => m,
            None => WifiMode::Ap,
        },
{
    let l = first_line_exec(text);
    match WifiMode::parse(chars_to_string(&l).as_str()) {
        Some(m) => m,
        None => WifiMode::Ap,
    }
}

/// The antenna saved in the antenna file: its first line, else internal.
pub fn antenna_from_file(text: &str) -> (r: WifiAntenna)
    ensures
        r == match antenna_of(first_line(text@)) {
            Some(a) => a,
            None => WifiAntenna::Internal,
        },
{
    let l = first_line_exec(text);
    match WifiAntenna::parse(chars_to_string(&l).as_str()) {
        Some(a) => a,
        None => WifiAntenna::Internal,
    }
}

/// The machine can switch antennas: the machine file names one of the
/// boards that have two.
pub fn machine_supports_antenna(machine: &str) -> (r: bool)
    ensures
        r == (first_line(machine@) == "stm32mp1-kaonic-protob"@ || first_line(machine@)
            == "stm32mp1-kaonic-protoc"@),
{
    let l = first_line_exec(machine);
    chars_eq_str(&l, "stm32mp1-kaonic-protob") || chars_eq_str(&l, "stm32mp1-kaonic-protoc")
}

/// The message of a failed command: its trimmed error output, or its
/// trimmed standard output when the error output is blank.
pub open spec fn failure_message(stdout: Seq<char>, stderr: Seq<char>) -> Seq<char> {
    if trim(stderr).len() == 0 {
        trim(stdout)
    } else {
        trim(stderr)
    }
}

/// What a finished command gives: its output when it succeeded.
pub fn command_outcome(command: &str, success: bool, stdout: &str, stderr: &str) -> (r: Result<
    String,
    NetworkError,
>)
    ensures
        success ==> (r matches Ok(o) && o@ == stdout@),
        !success ==> (r matches Err(NetworkError::CommandFailed { command: c, message: m }) && c@
            == command@ && m@ == failure_message(stdout@, stderr@)),
{
    if success {
        return Ok(stdout.to_owned());
    }
    let e = trim_chars(&str_chars(stderr));
    let message = if e.len() == 0 {
        chars_to_string(&trim_chars(&str_chars(stdout)))
    } else {
        chars_to_string(&e)
    };
    Err(NetworkError::CommandFailed { command: command.to_owned(), message })
}

} // verus!
