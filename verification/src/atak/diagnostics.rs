//! Diagnostic peer-hash tracking: the mesh control command format and the
//! bounded, time-limited record of which peer delivered which CoT event.
//!
//! Time is passed in as milliseconds since the Unix epoch.

use vstd::prelude::*;
use vstd::utf8::encode_utf8;

use crate::atak::cot::CotEvent;
use crate::text::{
    chars_to_bytes, chars_to_string, chars_eq_str, decimal, extend_chars, extend_str, is_alnum,
    is_alnum_char, is_ws, lemma_parse_decimal, lemma_split_nonempty, lemma_utf8_roundtrip,
    parse_unsigned, parse_unsigned_chars, push_decimal, split, split_chars, str_chars, trim,
    trim_chars, trim_end, trim_start, utf8_chars, utf8_text, views,
};

verus! {

/// Default length of an enable window, in seconds.
pub const DEFAULT_ENABLE_SECONDS: u64 = 900;

/// Longest accepted enable window, in seconds.
pub const MAX_ENABLE_SECONDS: u64 = 86400;

/// Longest accepted command identifier, in bytes.
pub const MAX_ID_LEN: usize = 96;

/// Longest accepted diagnostics control message, in bytes.
pub const MAX_COMMAND_BYTES: usize = 256;

/// Records kept by default.
pub const DEFAULT_MAX_RECORDS: usize = 512;

/// How long an applied command identifier is remembered, in milliseconds.
pub const SEEN_COMMAND_RETENTION_MS: u64 = 86_400_000;

/// What a diagnostics control command asks for.
#[derive(Debug, Clone, Copy, PartialEq, Eq, Structural)]
pub enum DiagnosticAction {
    Enable { seconds: u64 },
    Disable,
}

/// A diagnostics control command, identified so that it is applied once.
#[derive(Debug, Clone, PartialEq, Eq)]
pub struct DiagnosticCommand {
    pub id: String,
    pub action: DiagnosticAction,
}

/// Why a diagnostics control command was refused.
#[derive(Debug, Clone, Copy, PartialEq, Eq, Structural)]
pub enum DiagnosticCommandError {
    NotUtf8,
    InvalidFormat,
    InvalidVersion,
    InvalidId,
    InvalidDuration,
    InvalidAction,
}

impl DiagnosticCommandError {
    /// The human-readable description of the error.
    pub fn message(&self) -> (s: String)
        ensures
            s@ == error_message(*self),
    {
        let text = match self {
            DiagnosticCommandError::NotUtf8 => "diagnostics command is not UTF-8",
            DiagnosticCommandError::InvalidFormat => "invalid diagnostics command format",
            DiagnosticCommandError::InvalidVersion => "unsupported diagnostics command version",
            DiagnosticCommandError::InvalidId => "invalid diagnostics command id",
            DiagnosticCommandError::InvalidDuration => "invalid diagnostics enable duration",
            DiagnosticCommandError::InvalidAction => "invalid diagnostics command action",
        };
        chars_to_string(&str_chars(text))
    }
}

/// The description of each error.
pub open spec fn error_message(e: DiagnosticCommandError) -> Seq<char> {
    match e {
        DiagnosticCommandError::NotUtf8 => "diagnostics command is not UTF-8"@,
        DiagnosticCommandError::InvalidFormat => "invalid diagnostics command format"@,
        DiagnosticCommandError::InvalidVersion => "unsupported diagnostics command version"@,
        DiagnosticCommandError::InvalidId => "invalid diagnostics command id"@,
        DiagnosticCommandError::InvalidDuration => "invalid diagnostics enable duration"@,
        DiagnosticCommandError::InvalidAction => "invalid diagnostics command action"@,
    }
}

/// A command identifier: 1 to 96 ASCII letters, digits or dashes.
pub open spec fn valid_id(id: Seq<char>) -> bool {
    &&& 0 < id.len() <= MAX_ID_LEN
    &&& forall|i: int| 0 <= i < id.len() ==> is_alnum(#[trigger] id[i]) || id[i] == '-'
}

/// The action an enable request gives, or its error.
pub open spec fn enable_result(id: Seq<char>, seconds: u64) -> Result<
    DiagnosticAction,
    DiagnosticCommandError,
> {
    if !valid_id(id) {
        Err(DiagnosticCommandError::InvalidId)
    } else if !(1 <= seconds <= MAX_ENABLE_SECONDS) {
        Err(DiagnosticCommandError::InvalidDuration)
    } else {
        Ok(DiagnosticAction::Enable { seconds })
    }
}

/// The action a disable request gives, or its error.
pub open spec fn disable_result(id: Seq<char>) -> Result<DiagnosticAction, DiagnosticCommandError> {
    if !valid_id(id) {
        Err(DiagnosticCommandError::InvalidId)
    } else {
        Ok(DiagnosticAction::Disable)
    }
}

/// A command is well formed: its identifier is valid and an enable window is
/// within bounds.
pub open spec fn valid_command(id: Seq<char>, action: DiagnosticAction) -> bool {
    match action {
        DiagnosticAction::Enable { seconds } => enable_result(id, seconds) == Ok::<
            DiagnosticAction,
            DiagnosticCommandError,
        >(action),
        DiagnosticAction::Disable => valid_id(id),
    }
}

/// The wire text of a command: `KAD1|<id>|enable|<seconds>` or
/// `KAD1|<id>|disable|0`.
pub open spec fn command_text(id: Seq<char>, action: DiagnosticAction) -> Seq<char> {
    match action {
        DiagnosticAction::Enable { seconds } => "KAD1|"@ + id + "|enable|"@ + decimal(
            seconds as nat,
        ),
        DiagnosticAction::Disable => "KAD1|"@ + id + "|disable|0"@,
    }
}

/// A parsed action paired with its command identifier.
pub open spec fn with_id(id: Seq<char>, r: Result<DiagnosticAction, DiagnosticCommandError>) -> Result<
    (Seq<char>, DiagnosticAction),
    DiagnosticCommandError,
> {
    match r {
        Ok(a) => Ok((id, a)),
        Err(e) => Err(e),
    }
}

/// What a command text parses to: the trimmed text split at `|` must have
/// exactly four fields, the version `KAD1`, an identifier, and an action.
pub open spec fn parse_command_text(text: Seq<char>) -> Result<
    (Seq<char>, DiagnosticAction),
    DiagnosticCommandError,
> {
    let f = split(trim(text), '|');
    if f.len() != 4 {
        Err(DiagnosticCommandError::InvalidFormat)
    } else if f[0] != "KAD1"@ {
        Err(DiagnosticCommandError::InvalidVersion)
    } else if f[2] == "enable"@ {
        match parse_unsigned(f[3], u64::MAX as nat) {
            None => Err(DiagnosticCommandError::InvalidDuration),
            Some(s) => with_id(f[1], enable_result(f[1], s as u64)),
        }
    } else if f[2] == "disable"@ {
        if f[3] == "0"@ {
            with_id(f[1], disable_result(f[1]))
        } else {
            Err(DiagnosticCommandError::InvalidDuration)
        }
    } else {
        Err(DiagnosticCommandError::InvalidAction)
    }
}

/// What a command payload parses to.
pub open spec fn parse_command_bytes(payload: Seq<u8>) -> Result<
    (Seq<char>, DiagnosticAction),
    DiagnosticCommandError,
> {
    match utf8_text(payload) {
        None => Err(DiagnosticCommandError::NotUtf8),
        Some(t) => parse_command_text(t),
    }
}

fn validate_id(id: &String) -> (r: Result<(), DiagnosticCommandError>)
    ensures
        r is Ok <==> valid_id(id@),
        r matches Err(e) ==> e == DiagnosticCommandError::InvalidId,
{
    let chars = str_chars(id.as_str());
    if chars.len() == 0 || chars.len() > MAX_ID_LEN {
        return Err(DiagnosticCommandError::InvalidId);
    }
    let mut i: usize = 0;
    while i < chars.len()
        invariant
            i <= chars.len(),
            chars@ == id@,
            forall|j: int| 0 <= j < i ==> is_alnum(#[trigger] chars@[j]) || chars@[j] == '-',
        decreases chars.len() - i,
    {
        if !(is_alnum_char(chars[i]) || chars[i] == '-') {
            return Err(DiagnosticCommandError::InvalidId);
        }
        i += 1;
    }
    Ok(())
}

impl DiagnosticCommand {
    /// An enable command for `seconds` (1 to 86,400) under identifier `id`.
    pub fn enable(id: String, seconds: u64) -> (r: Result<Self, DiagnosticCommandError>)
        ensures
            match r {
                Ok(c) => enable_result(id@, seconds) == Ok::<
                    DiagnosticAction,
                    DiagnosticCommandError,
                >(c.action) && c.id == id,
                Err(e) => enable_result(id@, seconds) == Err::<
                    DiagnosticAction,
                    DiagnosticCommandError,
                >(e),
            },
    {
        validate_id(&id)?;
        if !(1 <= seconds && seconds <= MAX_ENABLE_SECONDS) {
            return Err(DiagnosticCommandError::InvalidDuration);
        }
        Ok(DiagnosticCommand { id, action: DiagnosticAction::Enable { seconds } })
    }

    /// A disable command under identifier `id`.
    pub fn disable(id: String) -> (r: Result<Self, DiagnosticCommandError>)
        ensures
            match r {
                Ok(c) => disable_result(id@) == Ok::<DiagnosticAction, DiagnosticCommandError>(
                    c.action,
                ) && c.id == id,
                Err(e) => disable_result(id@) == Err::<DiagnosticAction, DiagnosticCommandError>(
                    e,
                ),
            },
    {
        validate_id(&id)?;
        Ok(DiagnosticCommand { id, action: DiagnosticAction::Disable })
    }

    /// Reads a command from its wire form.
    pub fn parse(payload: &[u8]) -> (r: Result<Self, DiagnosticCommandError>)
        ensures
            match r {
                Ok(c) => parse_command_bytes(payload@) == Ok::<
                    (Seq<char>, DiagnosticAction),
                    DiagnosticCommandError,
                >((c.id@, c.action)),
                Err(e) => parse_command_bytes(payload@) == Err::<
                    (Seq<char>, DiagnosticAction),
                    DiagnosticCommandError,
                >(e),
            },
    {
        let text = match utf8_chars(payload) {
            Some(t) => t,
            None => return Err(DiagnosticCommandError::NotUtf8),
        };
        let trimmed = trim_chars(&text);
        let fields = split_chars(&trimmed, '|');
        let ghost f = views(fields@);
        if fields.len() != 4 {
            return Err(DiagnosticCommandError::InvalidFormat);
        }
        assert(f[0] == fields@[0]@ && f[1] == fields@[1]@ && f[2] == fields@[2]@ && f[3]
            == fields@[3]@);
        if !chars_eq_str(&fields[0], "KAD1") {
            return Err(DiagnosticCommandError::InvalidVersion);
        }
        let id = chars_to_string(&fields[1]);
        if chars_eq_str(&fields[2], "enable") {
            match parse_unsigned_chars(&fields[3], u64::MAX) {
                Some(seconds) => Self::enable(id, seconds),
                None => Err(DiagnosticCommandError::InvalidDuration),
            }
        } else if chars_eq_str(&fields[2], "disable") {
            if chars_eq_str(&fields[3], "0") {
                Self::disable(id)
            } else {
                Err(DiagnosticCommandError::InvalidDuration)
            }
        } else {
            Err(DiagnosticCommandError::InvalidAction)
        }
    }

    /// The wire form of the command.
    pub fn encode(&self) -> (r: Vec<u8>)
        ensures
            r@ == encode_utf8(command_text(self.id@, self.action)),
    {
        let mut text: Vec<char> = Vec::new();
        extend_str(&mut text, "KAD1|");
        let id = str_chars(self.id.as_str());
        extend_chars(&mut text, &id);
        match self.action {
            DiagnosticAction::Enable { seconds } => {
                extend_str(&mut text, "|enable|");
                push_decimal(&mut text, seconds);
            },
            DiagnosticAction::Disable => {
                extend_str(&mut text, "|disable|0");
            },
        }
        assert(text@ =~= command_text(self.id@, self.action));
        chars_to_bytes(&text)
    }
}

// ---------------------------------------------------------------------------
// Round trip
// ---------------------------------------------------------------------------

proof fn lemma_split_no_sep(a: Seq<char>, sep: char)
    requires
        forall|i: int| 0 <= i < a.len() ==> a[i] != sep,
    ensures
        split(a, sep) == seq![a],
    decreases a.len(),
{
    if a.len() > 0 {
        lemma_split_no_sep(a.drop_last(), sep);
        assert(a.drop_last().push(a.last()) =~= a);
        assert(split(a, sep) =~= seq![a]);
    } else {
        assert(a =~= Seq::<char>::empty());
    }
}

proof fn lemma_split_concat(a: Seq<char>, b: Seq<char>, sep: char)
    ensures
        split(a + seq![sep] + b, sep) == split(a, sep) + split(b, sep),
    decreases b.len(),
{
    let x = a + seq![sep] + b;
    lemma_split_nonempty(a, sep);
    if b.len() == 0 {
        assert(x.drop_last() =~= a);
        assert(split(b, sep) =~= seq![Seq::<char>::empty()]);
        assert(split(x, sep) =~= split(a, sep) + split(b, sep));
    } else {
        lemma_split_concat(a, b.drop_last(), sep);
        lemma_split_nonempty(b.drop_last(), sep);
        assert(x.drop_last() =~= a + seq![sep] + b.drop_last());
        let r = split(a, sep) + split(b.drop_last(), sep);
        let s = split(b.drop_last(), sep);
        if b.last() == sep {
            assert(split(x, sep) =~= split(a, sep) + split(b, sep));
        } else {
            assert(r.last() == s.last());
            assert(r.update(r.len() - 1, r.last().push(b.last())) =~= split(a, sep) + s.update(
                s.len() - 1,
                s.last().push(b.last()),
            ));
        }
    }
}

/// A well-formed command reads back from its wire form unchanged.
pub proof fn lemma_parse_encode(id: Seq<char>, action: DiagnosticAction)
    requires
        valid_command(id, action),
    ensures
        parse_command_bytes(encode_utf8(command_text(id, action))) == Ok::<
            (Seq<char>, DiagnosticAction),
            DiagnosticCommandError,
        >((id, action)),
{
    reveal_strlit("KAD1|");
    reveal_strlit("KAD1");
    reveal_strlit("|enable|");
    reveal_strlit("enable");
    reveal_strlit("|disable|0");
    reveal_strlit("disable");
    reveal_strlit("0");
    let t = command_text(id, action);
    lemma_utf8_roundtrip(t);
    assert(t.len() > 0 && t[0] == 'K');
    assert(trim_start(t) == t);
    let tail = match action {
        DiagnosticAction::Enable { seconds } => decimal(seconds as nat),
        DiagnosticAction::Disable => "0"@,
    };
    let word = match action {
        DiagnosticAction::Enable { .. } => "enable"@,
        DiagnosticAction::Disable => "disable"@,
    };
    match action {
        DiagnosticAction::Enable { seconds } => {
            lemma_parse_decimal(seconds as nat, u64::MAX as nat);
        },
        DiagnosticAction::Disable => {},
    }
    assert(tail.len() > 0 && '0' <= tail.last() && tail.last() <= '9') by {
        match action {
            DiagnosticAction::Enable { seconds } => {
                assert(tail[tail.len() - 1] == tail.last());
            },
            DiagnosticAction::Disable => {},
        }
    }
    assert(t =~= "KAD1"@ + seq!['|'] + (id + seq!['|'] + (word + seq!['|'] + tail)));
    assert(t.last() == tail.last());
    assert(trim_end(t) == t);
    assert(trim(t) == t);
    assert forall|i: int| 0 <= i < tail.len() implies tail[i] != '|' by {
        match action {
            DiagnosticAction::Enable { seconds } => {
                crate::text::lemma_decimal_digits(seconds as nat);
                assert(crate::text::is_digit(tail[i]));
            },
            DiagnosticAction::Disable => {},
        }
    }
    assert forall|i: int| 0 <= i < id.len() implies id[i] != '|' by {
        assert(is_alnum(id[i]) || id[i] == '-');
    }
    lemma_split_no_sep("KAD1"@, '|');
    lemma_split_no_sep(id, '|');
    lemma_split_no_sep(word, '|');
    lemma_split_no_sep(tail, '|');
    lemma_split_concat(word, tail, '|');
    lemma_split_concat(id, word + seq!['|'] + tail, '|');
    lemma_split_concat("KAD1"@, id + seq!['|'] + (word + seq!['|'] + tail), '|');
    let f = split(trim(t), '|');
    assert(f =~= seq!["KAD1"@, id, word, tail]);
}

// ---------------------------------------------------------------------------
// Diagnostic state
// ---------------------------------------------------------------------------

/// One remote CoT event, associated with the peer that delivered it.
#[derive(Debug, Clone)]
pub struct DiagnosticRecord {
    pub remote_peer_hash: String,
    pub channel_port: u16,
    pub uid: String,
    pub callsign: Option<String>,
    pub event_type: String,
    /// The reported latitude and longitude, as decimal text.
    pub point: Option<(String, String)>,
    /// Observation time in milliseconds since the Unix epoch.
    pub observed_at_ms: u64,
}

/// The state as reported to a local diagnostics client.
#[derive(Debug, Clone, Copy, PartialEq, Eq, Structural)]
pub struct DiagnosticStatus {
    pub enabled: bool,
    pub remaining_seconds: u64,
    pub record_count: usize,
}

/// Whether peer-hash tracking is enabled, the retained records, and the
/// command identifiers already applied.
pub struct DiagnosticState {
    enabled_until_ms: Option<u64>,
    records: Vec<DiagnosticRecord>,
    seen_commands: Vec<(String, u64)>,
    max_records: usize,
}

/// The abstract state.
pub struct DiagnosticModel {
    /// End of the enable window, in milliseconds.
    pub enabled_until: Option<u64>,
    /// Retained records, oldest first.
    pub records: Seq<DiagnosticRecord>,
    /// Applied command identifiers with the time they were applied.
    pub seen: Seq<(Seq<char>, u64)>,
    /// Bound on the number of records.
    pub max: nat,
}

/// The applied identifiers still remembered at `now`.
pub open spec fn keep_recent(seen: Seq<(Seq<char>, u64)>, now: u64) -> Seq<(Seq<char>, u64)>
    decreases seen.len(),
{
    if seen.len() == 0 {
        seen
    } else {
        let rest = keep_recent(seen.drop_last(), now);
        if now - seen.last().1 <= SEEN_COMMAND_RETENTION_MS {
            rest.push(seen.last())
        } else {
            rest
        }
    }
}

/// `id` has been applied.
pub open spec fn has_seen(seen: Seq<(Seq<char>, u64)>, id: Seq<char>) -> bool {
    exists|i: int| 0 <= i < seen.len() && #[trigger] seen[i].0 == id
}

/// The enable window has ended at `now`.
pub open spec fn window_ended(m: DiagnosticModel, now: u64) -> bool {
    m.enabled_until matches Some(u) && u <= now
}

/// The state after expired entries are dropped at `now`: an ended enable
/// window is closed and its records cleared, and old identifiers forgotten.
pub open spec fn pruned(m: DiagnosticModel, now: u64) -> DiagnosticModel {
    DiagnosticModel {
        enabled_until: if window_ended(m, now) {
            None
        } else {
            m.enabled_until
        },
        records: if window_ended(m, now) {
            Seq::empty()
        } else {
            m.records
        },
        seen: keep_recent(m.seen, now),
        max: m.max,
    }
}

/// Tracking is enabled at `now`.
pub open spec fn enabled_at(m: DiagnosticModel, now: u64) -> bool {
    m.enabled_until matches Some(u) && u > now
}

/// The state after a command is applied at `now`, and whether it was new.
/// A new command clears the records: an Enable opens a fresh window, a
/// Disable closes it.
pub open spec fn applied(m: DiagnosticModel, id: Seq<char>, action: DiagnosticAction, now: u64) -> (
    DiagnosticModel,
    bool,
) {
    let p = pruned(m, now);
    if has_seen(p.seen, id) {
        (p, false)
    } else {
        let seen = p.seen.push((id, now));
        match action {
            DiagnosticAction::Enable { seconds } => (
                DiagnosticModel {
                    enabled_until: if now + seconds * 1000 <= u64::MAX {
                        Some((now + seconds * 1000) as u64)
                    } else {
                        None
                    },
                    records: Seq::empty(),
                    seen,
                    ..p
                },
                true,
            ),
            DiagnosticAction::Disable => (
                DiagnosticModel { enabled_until: None, records: Seq::empty(), seen, ..p },
                true,
            ),
        }
    }
}

/// The state after a remote event is offered at `now`, and whether it was
/// recorded.
pub open spec fn recorded(m: DiagnosticModel, rec: DiagnosticRecord, now: u64) -> (
    DiagnosticModel,
    bool,
) {
    let p = pruned(m, now);
    if !enabled_at(p, now) {
        (p, false)
    } else {
        let r = p.records.push(rec);
        (
            DiagnosticModel {
                records: if r.len() > p.max {
                    r.drop_first()
                } else {
                    r
                },
                ..p
            },
            true,
        )
    }
}

/// The status reported at `now`.
pub open spec fn status_of(m: DiagnosticModel, now: u64) -> DiagnosticStatus {
    let p = pruned(m, now);
    let remaining: u64 = match p.enabled_until {
        Some(u) => if u >= now {
            ((u - now) / 1000) as u64
        } else {
            0
        },
        None => 0,
    };
    DiagnosticStatus {
        enabled: remaining > 0,
        remaining_seconds: remaining,
        record_count: p.records.len() as usize,
    }
}

/// The most recent `limit` records, newest first.
pub open spec fn recent_of(records: Seq<DiagnosticRecord>, limit: nat) -> Seq<DiagnosticRecord> {
    let n = if limit < records.len() {
        limit
    } else {
        records.len()
    };
    Seq::new(n, |i: int| records[records.len() - 1 - i])
}

proof fn lemma_keep_recent(seen: Seq<(Seq<char>, u64)>, now: u64)
    ensures
        keep_recent(seen, now).len() <= seen.len(),
        forall|i: int|
            0 <= i < keep_recent(seen, now).len() ==> exists|j: int|
                0 <= j < seen.len() && #[trigger] keep_recent(seen, now)[i] == seen[j],
    decreases seen.len(),
{
    if seen.len() > 0 {
        let d = seen.drop_last();
        lemma_keep_recent(d, now);
        let rest = keep_recent(d, now);
        let kr = keep_recent(seen, now);
        assert forall|i: int| 0 <= i < kr.len() implies exists|j: int|
            0 <= j < seen.len() && #[trigger] kr[i] == seen[j] by {
            if i < rest.len() {
                let j = choose|j: int| 0 <= j < d.len() && rest[i] == d[j];
                assert(kr[i] == seen[j]);
            } else {
                assert(kr[i] == seen[seen.len() - 1]);
            }
        }
    }
}

fn copy_opt_string(o: &Option<String>) -> (r: Option<String>)
    ensures
        r == *o,
{
    match o {
        Some(s) => Some(s.clone()),
        None => None,
    }
}

fn copy_diag_record(r: &DiagnosticRecord) -> (c: DiagnosticRecord)
    ensures
        c == *r,
{
    DiagnosticRecord {
        remote_peer_hash: r.remote_peer_hash.clone(),
        channel_port: r.channel_port,
        uid: r.uid.clone(),
        callsign: copy_opt_string(&r.callsign),
        event_type: r.event_type.clone(),
        point: match &r.point {
            Some((a, b)) => Some((a.clone(), b.clone())),
            None => None,
        },
        observed_at_ms: r.observed_at_ms,
    }
}

impl DiagnosticState {
    /// The abstract state.
    pub closed spec fn model(&self) -> DiagnosticModel {
        DiagnosticModel {
            enabled_until: self.enabled_until_ms,
            records: self.records@,
            seen: self.seen_commands@.map_values(|e: (String, u64)| (e.0@, e.1)),
            max: self.max_records as nat,
        }
    }

    /// The state's invariant: at least one record is allowed and the bound
    /// holds.
    pub open spec fn wf(&self) -> bool {
        &&& self.model().max >= 1
        &&& self.model().records.len() <= self.model().max
    }

    /// Disabled, with no records, keeping at most `max_records` (at least one).
    pub fn new(max_records: usize) -> (s: Self)
        ensures
            s.wf(),
            s.model() == (DiagnosticModel {
                enabled_until: None,
                records: Seq::empty(),
                seen: Seq::empty(),
                max: if max_records >= 1 {
                    max_records as nat
                } else {
                    1
                },
            }),
    {
        let s = DiagnosticState {
            enabled_until_ms: None,
            records: Vec::new(),
            seen_commands: Vec::new(),
            max_records: if max_records >= 1 {
                max_records
            } else {
                1
            },
        };
        assert(s.model().seen =~= Seq::empty());
        s
    }

    /// The state with the default bound.
    pub fn with_defaults() -> (s: Self)
        ensures
            s.wf(),
            s.model() == (DiagnosticModel {
                enabled_until: None,
                records: Seq::empty(),
                seen: Seq::empty(),
                max: DEFAULT_MAX_RECORDS as nat,
            }),
    {
        Self::new(DEFAULT_MAX_RECORDS)
    }

    fn prune(&mut self, now_ms: u64)
        requires
            old(self).wf(),
        ensures
            final(self).wf(),
            final(self).model() == pruned(old(self).model(), now_ms),
    {
        let ended = match self.enabled_until_ms {
            Some(u) => u <= now_ms,
            None => false,
        };
        if ended {
            self.enabled_until_ms = None;
            self.records = Vec::new();
        }
        let ghost old_seen = self.seen_commands@.map_values(|e: (String, u64)| (e.0@, e.1));
        let mut kept: Vec<(String, u64)> = Vec::new();
        let mut i: usize = 0;
        while i < self.seen_commands.len()
            invariant
                i <= self.seen_commands.len(),
                old_seen == self.seen_commands@.map_values(|e: (String, u64)| (e.0@, e.1)),
                kept@.map_values(|e: (String, u64)| (e.0@, e.1)) == keep_recent(
                    old_seen.take(i as int),
                    now_ms,
                ),
            decreases self.seen_commands.len() - i,
        {
            assert(old_seen.take(i + 1).drop_last() =~= old_seen.take(i as int));
            let t = self.seen_commands[i].1;
            if now_ms < t || now_ms - t <= SEEN_COMMAND_RETENTION_MS {
                let id = self.seen_commands[i].0.clone();
                let ghost before = kept@.map_values(|e: (String, u64)| (e.0@, e.1));
                kept.push((id, t));
                assert(kept@.map_values(|e: (String, u64)| (e.0@, e.1)) =~= before.push(
                    old_seen[i as int],
                ));
            }
            i += 1;
        }
        assert(old_seen.take(old_seen.len() as int) =~= old_seen);
        self.seen_commands = kept;
    }

    /// Drops what has expired at `now_ms`; run periodically.
    pub fn prune_expired(&mut self, now_ms: u64)
        requires
            old(self).wf(),
        ensures
            final(self).wf(),
            final(self).model() == pruned(old(self).model(), now_ms),
    {
        self.prune(now_ms);
    }

    /// Applies a mesh command at `now_ms` unless its identifier was already
    /// applied.  Returning false means the command was seen before and must
    /// not be relayed again.
    pub fn apply_once(&mut self, command: &DiagnosticCommand, now_ms: u64) -> (fresh: bool)
        requires
            old(self).wf(),
        ensures
            final(self).wf(),
            (final(self).model(), fresh) == applied(
                old(self).model(),
                command.id@,
                command.action,
                now_ms,
            ),
    {
        self.prune(now_ms);
        let ghost p = self.model();
        let mut i: usize = 0;
        while i < self.seen_commands.len()
            invariant
                i <= self.seen_commands.len(),
                self.wf(),
                self.model() == p,
                p == pruned(old(self).model(), now_ms),
                p.seen.len() == self.seen_commands.len(),
                forall|j: int| 0 <= j < i ==> #[trigger] p.seen[j].0 != command.id@,
            decreases self.seen_commands.len() - i,
        {
            assert(p.seen[i as int].0 == self.seen_commands@[i as int].0@);
            if self.seen_commands[i].0 == command.id {
                assert(p.seen[i as int].0 == command.id@);
                assert(has_seen(p.seen, command.id@));
                return false;
            }
            i += 1;
        }
        assert(!has_seen(p.seen, command.id@));
        let ghost seen_before = self.seen_commands@;
        self.seen_commands.push((command.id.clone(), now_ms));
        assert(self.seen_commands@.map_values(|e: (String, u64)| (e.0@, e.1)) =~= p.seen.push(
            (command.id@, now_ms),
        ));
        match command.action {
            DiagnosticAction::Enable { seconds } => {
                self.enabled_until_ms = if seconds <= (u64::MAX - now_ms) / 1000 {
                    Some(now_ms + seconds * 1000)
                } else {
                    None
                };
                self.records = Vec::new();
            },
            DiagnosticAction::Disable => {
                self.enabled_until_ms = None;
                self.records = Vec::new();
            },
        }
        true
    }

    /// Records a remote CoT event delivered by `peer_hash` at `now_ms` when
    /// tracking is enabled; returns whether it was recorded.  The oldest
    /// record is dropped when the bound is exceeded.  The packet itself is
    /// never changed.
    pub fn record_remote(
        &mut self,
        peer_hash: &str,
        channel_port: u16,
        event: &CotEvent,
        point: Option<(String, String)>,
        now_ms: u64,
    ) -> (r: bool)
        requires
            old(self).wf(),
        ensures
            final(self).wf(),
            (final(self).model(), r) == recorded(
                old(self).model(),
                DiagnosticRecord {
                    remote_peer_hash: final(self).model().records.last().remote_peer_hash,
                    channel_port,
                    uid: event.uid,
                    callsign: event.callsign,
                    event_type: event.event_type,
                    point,
                    observed_at_ms: now_ms,
                },
                now_ms,
            ),
            r ==> final(self).model().records.last().remote_peer_hash@ == peer_hash@,
    {
        self.prune(now_ms);
        let enabled = match self.enabled_until_ms {
            Some(u) => u > now_ms,
            None => false,
        };
        if !enabled {
            return false;
        }
        let rec = DiagnosticRecord {
            remote_peer_hash: chars_to_string(&str_chars(peer_hash)),
            channel_port,
            uid: event.uid.clone(),
            callsign: copy_opt_string(&event.callsign),
            event_type: event.event_type.clone(),
            point,
            observed_at_ms: now_ms,
        };
        let ghost before = self.records@;
        self.records.push(rec);
        if self.records.len() > self.max_records {
            self.records.remove(0);
            assert(self.records@ =~= before.push(rec).drop_first());
        }
        true
    }

    /// The current status at `now_ms`.
    pub fn status(&mut self, now_ms: u64) -> (s: DiagnosticStatus)
        requires
            old(self).wf(),
        ensures
            final(self).wf(),
            final(self).model() == pruned(old(self).model(), now_ms),
            s == status_of(old(self).model(), now_ms),
    {
        self.prune(now_ms);
        let remaining: u64 = match self.enabled_until_ms {
            Some(u) => if u >= now_ms {
                (u - now_ms) / 1000
            } else {
                0
            },
            None => 0,
        };
        DiagnosticStatus {
            enabled: remaining > 0,
            remaining_seconds: remaining,
            record_count: self.records.len(),
        }
    }

    /// Up to `limit` of the most recent records, newest first.
    pub fn recent(&mut self, limit: usize, now_ms: u64) -> (r: Vec<DiagnosticRecord>)
        requires
            old(self).wf(),
        ensures
            final(self).wf(),
            final(self).model() == pruned(old(self).model(), now_ms),
            r@ == recent_of(final(self).model().records, limit as nat),
    {
        self.prune(now_ms);
        let n = self.records.len();
        let count = if limit < n {
            limit
        } else {
            n
        };
        let mut out: Vec<DiagnosticRecord> = Vec::new();
        let mut i: usize = 0;
        while i < count
            invariant
                i <= count <= n == self.records.len(),
                out@ =~= Seq::new(i as nat, |k: int| self.records@[n - 1 - k]),
            decreases count - i,
        {
            out.push(copy_diag_record(&self.records[n - 1 - i]));
            i += 1;
        }
        out
    }
}

// ---------------------------------------------------------------------------
// Laws
// ---------------------------------------------------------------------------

/// A command applied once is not applied again while it is remembered: the
/// second application reports it as seen and leaves the state as pruning
/// leaves it.
pub proof fn lemma_apply_once_idempotent(
    m: DiagnosticModel,
    id: Seq<char>,
    action: DiagnosticAction,
    now: u64,
)
    ensures
        ({
            let (m1, first) = applied(m, id, action, now);
            let (m2, second) = applied(m1, id, action, now);
            !second && m2 == pruned(m1, now)
        }),
{
    let p = pruned(m, now);
    let m1 = applied(m, id, action, now).0;
    let first = applied(m, id, action, now).1;
    if first {
        assert(m1.seen == p.seen.push((id, now)));
        let k = (m1.seen.len() - 1) as int;
        assert(m1.seen[k] == (id, now));
        lemma_keep_recent_contains(m1.seen, now, k);
        assert(has_seen(pruned(m1, now).seen, id));
    } else {
        assert(m1 == p);
        lemma_keep_recent_contains_seen(m.seen, now, id);
        assert(has_seen(pruned(m1, now).seen, id));
    }
}

proof fn lemma_keep_recent_contains(seen: Seq<(Seq<char>, u64)>, now: u64, k: int)
    requires
        0 <= k < seen.len(),
        now - seen[k].1 <= SEEN_COMMAND_RETENTION_MS,
    ensures
        has_seen(keep_recent(seen, now), seen[k].0),
    decreases seen.len(),
{
    let rest = keep_recent(seen.drop_last(), now);
    if k == seen.len() - 1 {
        let kr = keep_recent(seen, now);
        assert(kr[rest.len() as int] == seen[k]);
    } else {
        assert(seen.drop_last()[k] == seen[k]);
        lemma_keep_recent_contains(seen.drop_last(), now, k);
        let j = choose|j: int| 0 <= j < rest.len() && #[trigger] rest[j].0 == seen[k].0;
        let kr = keep_recent(seen, now);
        assert(kr[j] == rest[j]);
    }
}

proof fn lemma_keep_recent_fresh(seen: Seq<(Seq<char>, u64)>, now: u64)
    ensures
        forall|i: int|
            0 <= i < keep_recent(seen, now).len() ==> now - (#[trigger] keep_recent(
                seen,
                now,
            )[i]).1 <= SEEN_COMMAND_RETENTION_MS,
    decreases seen.len(),
{
    if seen.len() > 0 {
        lemma_keep_recent_fresh(seen.drop_last(), now);
        let rest = keep_recent(seen.drop_last(), now);
        let kr = keep_recent(seen, now);
        assert forall|i: int| 0 <= i < kr.len() implies now - (#[trigger] kr[i]).1
            <= SEEN_COMMAND_RETENTION_MS by {
            if i < rest.len() {
                assert(kr[i] == rest[i]);
            }
        }
    }
}

proof fn lemma_keep_recent_contains_seen(seen: Seq<(Seq<char>, u64)>, now: u64, id: Seq<char>)
    requires
        has_seen(keep_recent(seen, now), id),
    ensures
        has_seen(keep_recent(keep_recent(seen, now), now), id),
{
    let s = keep_recent(seen, now);
    lemma_keep_recent_fresh(seen, now);
    let k = choose|k: int| 0 <= k < s.len() && #[trigger] s[k].0 == id;
    lemma_keep_recent_contains(s, now, k);
}

/// While tracking is disabled, no remote event is recorded.
pub proof fn lemma_no_record_after_disable(
    m: DiagnosticModel,
    id: Seq<char>,
    rec: DiagnosticRecord,
    now: u64,
)
    requires
        !has_seen(pruned(m, now).seen, id),
    ensures
        ({
            let (m1, _) = applied(m, id, DiagnosticAction::Disable, now);
            let (m2, r) = recorded(m1, rec, now);
            !r && m2.records.len() == 0
        }),
{
}

/// A new command, Enable or Disable, clears the diagnostic records; a
/// command seen before changes nothing but the pruning.
pub proof fn lemma_new_command_clears_records(
    m: DiagnosticModel,
    id: Seq<char>,
    action: DiagnosticAction,
    now: u64,
)
    ensures
        !has_seen(pruned(m, now).seen, id) ==> applied(m, id, action, now).0.records.len() == 0
            && applied(m, id, action, now).1,
        has_seen(pruned(m, now).seen, id) ==> applied(m, id, action, now) == (pruned(m, now), false),
{
}

/// The recent records come newest first: there are `min(limit, n)` of
/// them, the first is the record stored last, and each one after it was
/// stored just before the one ahead of it.
pub proof fn lemma_recent_newest_first(records: Seq<DiagnosticRecord>, limit: nat)
    ensures
        recent_of(records, limit).len() == if limit < records.len() {
            limit
        } else {
            records.len()
        },
        recent_of(records, limit).len() > 0 ==> recent_of(records, limit)[0] == records.last(),
        forall|i: int|
            0 <= i < recent_of(records, limit).len() ==> #[trigger] recent_of(records, limit)[i]
                == records[records.len() - 1 - i],
{
}

/// The newest of the recent records is the one just recorded: after a
/// remote event is recorded, asking for recent records at the same time
/// gives that event's record first.
pub proof fn lemma_recorded_is_newest(
    m: DiagnosticModel,
    rec: DiagnosticRecord,
    now: u64,
    limit: nat,
)
    requires
        m.max >= 1,
        limit >= 1,
        recorded(m, rec, now).1,
    ensures
        recent_of(pruned(recorded(m, rec, now).0, now).records, limit).len() >= 1,
        recent_of(pruned(recorded(m, rec, now).0, now).records, limit)[0] == rec,
{
    let m1 = recorded(m, rec, now).0;
    let p = pruned(m, now);
    assert(enabled_at(p, now));
    assert(!window_ended(m1, now));
    assert(pruned(m1, now).records == m1.records);
    let r = p.records.push(rec);
    if r.len() > p.max {
        assert(r.drop_first().last() == rec);
    }
}

proof fn lemma_keep_recent_of_fresh(seen: Seq<(Seq<char>, u64)>, now: u64)
    requires
        forall|i: int|
            0 <= i < seen.len() ==> now - (#[trigger] seen[i]).1 <= SEEN_COMMAND_RETENTION_MS,
    ensures
        keep_recent(seen, now) == seen,
    decreases seen.len(),
{
    if seen.len() > 0 {
        let d = seen.drop_last();
        assert forall|i: int| 0 <= i < d.len() implies now - (#[trigger] d[i]).1
            <= SEEN_COMMAND_RETENTION_MS by {
            assert(d[i] == seen[i]);
        }
        lemma_keep_recent_of_fresh(d, now);
        assert(seen[seen.len() - 1] == seen.last());
        assert(d.push(seen.last()) =~= seen);
    }
}

/// Pruning twice at the same time is pruning once.
pub proof fn lemma_pruned_idempotent(m: DiagnosticModel, now: u64)
    ensures
        pruned(pruned(m, now), now) == pruned(m, now),
{
    lemma_keep_recent_fresh(m.seen, now);
    lemma_keep_recent_of_fresh(keep_recent(m.seen, now), now);
}

/// A command that parses is well formed.
pub proof fn lemma_parsed_command_valid(payload: Seq<u8>)
    requires
        parse_command_bytes(payload) is Ok,
    ensures
        valid_command(parse_command_bytes(payload)->Ok_0.0, parse_command_bytes(payload)->Ok_0.1),
{
}

impl Default for DiagnosticState {
    /// The state with the default bound: disabled, with no records.
    fn default() -> (s: Self)
        ensures
            s.wf(),
            s.model() == (DiagnosticModel {
                enabled_until: None,
                records: Seq::empty(),
                seen: Seq::empty(),
                max: DEFAULT_MAX_RECORDS as nat,
            }),
    {
        Self::with_defaults()
    }
}

} // verus!
