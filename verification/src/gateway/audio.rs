//! Audio outputs and their ALSA mixer controls: naming, validation, reading
//! `amixer` output, choosing a card's controls, and the in-memory state of
//! the audio service (mock controls and remembered soft-mute levels).

use vstd::prelude::*;

use crate::text::{strings_view, 
    chars_eq, chars_to_string, decimal, extend_chars, extend_str, find, find_chars, is_digit,
    lemma_find_from_bounds, lines, lines_chars, lower_all, lower_chars, parse_unsigned,
    parse_unsigned_chars, push_decimal, split, split_chars, split_once, split_once_chars,
    str_chars, trim, trim_chars, trim_start, trim_start_chars, views,
};

verus! {

/// An audio control of the gateway.
#[derive(Debug, Clone, Copy, PartialEq, Eq, Hash, Structural)]
pub enum AudioOutput {
    Speaker,
    Headphones,
    Microphone,
}

/// The volume and mute state of a control.
#[derive(Debug, Clone, Copy, PartialEq, Eq, Structural)]
pub struct AudioControlState {
    pub volume: u8,
    pub muted: bool,
}

/// A control as reported to the user interface.
#[derive(Debug, Clone, PartialEq, Eq)]
pub struct AudioControlSnapshot {
    pub control_id: String,
    pub label: String,
    pub volume: u8,
    pub muted: bool,
    pub backend: String,
}

/// The snapshot shows `state` for `output`, with the given backend.
pub open spec fn shows(
    s: AudioControlSnapshot,
    output: AudioOutput,
    state: AudioControlState,
    backend: Seq<char>,
) -> bool {
    &&& s.control_id@ == output_id(output)
    &&& s.label@ == output_label(output)
    &&& s.volume == state.volume
    &&& s.muted == state.muted
    &&& s.backend@ == backend
}

/// A sound card and the controls found on it.
#[derive(Debug, Clone, PartialEq, Eq)]
pub struct AudioCardSnapshot {
    pub card_id: usize,
    pub card_name: String,
    pub controls: Vec<AudioControlSnapshot>,
}

/// Why an audio operation failed.
#[derive(Debug, Clone, PartialEq, Eq)]
pub enum AudioError {
    InvalidVolume(u8),
    StatePoisoned(&'static str),
    TaskJoin(String),
    /// The command could not be run; `message` is the operating system's
    /// error.
    CommandIo { command: String, message: String },
    CommandFailed { command: String, message: String },
    UnexpectedOutput(String),
    NotFound(String),
}

/// The identifier an output is known by.
pub open spec fn output_id(o: AudioOutput) -> Seq<char> {
    match o {
        AudioOutput::Speaker => "speaker"@,
        AudioOutput::Headphones => "headphones"@,
        AudioOutput::Microphone => "microphone"@,
    }
}

/// The label an output is shown with.
pub open spec fn output_label(o: AudioOutput) -> Seq<char> {
    match o {
        AudioOutput::Speaker => "Speaker"@,
        AudioOutput::Headphones => "Headphones"@,
        AudioOutput::Microphone => "Microphone"@,
    }
}

/// The state a mock control starts in.
pub open spec fn default_state_of(o: AudioOutput) -> AudioControlState {
    match o {
        AudioOutput::Speaker => AudioControlState { volume: 75, muted: false },
        AudioOutput::Headphones => AudioControlState { volume: 60, muted: false },
        AudioOutput::Microphone => AudioControlState { volume: 55, muted: false },
    }
}

/// The views of a list of string slices.
pub open spec fn strs_view(v: Seq<&str>) -> Seq<Seq<char>> {
    v.map_values(|s: &str| s@)
}

/// Mixer controls tried first for an output, by exact name, in order.
pub open spec fn preferred_controls_of(o: AudioOutput) -> Seq<Seq<char>> {
    match o {
        AudioOutput::Speaker => seq!["Speaker"@, "Master"@, "PCM"@, "Line Out"@, "Playback"@],
        AudioOutput::Headphones => seq![
            "Headphone"@,
            "Headphones"@,
            "Headset"@,
            "Headset Playback"@,
        ],
        AudioOutput::Microphone => seq![
            "Capture"@,
            "Mic"@,
            "Microphone"@,
            "Internal Mic"@,
            "Headset Mic"@,
        ],
    }
}

/// Lowercase fragments tried next, in order.
pub open spec fn fallback_fragments_of(o: AudioOutput) -> Seq<Seq<char>> {
    match o {
        AudioOutput::Speaker => seq!["speaker"@, "master"@, "pcm"@, "playback"@, "line out"@],
        AudioOutput::Headphones => seq!["head"@, "headphone"@, "headset"@],
        AudioOutput::Microphone => seq!["mic"@, "capture"@],
    }
}

/// The `amixer` words for (not muted, muted).
pub open spec fn switch_tokens_of(o: AudioOutput) -> (Seq<char>, Seq<char>) {
    match o {
        AudioOutput::Speaker | AudioOutput::Headphones => ("unmute"@, "mute"@),
        AudioOutput::Microphone => ("cap"@, "nocap"@),
    }
}

/// Switch controls tried first, by exact name, in order.
pub open spec fn preferred_switch_controls_of(o: AudioOutput) -> Seq<Seq<char>> {
    match o {
        AudioOutput::Speaker => seq![
            "Speaker Playback Switch"@,
            "Master Playback Switch"@,
            "PCM Playback Switch"@,
            "Line Out Playback Switch"@,
        ],
        AudioOutput::Headphones => seq![
            "Headphone Playback Switch"@,
            "Headphones Playback Switch"@,
            "Headset Playback Switch"@,
        ],
        AudioOutput::Microphone => seq![
            "Capture Switch"@,
            "Mic Capture Switch"@,
            "Microphone Capture Switch"@,
            "Headset Mic Capture Switch"@,
        ],
    }
}

/// Lowercase fragments for switch controls, in order.
pub open spec fn switch_fragments_of(o: AudioOutput) -> Seq<Seq<char>> {
    match o {
        AudioOutput::Speaker => seq![
            "speaker switch"@,
            "master switch"@,
            "pcm switch"@,
            "line out switch"@,
        ],
        AudioOutput::Headphones => seq!["headphone switch"@, "headset switch"@, "head switch"@],
        AudioOutput::Microphone => seq!["capture switch"@, "mic switch"@],
    }
}

fn str_list5(a: &'static str, b: &'static str, c: &'static str, d: &'static str, e: &'static str) -> (r: Vec<&'static str>)
    ensures
        strs_view(r@) == seq![a@, b@, c@, d@, e@],
{
    let v = vec![a, b, c, d, e];
    assert(strs_view(v@) =~= seq![a@, b@, c@, d@, e@]);
    v
}

fn str_list4(a: &'static str, b: &'static str, c: &'static str, d: &'static str) -> (r: Vec<&'static str>)
    ensures
        strs_view(r@) == seq![a@, b@, c@, d@],
{
    let v = vec![a, b, c, d];
    assert(strs_view(v@) =~= seq![a@, b@, c@, d@]);
    v
}

fn str_list3(a: &'static str, b: &'static str, c: &'static str) -> (r: Vec<&'static str>)
    ensures
        strs_view(r@) == seq![a@, b@, c@],
{
    let v = vec![a, b, c];
    assert(strs_view(v@) =~= seq![a@, b@, c@]);
    v
}

fn str_list2(a: &'static str, b: &'static str) -> (r: Vec<&'static str>)
    ensures
        strs_view(r@) == seq![a@, b@],
{
    let v = vec![a, b];
    assert(strs_view(v@) =~= seq![a@, b@]);
    v
}

impl AudioOutput {
    /// Reads an output from its identifier.
    pub fn parse(value: &str) -> (r: Option<Self>)
        ensures
            r matches Some(o) ==> output_id(o) == value@,
            r is None ==> value@ != "speaker"@ && value@ != "headphones"@ && value@
                != "microphone"@,
    {
        let v = str_chars(value);
        if crate::text::chars_eq_str(&v, "speaker") {
            Some(AudioOutput::Speaker)
        } else if crate::text::chars_eq_str(&v, "headphones") {
            Some(AudioOutput::Headphones)
        } else if crate::text::chars_eq_str(&v, "microphone") {
            Some(AudioOutput::Microphone)
        } else {
            None
        }
    }

    /// The identifier of the output.
    pub fn id(self) -> (r: &'static str)
        ensures
            r@ == output_id(self),
    {
        match self {
            AudioOutput::Speaker => "speaker",
            AudioOutput::Headphones => "headphones",
            AudioOutput::Microphone => "microphone",
        }
    }

    /// The display name of the output.
    pub fn label(self) -> (r: &'static str)
        ensures
            r@ == output_label(self),
    {
        match self {
            AudioOutput::Speaker => "Speaker",
            AudioOutput::Headphones => "Headphones",
            AudioOutput::Microphone => "Microphone",
        }
    }

    /// The backend named for mock controls.
    pub fn backend_label(self) -> (r: &'static str)
        ensures
            r@ == "Mock"@,
    {
        "Mock"
    }

    /// The state a mock control starts in.
    pub fn default_state(self) -> (r: AudioControlState)
        ensures
            r == default_state_of(self),
    {
        match self {
            AudioOutput::Speaker => AudioControlState { volume: 75, muted: false },
            AudioOutput::Headphones => AudioControlState { volume: 60, muted: false },
            AudioOutput::Microphone => AudioControlState { volume: 55, muted: false },
        }
    }

    /// Mixer controls tried first, by exact name.
    pub fn preferred_controls(self) -> (r: Vec<&'static str>)
        ensures
            strs_view(r@) == preferred_controls_of(self),
    {
        match self {
            AudioOutput::Speaker => str_list5("Speaker", "Master", "PCM", "Line Out", "Playback"),
            AudioOutput::Headphones => str_list4(
                "Headphone",
                "Headphones",
                "Headset",
                "Headset Playback",
            ),
            AudioOutput::Microphone => str_list5(
                "Capture",
                "Mic",
                "Microphone",
                "Internal Mic",
                "Headset Mic",
            ),
        }
    }

    /// Lowercase name fragments tried next.
    pub fn fallback_fragments(self) -> (r: Vec<&'static str>)
        ensures
            strs_view(r@) == fallback_fragments_of(self),
    {
        match self {
            AudioOutput::Speaker => str_list5("speaker", "master", "pcm", "playback", "line out"),
            AudioOutput::Headphones => str_list3("head", "headphone", "headset"),
            AudioOutput::Microphone => str_list2("mic", "capture"),
        }
    }

    /// The `amixer` words for (not muted, muted).
    pub fn switch_tokens(self) -> (r: (&'static str, &'static str))
        ensures
            (r.0@, r.1@) == switch_tokens_of(self),
    {
        match self {
            AudioOutput::Speaker | AudioOutput::Headphones => ("unmute", "mute"),
            AudioOutput::Microphone => ("cap", "nocap"),
        }
    }

    /// Switch controls tried first, by exact name.
    pub fn preferred_switch_controls(self) -> (r: Vec<&'static str>)
        ensures
            strs_view(r@) == preferred_switch_controls_of(self),
    {
        match self {
            AudioOutput::Speaker => str_list4(
                "Speaker Playback Switch",
                "Master Playback Switch",
                "PCM Playback Switch",
                "Line Out Playback Switch",
            ),
            AudioOutput::Headphones => str_list3(
                "Headphone Playback Switch",
                "Headphones Playback Switch",
                "Headset Playback Switch",
            ),
            AudioOutput::Microphone => str_list4(
                "Capture Switch",
                "Mic Capture Switch",
                "Microphone Capture Switch",
                "Headset Mic Capture Switch",
            ),
        }
    }

    /// Lowercase fragments for switch controls.
    pub fn switch_fragments(self) -> (r: Vec<&'static str>)
        ensures
            strs_view(r@) == switch_fragments_of(self),
    {
        match self {
            AudioOutput::Speaker => str_list4(
                "speaker switch",
                "master switch",
                "pcm switch",
                "line out switch",
            ),
            AudioOutput::Headphones => str_list3(
                "headphone switch",
                "headset switch",
                "head switch",
            ),
            AudioOutput::Microphone => str_list2("capture switch", "mic switch"),
        }
    }
}

impl AudioControlState {
    /// The state itself when its volume is at most 100.
    pub fn validate(self) -> (r: Result<Self, AudioError>)
        ensures
            self.volume <= 100 ==> r == Ok::<Self, AudioError>(self),
            self.volume > 100 ==> r == Err::<Self, AudioError>(
                AudioError::InvalidVolume(self.volume),
            ),
    {
        if self.volume > 100 {
            return Err(AudioError::InvalidVolume(self.volume));
        }
        Ok(self)
    }
}

impl AudioControlSnapshot {
    /// The snapshot of `kind` in `state`, served by `backend`.
    pub fn new(kind: AudioOutput, state: AudioControlState, backend: String) -> (r: Self)
        ensures
            r.control_id@ == output_id(kind),
            r.label@ == output_label(kind),
            r.volume == state.volume,
            r.muted == state.muted,
            r.backend == backend,
    {
        AudioControlSnapshot {
            control_id: kind.id().to_owned(),
            label: kind.label().to_owned(),
            volume: state.volume,
            muted: state.muted,
            backend,
        }
    }
}

/// The backend name of an ALSA control: `ALSA <label>`.
pub open spec fn alsa_backend(o: AudioOutput) -> Seq<char> {
    "ALSA "@ + output_label(o)
}

/// The backend name of an ALSA control.
pub fn alsa_backend_name(o: AudioOutput) -> (r: String)
    ensures
        r@ == alsa_backend(o),
{
    let mut out: Vec<char> = Vec::new();
    extend_str(&mut out, "ALSA ");
    extend_str(&mut out, o.label());
    chars_to_string(&out)
}

/// The description of each error.
pub open spec fn audio_error_text(e: AudioError) -> Seq<char> {
    match e {
        AudioError::InvalidVolume(v) => "invalid volume "@ + decimal(v as nat)
            + "; expected 0-100"@,
        AudioError::StatePoisoned(s) => s@ + " state lock poisoned"@,
        AudioError::TaskJoin(s) => "blocking audio task failed: "@ + s@,
        AudioError::CommandIo { command, message } => "failed to execute `"@ + command@ + "`: "@
            + message@,
        AudioError::CommandFailed { command, message } => "`"@ + command@ + "` failed: "@
            + message@,
        AudioError::UnexpectedOutput(s) => "unexpected amixer output: "@ + s@,
        AudioError::NotFound(s) => "audio control not found: "@ + s@,
    }
}

impl AudioError {
    /// The human-readable description of the error.
    pub fn message(&self) -> (r: String)
        ensures
            r@ == audio_error_text(*self),
    {
        let mut out: Vec<char> = Vec::new();
        match self {
            AudioError::InvalidVolume(v) => {
                extend_str(&mut out, "invalid volume ");
                push_decimal(&mut out, *v as u64);
                extend_str(&mut out, "; expected 0-100");
            },
            AudioError::StatePoisoned(s) => {
                extend_str(&mut out, s);
                extend_str(&mut out, " state lock poisoned");
            },
            AudioError::TaskJoin(s) => {
                extend_str(&mut out, "blocking audio task failed: ");
                extend_str(&mut out, s.as_str());
            },
            AudioError::CommandIo { command, message } => {
                extend_str(&mut out, "failed to execute `");
                extend_str(&mut out, command.as_str());
                extend_str(&mut out, "`: ");
                extend_str(&mut out, message.as_str());
            },
            AudioError::CommandFailed { command, message } => {
                extend_str(&mut out, "`");
                extend_str(&mut out, command.as_str());
                extend_str(&mut out, "` failed: ");
                extend_str(&mut out, message.as_str());
            },
            AudioError::UnexpectedOutput(s) => {
                extend_str(&mut out, "unexpected amixer output: ");
                extend_str(&mut out, s.as_str());
            },
            AudioError::NotFound(s) => {
                extend_str(&mut out, "audio control not found: ");
                extend_str(&mut out, s.as_str());
            },
        }
        chars_to_string(&out)
    }
}

// ---------------------------------------------------------------------------
// Reading `amixer` output
// ---------------------------------------------------------------------------

/// The volume in one `[`-separated piece of `amixer sget` output: the text
/// before the first `%]`, trimmed, read as a `u8`.
pub open spec fn piece_volume(s: Seq<char>) -> Option<nat> {
    match split_once(s, "%]"@) {
        Some((v, _)) => parse_unsigned(trim(v), 255),
        None => None,
    }
}

/// The volume of the last piece that has one.
pub open spec fn last_volume(pieces: Seq<Seq<char>>) -> Option<nat>
    decreases pieces.len(),
{
    if pieces.len() == 0 {
        None
    } else {
        match piece_volume(pieces.last()) {
            Some(v) => Some(v),
            None => last_volume(pieces.drop_last()),
        }
    }
}

/// The mute state in one piece: the text before the first `]`, trimmed:
/// `on` and `cap` are not muted, `off` and `nocap` are.
pub open spec fn piece_switch(s: Seq<char>) -> Option<bool> {
    match split_once(s, "]"@) {
        Some((v, _)) => {
            let t = trim(v);
            if t == "on"@ || t == "cap"@ {
                Some(false)
            } else if t == "off"@ || t == "nocap"@ {
                Some(true)
            } else {
                None
            }
        },
        None => None,
    }
}

/// The mute state of the last piece that has one.
pub open spec fn last_switch(pieces: Seq<Seq<char>>) -> Option<bool>
    decreases pieces.len(),
{
    if pieces.len() == 0 {
        None
    } else {
        match piece_switch(pieces.last()) {
            Some(v) => Some(v),
            None => last_switch(pieces.drop_last()),
        }
    }
}

/// The mute state shown by `amixer sget` output, if any.
pub open spec fn amixer_switch(stdout: Seq<char>) -> Option<bool> {
    last_switch(split(stdout, '['))
}

fn piece_volume_exec(s: &Vec<char>) -> (r: Option<u8>)
    ensures
        match r {
            Some(v) => piece_volume(s@) == Some(v as nat),
            None => piece_volume(s@) is None,
        },
{
    match split_once_chars(s, "%]") {
        Some((v, _)) => {
            let t = trim_chars(&v);
            match parse_unsigned_chars(&t, 255) {
                Some(x) => Some(x as u8),
                None => None,
            }
        },
        None => None,
    }
}

fn piece_switch_exec(s: &Vec<char>) -> (r: Option<bool>)
    ensures
        r == piece_switch(s@),
{
    match split_once_chars(s, "]") {
        Some((v, _)) => {
            let t = trim_chars(&v);
            if crate::text::chars_eq_str(&t, "on") || crate::text::chars_eq_str(&t, "cap") {
                Some(false)
            } else if crate::text::chars_eq_str(&t, "off") || crate::text::chars_eq_str(
                &t,
                "nocap",
            ) {
                Some(true)
            } else {
                None
            }
        },
        None => None,
    }
}

/// The mute state shown by `amixer sget` output: the last `[on]`, `[off]`,
/// `[cap]` or `[nocap]`.
pub fn parse_amixer_switch_state(stdout: &str) -> (r: Option<bool>)
    ensures
        r == amixer_switch(stdout@),
{
    let text = str_chars(stdout);
    let pieces = split_chars(&text, '[');
    let ghost ps = views(pieces@);
    let mut found: Option<bool> = None;
    let mut i: usize = 0;
    while i < pieces.len()
        invariant
            i <= pieces.len(),
            ps == views(pieces@),
            found == last_switch(ps.take(i as int)),
        decreases pieces.len() - i,
    {
        let here = piece_switch_exec(&pieces[i]);
        assert(ps.take(i + 1).drop_last() =~= ps.take(i as int));
        assert(ps.take(i + 1).last() == pieces@[i as int]@);
        if here.is_some() {
            found = here;
        }
        i += 1;
    }
    assert(ps.take(pieces.len() as int) =~= ps);
    found
}

/// What `amixer sget` output reads as: the last volume shown, which must be
/// at most 100, and the mute state shown (not muted when none is).
pub open spec fn amixer_state_ok(stdout: Seq<char>, v: nat) -> AudioControlState {
    AudioControlState {
        volume: v as u8,
        muted: match amixer_switch(stdout) {
            Some(m) => m,
            None => false,
        },
    }
}

/// Reads the volume and mute state from `amixer sget` output.
pub fn parse_amixer_state(stdout: &str) -> (r: Result<AudioControlState, AudioError>)
    ensures
        match last_volume(split(stdout@, '[')) {
            None => r matches Err(AudioError::UnexpectedOutput(m)) && m@ == trim(stdout@),
            Some(v) => if v <= 100 {
                r == Ok::<AudioControlState, AudioError>(amixer_state_ok(stdout@, v))
            } else {
                r == Err::<AudioControlState, AudioError>(AudioError::InvalidVolume(v as u8))
            },
        },
{
    let text = str_chars(stdout);
    let pieces = split_chars(&text, '[');
    let ghost ps = views(pieces@);
    let mut found: Option<u8> = None;
    let mut i: usize = 0;
    while i < pieces.len()
        invariant
            i <= pieces.len(),
            ps == views(pieces@),
            match found {
                Some(v) => last_volume(ps.take(i as int)) == Some(v as nat),
                None => last_volume(ps.take(i as int)) is None,
            },
        decreases pieces.len() - i,
    {
        let here = piece_volume_exec(&pieces[i]);
        assert(ps.take(i + 1).drop_last() =~= ps.take(i as int));
        assert(ps.take(i + 1).last() == pieces@[i as int]@);
        if here.is_some() {
            found = here;
        }
        i += 1;
    }
    assert(ps.take(pieces.len() as int) =~= ps);
    let volume = match found {
        Some(v) => v,
        None => {
            let t = trim_chars(&text);
            return Err(AudioError::UnexpectedOutput(chars_to_string(&t)));
        },
    };
    let muted = match parse_amixer_switch_state(stdout) {
        Some(m) => m,
        None => false,
    };
    AudioControlState { volume, muted }.validate()
}

/// The name between the first two `'` of a line, if it has two.
pub open spec fn quoted_name(line: Seq<char>) -> Option<Seq<char>> {
    match find(line, "'"@) {
        Some(start) => {
            let rest = line.skip(start + 1);
            match find(rest, "'"@) {
                Some(end) => Some(rest.take(end)),
                None => None,
            }
        },
        None => None,
    }
}

/// The quoted names of the lines, in order.
pub open spec fn quoted_names(ls: Seq<Seq<char>>) -> Seq<Seq<char>>
    decreases ls.len(),
{
    if ls.len() == 0 {
        Seq::empty()
    } else {
        let rest = quoted_names(ls.drop_last());
        match quoted_name(ls.last()) {
            Some(n) => rest.push(n),
            None => rest,
        }
    }
}

fn quoted_name_exec(line: &Vec<char>) -> (r: Option<Vec<char>>)
    ensures
        match r {
            Some(n) => quoted_name(line@) == Some(n@),
            None => quoted_name(line@) is None,
        },
{
    let q = str_chars("'");
    proof {
        reveal_strlit("'");
    }
    assert(q@.len() == 1);
    match find_chars(line, &q) {
        Some(start) => {
            proof {
                lemma_find_from_bounds(line@, q@, 0);
            }
            assert(crate::text::occurs_at(line@, q@, start as int));
            let n = line.len();
            assert(start + 1 <= n);
            let rest = crate::text::copy_range(line, start + 1, n);
            assert(rest@ =~= line@.skip(start + 1));
            match find_chars(&rest, &q) {
                Some(end) => {
                    proof {
                        lemma_find_from_bounds(rest@, q@, 0);
                    }
                    let n = crate::text::copy_range(&rest, 0, end);
                    assert(n@ =~= rest@.take(end as int));
                    Some(n)
                },
                None => None,
            }
        },
        None => None,
    }
}

/// The control names listed by `amixer scontrols`: the quoted name of each
/// line.
pub fn parse_amixer_controls(stdout: &str) -> (r: Vec<String>)
    ensures
        strings_view(r@) == quoted_names(lines(stdout@)),
{
    let text = str_chars(stdout);
    let ls = lines_chars(&text);
    let ghost lv = views(ls@);
    let mut out: Vec<String> = Vec::new();
    let mut i: usize = 0;
    while i < ls.len()
        invariant
            i <= ls.len(),
            lv == views(ls@),
            lv == lines(text@),
            strings_view(out@) == quoted_names(lv.take(i as int)),
        decreases ls.len() - i,
    {
        assert(lv.take(i + 1).drop_last() =~= lv.take(i as int));
        assert(lv.take(i + 1).last() == ls@[i as int]@);
        let ghost before = strings_view(out@);
        match quoted_name_exec(&ls[i]) {
            Some(n) => {
                out.push(chars_to_string(&n));
                assert(strings_view(out@) =~= before.push(n@));
            },
            None => {},
        }
        i += 1;
    }
    assert(lv.take(ls.len() as int) =~= lv);
    out
}

/// The name of a card in a `/proc/asound/cards` line, from the text after
/// its index: the part after ` - `, else the part in `[...]`, else `Audio`.
pub open spec fn bracket_name(rest: Seq<char>) -> Seq<char> {
    let parts = split(rest, '[');
    if parts.len() >= 2 && trim(split(parts[1], ']')[0]).len() > 0 {
        trim(split(parts[1], ']')[0])
    } else {
        "Audio"@
    }
}

/// The name of a sound card from the rest of its line in
/// `/proc/asound/cards`: the text after ` - `, else the bracketed name.
pub open spec fn card_name(rest: Seq<char>) -> Seq<char> {
    match find(rest, " - "@) {
        Some(i) => {
            let after = rest.skip(i + 3);
            let piece = match find(after, " - "@) {
                Some(j) => after.take(j),
                None => after,
            };
            if trim(piece).len() > 0 {
                trim(piece)
            } else {
                bracket_name(rest)
            }
        },
        None => bracket_name(rest),
    }
}

/// A card listed in a `/proc/asound/cards` line: the line, without leading
/// whitespace, starts with a digit and reads `<index> <rest>`.
pub open spec fn card_line(line: Seq<char>) -> Option<(nat, Seq<char>)> {
    let t = trim_start(line);
    if t.len() == 0 || !is_digit(t[0]) {
        None
    } else {
        match split_once(t, " "@) {
            None => None,
            Some((idx, rest)) => match parse_unsigned(idx, usize::MAX as nat) {
                None => None,
                Some(i) => Some((i, card_name(rest))),
            },
        }
    }
}

fn bracket_name_exec(rest: &Vec<char>) -> (r: Vec<char>)
    ensures
        r@ == bracket_name(rest@),
{
    let parts = split_chars(rest, '[');
    let ghost pv = views(parts@);
    if parts.len() >= 2 {
        assert(pv[1] == parts@[1]@);
        let inner = split_chars(&parts[1], ']');
        assert(views(inner@)[0] == inner@[0]@);
        let t = trim_chars(&inner[0]);
        if t.len() > 0 {
            return t;
        }
    }
    str_chars("Audio")
}

fn card_name_exec(rest: &Vec<char>) -> (r: Vec<char>)
    ensures
        r@ == card_name(rest@),
{
    let sep = str_chars(" - ");
    proof {
        reveal_strlit(" - ");
    }
    assert(sep@.len() == 3);
    match find_chars(rest, &sep) {
        Some(i) => {
            proof {
                lemma_find_from_bounds(rest@, sep@, 0);
            }
            assert(crate::text::occurs_at(rest@, sep@, i as int));
            let n = rest.len();
            assert(i + 3 <= n);
            let after = crate::text::copy_range(rest, i + 3, n);
            assert(after@ =~= rest@.skip(i + 3));
            let piece = match find_chars(&after, &sep) {
                Some(j) => {
                    proof {
                        lemma_find_from_bounds(after@, sep@, 0);
                    }
                    let p = crate::text::copy_range(&after, 0, j);
                    assert(p@ =~= after@.take(j as int));
                    p
                },
                None => after,
            };
            let t = trim_chars(&piece);
            if t.len() > 0 {
                t
            } else {
                bracket_name_exec(rest)
            }
        },
        None => bracket_name_exec(rest),
    }
}

/// Reads a card's index and name from a `/proc/asound/cards` line.
pub fn parse_card_line(line: &str) -> (r: Option<(usize, String)>)
    ensures
        match r {
            Some((i, n)) => card_line(line@) == Some((i as nat, n@)),
            None => card_line(line@) is None,
        },
{
    let t = trim_start_chars(&str_chars(line));
    if t.len() == 0 || !('0' <= t[0] && t[0] <= '9') {
        return None;
    }
    match split_once_chars(&t, " ") {
        None => None,
        Some((idx, rest)) => match parse_unsigned_chars(&idx, usize::MAX as u64) {
            None => None,
            Some(i) => {
                let name = card_name_exec(&rest);
                Some((i as usize, chars_to_string(&name)))
            },
        },
    }
}

// ---------------------------------------------------------------------------
// Choosing a card's controls
// ---------------------------------------------------------------------------

/// Index of the first control at or after `i` named exactly `name`.
pub open spec fn first_named(cs: Seq<Seq<char>>, name: Seq<char>, i: int) -> Option<int>
    decreases cs.len() - i,
{
    if i < 0 || i >= cs.len() {
        None
    } else if cs[i] == name {
        Some(i)
    } else {
        first_named(cs, name, i + 1)
    }
}

/// Index of the first control at or after `i` whose lowercase name contains
/// `fragment`.
pub open spec fn first_containing(cs: Seq<Seq<char>>, fragment: Seq<char>, i: int) -> Option<int>
    decreases cs.len() - i,
{
    if i < 0 || i >= cs.len() {
        None
    } else if find(lower_all(cs[i]), fragment) is Some {
        Some(i)
    } else {
        first_containing(cs, fragment, i + 1)
    }
}

/// The first preferred name (from `k` on) that some control has.
pub open spec fn by_preference(cs: Seq<Seq<char>>, preferred: Seq<Seq<char>>, k: int) -> Option<
    Seq<char>,
>
    decreases preferred.len() - k,
{
    if k < 0 || k >= preferred.len() {
        None
    } else {
        match first_named(cs, preferred[k], 0) {
            Some(i) => Some(cs[i]),
            None => by_preference(cs, preferred, k + 1),
        }
    }
}

/// The first control containing the first fragment (from `k` on) that some
/// control contains.
pub open spec fn by_fragment(cs: Seq<Seq<char>>, fragments: Seq<Seq<char>>, k: int) -> Option<
    Seq<char>,
>
    decreases fragments.len() - k,
{
    if k < 0 || k >= fragments.len() {
        None
    } else {
        match first_containing(cs, fragments[k], 0) {
            Some(i) => Some(cs[i]),
            None => by_fragment(cs, fragments, k + 1),
        }
    }
}

/// The control chosen: by exact preferred name first, else by fragment.
pub open spec fn resolve_control(
    cs: Seq<Seq<char>>,
    preferred: Seq<Seq<char>>,
    fragments: Seq<Seq<char>>,
) -> Option<Seq<char>> {
    match by_preference(cs, preferred, 0) {
        Some(c) => Some(c),
        None => by_fragment(cs, fragments, 0),
    }
}

fn find_named(cs: &Vec<String>, name: &str) -> (r: Option<usize>)
    ensures
        match r {
            Some(i) => first_named(strings_view(cs@), name@, 0) == Some(i as int) && i
                < cs.len(),
            None => first_named(strings_view(cs@), name@, 0) is None,
        },
{
    let ghost v = strings_view(cs@);
    let target = str_chars(name);
    let mut i: usize = 0;
    while i < cs.len()
        invariant
            i <= cs.len(),
            v == strings_view(cs@),
            target@ == name@,
            first_named(v, name@, 0) == first_named(v, name@, i as int),
        decreases cs.len() - i,
    {
        let c = str_chars(cs[i].as_str());
        assert(v[i as int] == cs@[i as int]@);
        if chars_eq(&c, &target) {
            return Some(i);
        }
        i += 1;
    }
    None
}

fn find_containing(cs: &Vec<String>, fragment: &str) -> (r: Option<usize>)
    ensures
        match r {
            Some(i) => first_containing(strings_view(cs@), fragment@, 0) == Some(i as int) && i
                < cs.len(),
            None => first_containing(strings_view(cs@), fragment@, 0) is None,
        },
{
    let ghost v = strings_view(cs@);
    let f = str_chars(fragment);
    let mut i: usize = 0;
    while i < cs.len()
        invariant
            i <= cs.len(),
            v == strings_view(cs@),
            f@ == fragment@,
            first_containing(v, fragment@, 0) == first_containing(v, fragment@, i as int),
        decreases cs.len() - i,
    {
        let lower = lower_chars(&str_chars(cs[i].as_str()));
        assert(v[i as int] == cs@[i as int]@);
        if find_chars(&lower, &f).is_some() {
            return Some(i);
        }
        i += 1;
    }
    None
}

/// Chooses a control among `controls`: the first preferred name that is
/// present, else the first control containing the first fragment that
/// matches (ignoring ASCII case).
pub fn resolve_named_control(
    controls: &Vec<String>,
    preferred: &Vec<&str>,
    fallback_fragments: &Vec<&str>,
) -> (r: Option<String>)
    ensures
        match r {
            Some(c) => resolve_control(
                strings_view(controls@),
                strs_view(preferred@),
                strs_view(fallback_fragments@),
            ) == Some(c@),
            None => resolve_control(
                strings_view(controls@),
                strs_view(preferred@),
                strs_view(fallback_fragments@),
            ) is None,
        },
{
    let ghost cs = strings_view(controls@);
    let ghost pv = strs_view(preferred@);
    let ghost fv = strs_view(fallback_fragments@);
    let mut k: usize = 0;
    while k < preferred.len()
        invariant
            k <= preferred.len(),
            cs == strings_view(controls@),
            pv == strs_view(preferred@),
            by_preference(cs, pv, 0) == by_preference(cs, pv, k as int),
        decreases preferred.len() - k,
    {
        assert(pv[k as int] == preferred@[k as int]@);
        match find_named(controls, preferred[k]) {
            Some(i) => {
                assert(cs[i as int] == controls@[i as int]@);
                return Some(controls[i].clone());
            },
            None => {},
        }
        k += 1;
    }
    let mut k: usize = 0;
    while k < fallback_fragments.len()
        invariant
            k <= fallback_fragments.len(),
            cs == strings_view(controls@),
            pv == strs_view(preferred@),
            fv == strs_view(fallback_fragments@),
            by_preference(cs, pv, 0) is None,
            by_fragment(cs, fv, 0) == by_fragment(cs, fv, k as int),
        decreases fallback_fragments.len() - k,
    {
        assert(fv[k as int] == fallback_fragments@[k as int]@);
        match find_containing(controls, fallback_fragments[k]) {
            Some(i) => {
                assert(cs[i as int] == controls@[i as int]@);
                return Some(controls[i].clone());
            },
            None => {},
        }
        k += 1;
    }
    None
}

/// A sound card: its index, its name and its mixer controls.
#[derive(Debug, Clone, PartialEq, Eq)]
pub struct AudioCard {
    pub index: usize,
    pub name: String,
    pub controls: Vec<String>,
}

/// The mixer controls that serve an output on a card.
#[derive(Debug, Clone, PartialEq, Eq)]
pub struct ResolvedControl {
    pub volume_control: String,
    /// A separate mute switch, when the card has one.
    pub switch_control: Option<String>,
}

/// The message of a missing volume control:
/// `<label> control on card <index> (<name>)`.
pub open spec fn missing_control_text(kind: AudioOutput, card: AudioCard) -> Seq<char> {
    output_label(kind) + " control on card "@ + decimal(card.index as nat) + " ("@ + card.name@
        + ")"@
}

/// Chooses the volume control and the mute switch of `kind` on `card`; the
/// switch is dropped when it is the volume control itself.
pub fn resolve_audio_controls_for_card(card: &AudioCard, kind: AudioOutput) -> (r: Result<
    ResolvedControl,
    AudioError,
>)
    ensures
        ({
            let cs = strings_view(card.controls@);
            match resolve_control(cs, preferred_controls_of(kind), fallback_fragments_of(kind)) {
                None => r matches Err(AudioError::NotFound(m)) && m@ == missing_control_text(
                    kind,
                    *card,
                ),
                Some(v) => r matches Ok(c) && c.volume_control@ == v && match resolve_control(
                    cs,
                    preferred_switch_controls_of(kind),
                    switch_fragments_of(kind),
                ) {
                    Some(sw) => if sw == v {
                        c.switch_control is None
                    } else {
                        c.switch_control matches Some(x) && x@ == sw
                    },
                    None => c.switch_control is None,
                },
            }
        }),
{
    let volume_control = match resolve_named_control(
        &card.controls,
        &kind.preferred_controls(),
        &kind.fallback_fragments(),
    ) {
        Some(v) => v,
        None => {
            let mut out: Vec<char> = Vec::new();
            extend_str(&mut out, kind.label());
            extend_str(&mut out, " control on card ");
            push_decimal(&mut out, card.index as u64);
            extend_str(&mut out, " (");
            extend_str(&mut out, card.name.as_str());
            extend_str(&mut out, ")");
            return Err(AudioError::NotFound(chars_to_string(&out)));
        },
    };
    let switch_control = match resolve_named_control(
        &card.controls,
        &kind.preferred_switch_controls(),
        &kind.switch_fragments(),
    ) {
        Some(sw) => {
            if sw == volume_control {
                None
            } else {
                Some(sw)
            }
        },
        None => None,
    };
    Ok(ResolvedControl { volume_control, switch_control })
}

/// The `amixer` arguments that set `state` on a resolved control of card
/// `card_id`: the volume as `<n>%`, then, when there is a switch, the mute
/// word of `kind`.
pub fn amixer_write_commands(
    card_id: usize,
    control: &ResolvedControl,
    state: AudioControlState,
    kind: AudioOutput,
) -> (r: Vec<Vec<String>>)
    ensures
        r.len() == if control.switch_control is Some {
            2int
        } else {
            1int
        },
        strings_view(r@[0]@) == seq![
            "-c"@,
            decimal(card_id as nat),
            "sset"@,
            control.volume_control@,
            decimal(state.volume as nat) + "%"@,
        ],
        control.switch_control matches Some(sw) ==> strings_view(r@[1]@) == seq![
            "-c"@,
            decimal(card_id as nat),
            "sset"@,
            sw@,
            if state.muted {
                switch_tokens_of(kind).1
            } else {
                switch_tokens_of(kind).0
            },
        ],
{
    let tokens = kind.switch_tokens();
    let word = if state.muted {
        tokens.1
    } else {
        tokens.0
    };
    let mut card_chars: Vec<char> = Vec::new();
    push_decimal(&mut card_chars, card_id as u64);
    let mut vol_chars: Vec<char> = Vec::new();
    push_decimal(&mut vol_chars, state.volume as u64);
    extend_str(&mut vol_chars, "%");
    let mut first: Vec<String> = Vec::new();
    first.push("-c".to_owned());
    first.push(chars_to_string(&card_chars));
    first.push("sset".to_owned());
    first.push(control.volume_control.clone());
    first.push(chars_to_string(&vol_chars));
    assert(strings_view(first@) =~= seq![
        "-c"@,
        decimal(card_id as nat),
        "sset"@,
        control.volume_control@,
        decimal(state.volume as nat) + "%"@,
    ]);
    let mut out: Vec<Vec<String>> = Vec::new();
    out.push(first);
    match &control.switch_control {
        Some(sw) => {
            let mut second: Vec<String> = Vec::new();
            second.push("-c".to_owned());
            second.push(chars_to_string(&card_chars));
            second.push("sset".to_owned());
            second.push(sw.clone());
            second.push(word.to_owned());
            assert(strings_view(second@) =~= seq![
                "-c"@,
                decimal(card_id as nat),
                "sset"@,
                sw@,
                word@,
            ]);
            out.push(second);
        },
        None => {},
    }
    out
}

// ---------------------------------------------------------------------------
// Running commands
// ---------------------------------------------------------------------------

/// The message of a failed command: its trimmed error output, or its
/// trimmed standard output when the error output is blank.
pub open spec fn failure_message(stdout: Seq<char>, stderr: Seq<char>) -> Seq<char> {
    if trim(stderr).len() == 0 {
        trim(stdout)
    } else {
        trim(stderr)
    }
}

/// The message of a failed command.
pub fn command_failure_message(stdout: &str, stderr: &str) -> (r: String)
    ensures
        r@ == failure_message(stdout@, stderr@),
{
    let e = trim_chars(&str_chars(stderr));
    if e.len() == 0 {
        chars_to_string(&trim_chars(&str_chars(stdout)))
    } else {
        chars_to_string(&e)
    }
}

/// What a finished `amixer` run gives: its output when it succeeded with
/// non-blank output.
pub fn amixer_outcome(command: &str, success: bool, stdout: &str, stderr: &str) -> (r: Result<
    String,
    AudioError,
>)
    ensures
        !success ==> (r matches Err(AudioError::CommandFailed { command: c, message: m }) && c@
            == command@ && m@ == failure_message(stdout@, stderr@)),
        success && trim(stdout@).len() == 0 ==> (r matches Err(AudioError::UnexpectedOutput(m))
            && m@ == "amixer returned empty stdout"@),
        success && trim(stdout@).len() > 0 ==> (r matches Ok(o) && o@ == stdout@),
{
    if !success {
        return Err(
            AudioError::CommandFailed {
                command: command.to_owned(),
                message: command_failure_message(stdout, stderr),
            },
        );
    }
    if trim_chars(&str_chars(stdout)).len() == 0 {
        return Err(AudioError::UnexpectedOutput("amixer returned empty stdout".to_owned()));
    }
    Ok(stdout.to_owned())
}

// ---------------------------------------------------------------------------
// The audio service's state
// ---------------------------------------------------------------------------

/// Soft-mute levels as a map: later entries win.
pub open spec fn levels_map(es: Seq<(usize, AudioOutput, u8)>) -> Map<(usize, AudioOutput), u8>
    decreases es.len(),
{
    if es.len() == 0 {
        Map::empty()
    } else {
        levels_map(es.drop_last()).insert((es.last().0, es.last().1), es.last().2)
    }
}

/// The state the audio service keeps between requests: the mock controls
/// (used where there is no ALSA mixer) and the volume each soft-muted
/// control had before it was muted.
pub struct AudioService {
    speaker: AudioControlState,
    headphones: AudioControlState,
    microphone: AudioControlState,
    soft_mute_levels: Vec<(usize, AudioOutput, u8)>,
}

/// A control that reads as muted when it has no switch and its volume is 0.
pub struct SoftWritePlan {
    /// The state to write to the mixer.
    pub write: AudioControlState,
    /// The reply when it does not come from reading the mixer back.
    pub reply: Option<AudioControlSnapshot>,
}

/// The remembered soft-mute volumes after writing `state` to the control
/// `key`: unchanged with a switch; without one, a non-zero volume is
/// remembered, and unmuting at volume 0 forgets it.
pub open spec fn levels_after_write(
    lv: Map<(usize, AudioOutput), u8>,
    key: (usize, AudioOutput),
    has_switch: bool,
    state: AudioControlState,
) -> Map<(usize, AudioOutput), u8> {
    if has_switch {
        lv
    } else if state.volume > 0 {
        lv.insert(key, state.volume)
    } else if state.muted {
        lv
    } else {
        lv.remove(key)
    }
}

/// What a read of the control `key` shows: a control without a switch that
/// reads volume 0 and has a remembered volume shows it, muted.
pub open spec fn adjusted_read(
    lv: Map<(usize, AudioOutput), u8>,
    key: (usize, AudioOutput),
    has_switch: bool,
    snap: AudioControlSnapshot,
) -> AudioControlSnapshot {
    if !has_switch && snap.volume == 0 && lv.dom().contains(key) {
        AudioControlSnapshot { volume: lv[key], muted: true, ..snap }
    } else {
        snap
    }
}

impl AudioService {
    /// The state of a mock control.
    pub closed spec fn mock_state(&self, o: AudioOutput) -> AudioControlState {
        match o {
            AudioOutput::Speaker => self.speaker,
            AudioOutput::Headphones => self.headphones,
            AudioOutput::Microphone => self.microphone,
        }
    }

    /// The remembered soft-mute levels.
    pub closed spec fn levels(&self) -> Map<(usize, AudioOutput), u8> {
        levels_map(self.soft_mute_levels@)
    }

    /// Mock controls at their defaults and no soft-mute levels.
    pub fn new() -> (s: Self)
        ensures
            forall|o: AudioOutput| #[trigger] s.mock_state(o) == default_state_of(o),
            s.levels() == Map::<(usize, AudioOutput), u8>::empty(),
    {
        AudioService {
            speaker: AudioOutput::Speaker.default_state(),
            headphones: AudioOutput::Headphones.default_state(),
            microphone: AudioOutput::Microphone.default_state(),
            soft_mute_levels: Vec::new(),
        }
    }

    /// The snapshot of a mock control.
    pub fn read_mock(&self, output: AudioOutput) -> (r: AudioControlSnapshot)
        ensures
            shows(r, output, self.mock_state(output), "Mock"@),
    {
        let state = match output {
            AudioOutput::Speaker => self.speaker,
            AudioOutput::Headphones => self.headphones,
            AudioOutput::Microphone => self.microphone,
        };
        AudioControlSnapshot::new(output, state, output.backend_label().to_owned())
    }

    /// Sets a mock control and returns its snapshot.
    pub fn write_mock(&mut self, output: AudioOutput, next: AudioControlState) -> (r:
        AudioControlSnapshot)
        ensures
            final(self).mock_state(output) == next,
            forall|o: AudioOutput| o != output ==> #[trigger] final(self).mock_state(o) == old(self).mock_state(o),
            final(self).levels() == old(self).levels(),
            shows(r, output, next, "Mock"@),
    {
        match output {
            AudioOutput::Speaker => self.speaker = next,
            AudioOutput::Headphones => self.headphones = next,
            AudioOutput::Microphone => self.microphone = next,
        }
        self.read_mock(output)
    }

    /// The snapshot of a mock control of card `card_id`; only card 0 exists.
    pub fn read_mock_control(&self, card_id: usize, output: AudioOutput) -> (r: Result<
        AudioControlSnapshot,
        AudioError,
    >)
        ensures
            card_id != 0 ==> (r matches Err(AudioError::NotFound(m)) && m@ == "mock card "@
                + decimal(card_id as nat)),
            card_id == 0 ==> (r matches Ok(s) && shows(s, output, self.mock_state(output), "Mock"@)),
    {
        if card_id != 0 {
            return Err(AudioError::NotFound(mock_card_text(card_id)));
        }
        Ok(self.read_mock(output))
    }

    /// Sets a mock control of card `card_id`; only card 0 exists.
    pub fn write_mock_control(
        &mut self,
        card_id: usize,
        output: AudioOutput,
        state: AudioControlState,
    ) -> (r: Result<AudioControlSnapshot, AudioError>)
        ensures
            final(self).levels() == old(self).levels(),
            card_id != 0 ==> (r matches Err(AudioError::NotFound(m)) && m@ == "mock card "@
                + decimal(card_id as nat) && forall|o: AudioOutput| #[trigger]
                final(self).mock_state(o) == old(self).mock_state(o)),
            card_id == 0 ==> (r matches Ok(s) && shows(s, output, state, "Mock"@)
                && final(self).mock_state(output) == state
                && forall|o: AudioOutput| o != output ==> #[trigger] final(self).mock_state(o)
                == old(self).mock_state(o)),
    {
        if card_id != 0 {
            return Err(AudioError::NotFound(mock_card_text(card_id)));
        }
        Ok(self.write_mock(output, state))
    }

    /// The mock card with its three controls.
    pub fn list_mock_cards(&self) -> (r: Vec<AudioCardSnapshot>)
        ensures
            r.len() == 1,
            r@[0].card_id == 0,
            r@[0].card_name@ == "Mock Audio"@,
            r@[0].controls.len() == 3,
            shows(r@[0].controls@[0], AudioOutput::Speaker, self.mock_state(AudioOutput::Speaker), "Mock"@),
            shows(
                r@[0].controls@[1],
                AudioOutput::Headphones,
                self.mock_state(AudioOutput::Headphones),
                "Mock"@,
            ),
            shows(
                r@[0].controls@[2],
                AudioOutput::Microphone,
                self.mock_state(AudioOutput::Microphone),
                "Mock"@,
            ),
    {
        let mut controls: Vec<AudioControlSnapshot> = Vec::new();
        controls.push(self.read_mock(AudioOutput::Speaker));
        controls.push(self.read_mock(AudioOutput::Headphones));
        controls.push(self.read_mock(AudioOutput::Microphone));
        let mut out: Vec<AudioCardSnapshot> = Vec::new();
        out.push(AudioCardSnapshot { card_id: 0, card_name: "Mock Audio".to_owned(), controls });
        out
    }

    /// Saving the mock card's settings.
    pub fn save_mock_card(card_id: usize) -> (r: Result<String, AudioError>)
        ensures
            card_id != 0 ==> (r matches Err(AudioError::NotFound(m)) && m@ == "mock card "@
                + decimal(card_id as nat)),
            card_id == 0 ==> (r matches Ok(m) && m@ == "Mock audio settings saved"@),
    {
        if card_id != 0 {
            return Err(AudioError::NotFound(mock_card_text(card_id)));
        }
        Ok("Mock audio settings saved".to_owned())
    }

    /// The volume remembered for a soft-muted control.
    pub fn soft_mute_level(&self, card_id: usize, output: AudioOutput) -> (r: Option<u8>)
        ensures
            r == (if self.levels().dom().contains((card_id, output)) {
                Some(self.levels()[(card_id, output)])
            } else {
                None
            }),
    {
        let mut found: Option<u8> = None;
        let mut i: usize = 0;
        while i < self.soft_mute_levels.len()
            invariant
                i <= self.soft_mute_levels.len(),
                found == (if levels_map(self.soft_mute_levels@.take(i as int)).dom().contains(
                    (card_id, output),
                ) {
                    Some(levels_map(self.soft_mute_levels@.take(i as int))[(card_id, output)])
                } else {
                    None
                }),
            decreases self.soft_mute_levels.len() - i,
        {
            let e = self.soft_mute_levels[i];
            assert(self.soft_mute_levels@.take(i + 1).drop_last() =~= self.soft_mute_levels@.take(
                i as int,
            ));
            if e.0 == card_id && e.1 == output {
                found = Some(e.2);
            }
            i += 1;
        }
        assert(self.soft_mute_levels@.take(self.soft_mute_levels.len() as int)
            =~= self.soft_mute_levels@);
        found
    }

    /// Forgets the volume remembered for a control.
    pub fn clear_soft_mute_level(&mut self, card_id: usize, output: AudioOutput)
        ensures
            final(self).levels() == old(self).levels().remove((card_id, output)),
            forall|o: AudioOutput| #[trigger] final(self).mock_state(o) == old(self).mock_state(o),
    {
        let ghost es = self.soft_mute_levels@;
        let mut kept: Vec<(usize, AudioOutput, u8)> = Vec::new();
        let mut i: usize = 0;
        while i < self.soft_mute_levels.len()
            invariant
                i <= self.soft_mute_levels.len(),
                self.soft_mute_levels@ == es,
                levels_map(kept@) == levels_map(es.take(i as int)).remove((card_id, output)),
            decreases self.soft_mute_levels.len() - i,
        {
            let e = self.soft_mute_levels[i];
            assert(es.take(i + 1).drop_last() =~= es.take(i as int));
            let ghost before = kept@;
            if !(e.0 == card_id && e.1 == output) {
                kept.push(e);
                assert(kept@.drop_last() =~= before);
            }
            assert(levels_map(kept@) =~= levels_map(es.take(i + 1)).remove((card_id, output)));
            i += 1;
        }
        assert(es.take(es.len() as int) =~= es);
        self.soft_mute_levels = kept;
    }

    /// Remembers `volume` for a soft-muted control.
    pub fn set_soft_mute_level(&mut self, card_id: usize, output: AudioOutput, volume: u8)
        ensures
            final(self).levels() == old(self).levels().insert((card_id, output), volume),
            forall|o: AudioOutput| #[trigger] final(self).mock_state(o) == old(self).mock_state(o),
    {
        self.clear_soft_mute_level(card_id, output);
        let ghost mid = *self;
        let ghost before = self.soft_mute_levels@;
        self.soft_mute_levels.push((card_id, output, volume));
        assert(self.soft_mute_levels@.drop_last() =~= before);
        assert(self.levels() =~= old(self).levels().insert((card_id, output), volume));
        assert forall|o: AudioOutput| #[trigger] self.mock_state(o) == old(self).mock_state(o) by {
            assert(mid.mock_state(o) == old(self).mock_state(o));
            match o {
                AudioOutput::Speaker => {},
                AudioOutput::Headphones => {},
                AudioOutput::Microphone => {},
            }
        }
    }

    /// A control read from a mixer without a mute switch: at volume 0 with a
    /// remembered level it reads as muted at that level.
    pub fn adjust_read_snapshot(
        &self,
        card_id: usize,
        output: AudioOutput,
        has_switch: bool,
        snapshot: AudioControlSnapshot,
    ) -> (r: AudioControlSnapshot)
        ensures
            r == adjusted_read(self.levels(), (card_id, output), has_switch, snapshot),
            if !has_switch && snapshot.volume == 0 && self.levels().dom().contains(
                (card_id, output),
            ) {
                r == (AudioControlSnapshot {
                    volume: self.levels()[(card_id, output)],
                    muted: true,
                    ..snapshot
                })
            } else {
                r == snapshot
            },
    {
        let mut snapshot = snapshot;
        if !has_switch && snapshot.volume == 0 {
            match self.soft_mute_level(card_id, output) {
                Some(saved) => {
                    snapshot.volume = saved;
                    snapshot.muted = true;
                },
                None => {},
            }
        }
        snapshot
    }

    /// Plans writing a (valid) state to a mixer control: with a switch the
    /// state is written as it is; without one, muting writes volume 0 and
    /// remembers the volume, and unmuting remembers or forgets it.
    pub fn plan_soft_write(
        &mut self,
        card_id: usize,
        output: AudioOutput,
        has_switch: bool,
        state: AudioControlState,
    ) -> (r: SoftWritePlan)
        ensures
            final(self).levels() == levels_after_write(
                old(self).levels(),
                (card_id, output),
                has_switch,
                state,
            ),
            forall|o: AudioOutput| #[trigger] final(self).mock_state(o) == old(self).mock_state(o),
            has_switch ==> r.write == state && r.reply is None && final(self).levels() == old(self).levels(),
            !has_switch && state.muted ==> ({
                let lv = if state.volume > 0 {
                    old(self).levels().insert((card_id, output), state.volume)
                } else {
                    old(self).levels()
                };
                &&& final(self).levels() == lv
                &&& r.write == (AudioControlState { volume: 0, muted: false })
                &&& r.reply matches Some(s) && s.control_id@ == output_id(output) && s.label@
                    == output_label(output) && s.muted && s.backend@ == alsa_backend(output)
                    && s.volume == (if lv.dom().contains((card_id, output)) {
                    lv[(card_id, output)]
                } else {
                    state.volume
                })
            }),
            !has_switch && !state.muted ==> r.write == state && r.reply is None && final(self).levels() == (if state.volume > 0 {
                old(self).levels().insert((card_id, output), state.volume)
            } else {
                old(self).levels().remove((card_id, output))
            }),
    {
        if has_switch {
            return SoftWritePlan { write: state, reply: None };
        }
        if state.muted {
            if state.volume > 0 {
                self.set_soft_mute_level(card_id, output, state.volume);
            }
            let shown = match self.soft_mute_level(card_id, output) {
                Some(v) => v,
                None => state.volume,
            };
            let reply = AudioControlSnapshot::new(
                output,
                AudioControlState { volume: shown, muted: true },
                alsa_backend_name(output),
            );
            return SoftWritePlan {
                write: AudioControlState { volume: 0, muted: false },
                reply: Some(reply),
            };
        }
        if state.volume > 0 {
            self.set_soft_mute_level(card_id, output, state.volume);
        } else {
            self.clear_soft_mute_level(card_id, output);
        }
        SoftWritePlan { write: state, reply: None }
    }
}

fn mock_card_text(card_id: usize) -> (r: String)
    ensures
        r@ == "mock card "@ + decimal(card_id as nat),
{
    let mut out: Vec<char> = Vec::new();
    extend_str(&mut out, "mock card ");
    push_decimal(&mut out, card_id as u64);
    chars_to_string(&out)
}

/// A muted control keeps its volume: after a muting write of a non-zero
/// volume to a control without a switch, reading the control back at volume
/// 0 shows it muted at the volume it had; a switch is never involved.
pub proof fn lemma_soft_mute_round_trip(
    levels: Map<(usize, AudioOutput), u8>,
    card_id: usize,
    output: AudioOutput,
    volume: u8,
    read: AudioControlSnapshot,
)
    requires
        volume > 0,
        read.volume == 0,
    ensures
        ({
            let key = (card_id, output);
            let lv = levels_after_write(levels, key, false, AudioControlState { volume, muted: true });
            let shown = adjusted_read(lv, key, false, read);
            shown.volume == volume && shown.muted
        }),
{
}

} // verus!
