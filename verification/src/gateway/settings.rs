//! Gateway settings that are checked before they are stored.

use vstd::prelude::*;

use crate::text::{
    chars_to_string, is_alnum, lower, lower_all, lower_chars, str_chars, trim, trim_chars, trim_end,
    trim_start,
};

verus! {

/// A codename character: an ASCII lowercase letter or digit.
pub open spec fn codename_char(c: char) -> bool {
    ('a' <= c && c <= 'z') || ('0' <= c && c <= '9')
}

/// The codename a value gives: trimmed and lowercased, it must be 8 bytes
/// long and made of ASCII lowercase letters and digits.
pub open spec fn codename_of(value: Seq<char>) -> Result<Seq<char>, Seq<char>> {
    let n = lower_all(trim(value));
    if vstd::utf8::encode_utf8(n).len() != 8 {
        Err("Codename must be exactly 8 characters."@)
    } else if !(forall|i: int| 0 <= i < n.len() ==> codename_char(#[trigger] n[i])) {
        Err("Codename must use only letters and digits."@)
    } else {
        Ok(n)
    }
}

/// Normalizes a device codename.
pub fn normalize_codename(value: &str) -> (r: Result<String, &'static str>)
    ensures
        match r {
            Ok(s) => codename_of(value@) == Ok::<Seq<char>, Seq<char>>(s@),
            Err(e) => codename_of(value@) == Err::<Seq<char>, Seq<char>>(e@),
        },
{
    let n = lower_chars(&trim_chars(&str_chars(value)));
    let s = chars_to_string(&n);
    if crate::text::chars_to_bytes(&n).len() != 8 {
        return Err("Codename must be exactly 8 characters.");
    }
    let mut i: usize = 0;
    while i < n.len()
        invariant
            i <= n.len(),
            n@ == lower_all(trim(value@)),
            vstd::utf8::encode_utf8(n@).len() == 8,
            forall|j: int| 0 <= j < i ==> codename_char(#[trigger] n@[j]),
        decreases n.len() - i,
    {
        let c = n[i];
        if !(('a' <= c && c <= 'z') || ('0' <= c && c <= '9')) {
            assert(!codename_char(n@[i as int]));
            return Err("Codename must use only letters and digits.");
        }
        i += 1;
    }
    Ok(s)
}

/// The codename rule: a value gives a codename exactly when, trimmed, it has
/// eight characters, all ASCII letters or digits, and the codename is then
/// the trimmed value in lowercase.  A refused value is answered with one of
/// the two messages, and a codename gives itself again.
pub proof fn lemma_codename_rule(value: Seq<char>)
    ensures
        codename_of(value) is Ok <==> trim(value).len() == 8 && forall|i: int|
            0 <= i < trim(value).len() ==> is_alnum(#[trigger] trim(value)[i]),
        codename_of(value) matches Ok(s) ==> s == lower_all(trim(value)) && codename_of(s) == Ok::<
            Seq<char>,
            Seq<char>,
        >(s),
        codename_of(value) matches Err(e) ==> e == "Codename must be exactly 8 characters."@ || e
            == "Codename must use only letters and digits."@,
{
    let t = trim(value);
    let n = lower_all(t);
    assert(n.len() == t.len());
    if t.len() == 8 && forall|i: int| 0 <= i < t.len() ==> is_alnum(#[trigger] t[i]) {
        assert forall|i: int| 0 <= i < n.len() implies codename_char(#[trigger] n[i]) by {
            assert(n[i] == lower(t[i]));
            assert(is_alnum(t[i]));
        }
        assert(vstd::utf8::is_ascii_chars(n));
        vstd::utf8::is_ascii_chars_encode_utf8(n);
    }
    if codename_of(value) is Ok {
        assert(forall|i: int| 0 <= i < n.len() ==> codename_char(#[trigger] n[i]));
        assert(vstd::utf8::is_ascii_chars(n));
        vstd::utf8::is_ascii_chars_encode_utf8(n);
        assert forall|i: int| 0 <= i < t.len() implies is_alnum(#[trigger] t[i]) by {
            assert(n[i] == lower(t[i]));
            assert(codename_char(n[i]));
        }
        assert(codename_char(n[0]));
        assert(codename_char(n[7]));
        assert(trim_start(n) == n);
        assert(trim_end(n) == n);
        assert(trim(n) == n);
        assert forall|i: int| 0 <= i < n.len() implies lower(n[i]) == n[i] by {
            assert(codename_char(n[i]));
        }
        assert(lower_all(n) =~= n);
    }
}

/// Seconds between announces unless configured.
pub fn default_announce_freq_secs() -> (r: u32)
    ensures
        r == 5,
{
    5
}

/// Whether every peer may connect unless configured.
pub fn default_allow_all_peers() -> (r: bool)
    ensures
        r,
{
    true
}

} // verus!
