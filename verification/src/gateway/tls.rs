//! Naming and identity for the gateway's local HTTPS certificates: where the
//! files live, the subject names, the device identity, deterministic key
//! material and certificate serial numbers.

use vstd::prelude::*;

use crate::text::{opt_view, 
    chars_eq_str, chars_to_string, extend_str, is_alnum, is_alnum_char, str_chars, trim,
    trim_chars,
};

verus! {

/// The SHA-256 digest of some bytes.
pub uninterp spec fn sha256(data: Seq<u8>) -> Seq<u8>;

/// `sha2::Sha256::digest`: the contract claims that the digest is the named
/// SHA-256 of the input and is 32 bytes long, as the algorithm fixes.
#[verifier::external_body]
fn sha256_digest(data: &[u8]) -> (r: Vec<u8>)
    ensures
        r@ == sha256(data@),
        r.len() == 32,
{
    <sha2::Sha256 as sha2::Digest>::digest(data).to_vec()
}

/// Whether the bytes are a valid P-256 secret key.
pub uninterp spec fn p256_secret_key_valid(bytes: Seq<u8>) -> bool;

/// `p256::ecdsa::SigningKey::from_slice` succeeding: the contract claims
/// only that the answer is the named validity of the bytes.
#[verifier::external_body]
fn p256_key_accepts(bytes: &[u8]) -> (r: bool)
    ensures
        r == p256_secret_key_valid(bytes@),
{
    p256::ecdsa::SigningKey::from_slice(bytes).is_ok()
}

/// Where certificates are kept unless configured.
pub open spec fn default_certs_dir() -> Seq<char> {
    "/etc/kaonic/certs"@
}

/// `Path::join` of a relative file name onto a directory.
pub open spec fn join_path(dir: Seq<char>, name: Seq<char>) -> Seq<char> {
    if dir.len() == 0 {
        name
    } else if dir.last() == '/' {
        dir + name
    } else {
        dir + "/"@ + name
    }
}

/// Joins a relative file name onto a directory.
pub fn join_path_str(dir: &str, name: &str) -> (r: String)
    ensures
        r@ == join_path(dir@, name@),
{
    let d = str_chars(dir);
    let mut out: Vec<char> = Vec::new();
    extend_str(&mut out, dir);
    if d.len() > 0 && d[d.len() - 1] != '/' {
        extend_str(&mut out, "/");
    }
    extend_str(&mut out, name);
    chars_to_string(&out)
}

/// The certificate directory: the configured one, else the default.
pub fn certs_dir(configured: Option<&str>) -> (r: String)
    ensures
        match configured {
            Some(d) => r@ == d@,
            None => r@ == default_certs_dir(),
        },
{
    match configured {
        Some(d) => d.to_owned(),
        None => "/etc/kaonic/certs".to_owned(),
    }
}

/// The root CA certificate in a directory.
pub fn root_ca_cert_path_for(dir: &str) -> (r: String)
    ensures
        r@ == join_path(dir@, "rootca.crt"@),
{
    join_path_str(dir, "rootca.crt")
}

/// The root CA certificate in the certificate directory.
pub fn root_ca_cert_path(configured: Option<&str>) -> (r: String)
    ensures
        r@ == join_path(
            match configured {
                Some(d) => d@,
                None => default_certs_dir(),
            },
            "rootca.crt"@,
        ),
{
    let dir = certs_dir(configured);
    root_ca_cert_path_for(dir.as_str())
}

/// The gateway's TLS certificate.
pub fn gateway_tls_cert_path() -> (r: String)
    ensures
        r@ == "/etc/kaonic/kaonic-gateway-tls.crt"@,
{
    "/etc/kaonic/kaonic-gateway-tls.crt".to_owned()
}

/// The gateway's TLS key.
pub fn gateway_tls_key_path() -> (r: String)
    ensures
        r@ == "/etc/kaonic/kaonic-gateway-tls.key"@,
{
    "/etc/kaonic/kaonic-gateway-tls.key".to_owned()
}

/// The root CA's common name, with the device serial when it is known.
pub open spec fn root_ca_name(serial: Option<Seq<char>>) -> Seq<char> {
    match serial {
        Some(s) => if trim(s).len() > 0 {
            "Kaonic Local Root CA "@ + trim(s)
        } else {
            "Kaonic Local Root CA"@
        },
        None => "Kaonic Local Root CA"@,
    }
}

/// The view of an optional string slice.
pub open spec fn opt_str(o: Option<&str>) -> Option<Seq<char>> {
    match o {
        Some(s) => Some(s@),
        None => None,
    }
}

/// The root CA's common name.
pub fn root_ca_common_name(device_serial: Option<&str>) -> (r: String)
    ensures
        r@ == root_ca_name(opt_str(device_serial)),
{
    match device_serial {
        Some(s) => {
            let t = trim_chars(&str_chars(s));
            if t.len() > 0 {
                let mut out: Vec<char> = Vec::new();
                extend_str(&mut out, "Kaonic Local Root CA ");
                crate::text::extend_chars(&mut out, &t);
                chars_to_string(&out)
            } else {
                "Kaonic Local Root CA".to_owned()
            }
        },
        None => "Kaonic Local Root CA".to_owned(),
    }
}

/// A service certificate's common name: `<service> <device identity>`.
pub fn service_common_name(service_name: &str, device_identity: &str) -> (r: String)
    ensures
        r@ == service_name@ + " "@ + device_identity@,
{
    let mut out: Vec<char> = Vec::new();
    extend_str(&mut out, service_name);
    extend_str(&mut out, " ");
    extend_str(&mut out, device_identity);
    chars_to_string(&out)
}

/// A host name character: ASCII letter, digit, `-` or `.`.
pub open spec fn host_char(c: char) -> bool {
    is_alnum(c) || c == '-' || c == '.'
}

/// The host name in `/etc/hostname`, when it is a plain, non-blank host
/// name.
pub open spec fn hostname_of(data: Option<Seq<char>>) -> Option<Seq<char>> {
    match data {
        Some(d) => {
            let t = trim(d);
            if t.len() > 0 && (forall|i: int| 0 <= i < t.len() ==> host_char(#[trigger] t[i])) {
                Some(t)
            } else {
                None
            }
        },
        None => None,
    }
}

/// Reads the host name from the contents of `/etc/hostname`.
pub fn hostname_from(data: Option<&str>) -> (r: Option<String>)
    ensures
        opt_view(r) == hostname_of(opt_str(data)),
{
    match data {
        Some(d) => {
            let t = trim_chars(&str_chars(d));
            if t.len() == 0 {
                return None;
            }
            let mut i: usize = 0;
            while i < t.len()
                invariant
                    i <= t.len(),
                    data == Some(d),
                    t@ == trim(d@),
                    t.len() > 0,
                    forall|j: int| 0 <= j < i ==> host_char(#[trigger] t@[j]),
                decreases t.len() - i,
            {
                let c = t[i];
                if !(is_alnum_char(c) || c == '-' || c == '.') {
                    assert(!host_char(t@[i as int]));
                    return None;
                }
                i += 1;
            }
            Some(chars_to_string(&t))
        },
        None => None,
    }
}

/// The device serial in `/etc/kaonic/kaonic_serial`, trimmed, unless
/// blank.
pub fn device_serial_from(data: Option<&str>) -> (r: Option<String>)
    ensures
        opt_view(r) == match opt_str(data) {
            Some(d) => if trim(d).len() > 0 {
                Some(trim(d))
            } else {
                None
            },
            None => None,
        },
{
    match data {
        Some(d) => {
            let t = trim_chars(&str_chars(d));
            if t.len() > 0 {
                Some(chars_to_string(&t))
            } else {
                None
            }
        },
        None => None,
    }
}

/// The device identity: its serial, else its host name, else
/// `kaonic-gateway`.
pub fn device_identity(serial: Option<String>, hostname: Option<String>) -> (r: String)
    ensures
        r@ == match opt_view(serial) {
            Some(s) => s,
            None => match opt_view(hostname) {
                Some(h) => h,
                None => "kaonic-gateway"@,
            },
        },
{
    match serial {
        Some(s) => s,
        None => match hostname {
            Some(h) => h,
            None => "kaonic-gateway".to_owned(),
        },
    }
}

/// The subject alternative names of a service certificate: `localhost`,
/// `127.0.0.1`, `192.168.10.1`, then the host name and `<host>.local`
/// when known and not already listed.
pub open spec fn alt_names(hostname: Option<Seq<char>>) -> Seq<Seq<char>> {
    let base = seq!["localhost"@, "127.0.0.1"@, "192.168.10.1"@];
    match hostname {
        Some(h) => {
            let with_host = if base.contains(h) {
                base
            } else {
                base.push(h)
            };
            let local = h + ".local"@;
            if ends_with_local(h) || with_host.contains(local) {
                with_host
            } else {
                with_host.push(local)
            }
        },
        None => base,
    }
}

/// The name ends with `.local`.
pub open spec fn ends_with_local(h: Seq<char>) -> bool {
    h.len() >= 6 && h.skip(h.len() - 6) == ".local"@
}

fn strings_contain(v: &Vec<String>, s: &Vec<char>) -> (r: bool)
    ensures
        r == v@.map_values(|x: String| x@).contains(s@),
{
    let ghost vv = v@.map_values(|x: String| x@);
    let mut i: usize = 0;
    while i < v.len()
        invariant
            i <= v.len(),
            vv == v@.map_values(|x: String| x@),
            forall|j: int| 0 <= j < i ==> vv[j] != s@,
        decreases v.len() - i,
    {
        assert(vv[i as int] == v@[i as int]@);
        if crate::text::chars_eq(&str_chars(v[i].as_str()), s) {
            return true;
        }
        i += 1;
    }
    false
}

/// The subject alternative names of a service certificate.
pub fn service_subject_alt_names(hostname: Option<&str>) -> (r: Vec<String>)
    ensures
        r@.map_values(|x: String| x@) == alt_names(opt_str(hostname)),
{
    let mut names: Vec<String> = Vec::new();
    names.push("localhost".to_owned());
    names.push("127.0.0.1".to_owned());
    names.push("192.168.10.1".to_owned());
    assert(names@.map_values(|x: String| x@) =~= seq!["localhost"@, "127.0.0.1"@, "192.168.10.1"@]);
    if let Some(h) = hostname {
        let hc = str_chars(h);
        if !strings_contain(&names, &hc) {
            let ghost before = names@.map_values(|x: String| x@);
            names.push(h.to_owned());
            assert(names@.map_values(|x: String| x@) =~= before.push(h@));
        }
        let mut local: Vec<char> = Vec::new();
        extend_str(&mut local, h);
        extend_str(&mut local, ".local");
        let suffix = str_chars(".local");
        proof {
            reveal_strlit(".local");
        }
        let ends = hc.len() >= 6 && crate::text::chars_eq(
            &crate::text::copy_range(&hc, hc.len() - 6, hc.len()),
            &suffix,
        );
        assert(ends == ends_with_local(h@)) by {
            if hc.len() >= 6 {
                assert(hc@.subrange(hc.len() - 6, hc.len() as int) =~= h@.skip(h@.len() - 6));
            }
        }
        if !ends && !strings_contain(&names, &local) {
            let ghost before = names@.map_values(|x: String| x@);
            names.push(chars_to_string(&local));
            assert(names@.map_values(|x: String| x@) =~= before.push(local@));
        }
    }
    names
}

/// The bytes hashed for a serial number: the label, a zero byte, the key
/// material, and each context part preceded by a zero byte.
pub open spec fn serial_input(label: Seq<u8>, material: Seq<u8>, parts: Seq<Seq<u8>>) -> Seq<u8>
    decreases parts.len(),
{
    if parts.len() == 0 {
        label + seq![0u8] + material
    } else {
        serial_input(label, material, parts.drop_last()) + seq![0u8] + parts.last()
    }
}

/// A certificate serial number: the first 16 bytes of the digest, with the
/// top bit cleared so the number is positive, and 1 as the last byte if it
/// would otherwise be zero.
pub open spec fn serial_of(digest: Seq<u8>) -> Seq<u8> {
    let s = digest.take(16).update(0, digest[0] & 0x7f);
    if forall|i: int| 0 <= i < 16 ==> #[trigger] s[i] == 0 {
        s.update(15, 1)
    } else {
        s
    }
}

/// The serial number of a certificate, derived from a label, the key
/// material and identity context, so that the same inputs give the same
/// serial.
pub fn derived_serial_number(label: &str, material: &[u8], context_parts: &Vec<Vec<u8>>) -> (r:
    Vec<u8>)
    ensures
        r@ == serial_of(
            sha256(
                serial_input(
                    vstd::utf8::encode_utf8(label@),
                    material@,
                    context_parts@.map_values(|p: Vec<u8>| p@),
                ),
            ),
        ),
        r.len() == 16,
{
    let ghost parts = context_parts@.map_values(|p: Vec<u8>| p@);
    let mut input: Vec<u8> = Vec::new();
    let lb = label.as_bytes();
    let mut i: usize = 0;
    while i < lb.len()
        invariant
            i <= lb.len(),
            input@ == lb@.take(i as int),
        decreases lb.len() - i,
    {
        input.push(lb[i]);
        assert(lb@.take(i + 1) =~= lb@.take(i as int).push(lb@[i as int]));
        i += 1;
    }
    assert(lb@.take(lb.len() as int) =~= lb@);
    input.push(0);
    let ghost head = input@;
    let mut i: usize = 0;
    while i < material.len()
        invariant
            i <= material.len(),
            input@ == head + material@.take(i as int),
        decreases material.len() - i,
    {
        input.push(material[i]);
        assert(material@.take(i + 1) =~= material@.take(i as int).push(material@[i as int]));
        i += 1;
    }
    assert(material@.take(material.len() as int) =~= material@);
    assert(input@ =~= serial_input(lb@, material@, parts.take(0)));
    let mut k: usize = 0;
    while k < context_parts.len()
        invariant
            k <= context_parts.len(),
            parts == context_parts@.map_values(|p: Vec<u8>| p@),
            input@ == serial_input(lb@, material@, parts.take(k as int)),
        decreases context_parts.len() - k,
    {
        let part = &context_parts[k];
        let ghost base = input@;
        input.push(0);
        let mut j: usize = 0;
        while j < part.len()
            invariant
                j <= part.len(),
                input@ == base + seq![0u8] + part@.take(j as int),
            decreases part.len() - j,
        {
            input.push(part[j]);
            assert(part@.take(j + 1) =~= part@.take(j as int).push(part@[j as int]));
            j += 1;
        }
        assert(part@.take(part.len() as int) =~= part@);
        assert(parts.take(k + 1).drop_last() =~= parts.take(k as int));
        assert(parts.take(k + 1).last() == part@);
        k += 1;
    }
    assert(parts.take(context_parts.len() as int) =~= parts);
    let digest = sha256_digest(&input);
    let mut serial: Vec<u8> = Vec::new();
    let mut i: usize = 0;
    while i < 16
        invariant
            i <= 16,
            digest.len() == 32,
            serial@ == digest@.take(i as int),
        decreases 16 - i,
    {
        serial.push(digest[i]);
        assert(digest@.take(i + 1) =~= digest@.take(i as int).push(digest@[i as int]));
        i += 1;
    }
    let first = serial[0] & 0x7f;
    serial.set(0, first);
    let ghost s = serial@;
    let mut all_zero = true;
    let mut i: usize = 0;
    while i < 16
        invariant
            i <= 16,
            serial.len() == 16,
            serial@ == s,
            all_zero == (forall|j: int| 0 <= j < i ==> #[trigger] s[j] == 0),
        decreases 16 - i,
    {
        if serial[i] != 0 {
            all_zero = false;
        }
        i += 1;
    }
    if all_zero {
        serial.set(15, 1);
    }
    serial
}

/// The 32-byte key material derived from a seed phrase: its SHA-256
/// digest, hashed again until P-256 accepts it as a secret key, for at most
/// eight tries.
pub open spec fn key_material_from(material: Seq<u8>, tries: nat) -> Option<Seq<u8>>
    decreases tries,
{
    if tries == 0 {
        None
    } else if p256_secret_key_valid(material) {
        Some(material)
    } else {
        key_material_from(sha256(material), (tries - 1) as nat)
    }
}

/// The deterministic P-256 key material for a seed phrase, or the error of
/// finding none.
pub fn deterministic_p256_key_material(seed_phrase: &str) -> (r: Result<Vec<u8>, String>)
    ensures
        match r {
            Ok(m) => key_material_from(sha256(vstd::utf8::encode_utf8(seed_phrase@)), 8) == Some(
                m@,
            ),
            Err(e) => key_material_from(sha256(vstd::utf8::encode_utf8(seed_phrase@)), 8) is None
                && e@ == "derive deterministic P-256 root CA key"@,
        },
{
    let mut material = sha256_digest(seed_phrase.as_bytes());
    let ghost start = material@;
    let mut n: usize = 0;
    while n < 8
        invariant
            n <= 8,
            start == sha256(vstd::utf8::encode_utf8(seed_phrase@)),
            key_material_from(start, 8) == key_material_from(material@, (8 - n) as nat),
        decreases 8 - n,
    {
        if p256_key_accepts(&material) {
            return Ok(material);
        }
        material = sha256_digest(&material);
        n += 1;
    }
    Err("derive deterministic P-256 root CA key".to_owned())
}

/// The PKCS#8 DER document of a P-256 secret key, when the bytes are one.
pub uninterp spec fn p256_pkcs8_der(secret: Seq<u8>) -> Option<Seq<u8>>;

/// `p256::ecdsa::SigningKey::from_slice` followed by
/// `pkcs8::EncodePrivateKey::to_pkcs8_der`: the contract claims only that
/// the result is the named encoding of the key bytes.
#[verifier::external_body]
pub(crate) fn p256_pkcs8(secret: &[u8]) -> (r: Option<Vec<u8>>)
    ensures
        match r {
            Some(d) => p256_pkcs8_der(secret@) == Some(d@),
            None => p256_pkcs8_der(secret@) is None,
        },
{
    let key = p256::ecdsa::SigningKey::from_slice(secret).ok()?;
    let doc = p256::pkcs8::EncodePrivateKey::to_pkcs8_der(&key).ok()?;
    Some(doc.as_bytes().to_vec())
}

/// The PKCS#8 DER of the P-256 key derived from a seed phrase, when it can
/// be derived and encoded.
pub open spec fn seeded_key_der(seed_phrase: Seq<char>) -> Option<Seq<u8>> {
    match key_material_from(sha256(vstd::utf8::encode_utf8(seed_phrase)), 8) {
        Some(m) => p256_pkcs8_der(m),
        None => None,
    }
}

fn bytes_equal(a: &[u8], b: &[u8]) -> (r: bool)
    ensures
        r == (a@ == b@),
{
    if a.len() != b.len() {
        return false;
    }
    let mut i: usize = 0;
    while i < a.len()
        invariant
            i <= a.len() == b.len(),
            forall|j: int| 0 <= j < i ==> a@[j] == b@[j],
        decreases a.len() - i,
    {
        if a[i] != b[i] {
            return false;
        }
        i += 1;
    }
    assert(a@ =~= b@);
    true
}

/// Whether a stored root CA key is the old key derived from the seed
/// phrase, which is no longer trusted.
pub fn is_legacy_root_ca_key_der(key_der: &[u8], seed_phrase: &str) -> (r: bool)
    ensures
        r == (seeded_key_der(seed_phrase@) == Some(key_der@)),
{
    match deterministic_p256_key_material(seed_phrase) {
        Ok(m) => match p256_pkcs8(&m) {
            Some(d) => bytes_equal(&d, key_der),
            None => false,
        },
        Err(_) => false,
    }
}

/// The seed phrase of the local CA keys: the configured one, else the
/// default.
pub fn ca_seed_phrase(configured: Option<&str>) -> (r: String)
    ensures
        match configured {
            Some(p) => r@ == p@,
            None => r@ == "BEECHAT_KAONIC_GATEWAY"@,
        },
{
    match configured {
        Some(p) => p.to_owned(),
        None => "BEECHAT_KAONIC_GATEWAY".to_owned(),
    }
}

/// A stored root CA key is used unless it is empty or the old key derived
/// from the seed phrase.
pub fn stored_key_usable(existing: &[u8], is_legacy: bool) -> (r: bool)
    ensures
        r == (existing@.len() > 0 && !is_legacy),
{
    existing.len() > 0 && !is_legacy
}

/// A file is written only when its content would change.
pub fn needs_write(current: Option<&[u8]>, content: &[u8]) -> (r: bool)
    ensures
        r == match current {
            Some(c) => c@ != content@,
            None => true,
        },
{
    match current {
        Some(c) => !bytes_equal(c, content),
        None => true,
    }
}

} // verus!
