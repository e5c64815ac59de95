//! The certificates of the gateway's local HTTPS: the root CA that the
//! device makes for itself and the service certificates it signs.  What a
//! certificate says (names, validity, serial number, usages) is decided here;
//! `rcgen` encodes and signs it.

use vstd::prelude::*;

use crate::gateway::tls::{
    deterministic_p256_key_material, derived_serial_number, opt_str, p256_pkcs8, root_ca_common_name,
    root_ca_name, seeded_key_der, serial_input, serial_of, service_subject_alt_names, sha256,
    alt_names,
};
use crate::text::{chars_to_bytes, chars_to_string, extend_str, str_chars, strings_view};

verus! {

#[verifier::external_type_specification]
#[verifier::external_body]
pub struct ExCertificate(rcgen::Certificate);

#[verifier::external_type_specification]
#[verifier::external_body]
pub struct ExCertificateParams(rcgen::CertificateParams);

/// Whether `rcgen` accepts the bytes as a PKCS#8 key pair.
pub uninterp spec fn rcgen_key_accepted(der: Seq<u8>) -> bool;

/// The PEM text `rcgen` writes for the key pair read from the DER.  It is
/// the PKCS#8 DER itself, base64-encoded under a `PRIVATE KEY` header, with
/// the line endings of the target the program is built for.
pub uninterp spec fn rcgen_key_pem_text(der: Seq<u8>) -> Seq<char>;

/// `rcgen::KeyPair::try_from(&[u8])`, then `KeyPair::serialize_pem`: the
/// contract claims that a key pair comes back only for bytes accepted as
/// one, and that its PEM is the named text of those bytes (the key pair
/// keeps the DER it was read from, and the PEM encodes it), beginning with
/// the `PRIVATE KEY` header.  Parsing also runs the key checks of the crypto
/// backend, so nothing is said of when it fails.
#[verifier::external_body]
fn rcgen_key_pem(der: &[u8]) -> (r: Result<String, String>)
    ensures
        r matches Ok(pem) ==> {
            &&& rcgen_key_accepted(der@)
            &&& pem@ == rcgen_key_pem_text(der@)
            &&& pem_begins(pem@, "PRIVATE KEY"@)
        },
{
    let key_pair = rcgen::KeyPair::try_from(der).map_err(|err| err.to_string())?;
    Ok(key_pair.serialize_pem())
}

/// The text of each subject alternative name as `rcgen` holds it.
pub uninterp spec fn rcgen_san_labels(names: Seq<Seq<char>>) -> Seq<Seq<char>>;

/// Every character is ASCII.
pub open spec fn ascii_text(s: Seq<char>) -> bool {
    forall|i: int| 0 <= i < s.len() ==> (#[trigger] s[i] as u32) < 128
}

/// `rcgen::CertificateParams::new`, which turns each name into an IP
/// address or a DNS name, and the `Debug` text of each name it made: the
/// contract claims that it succeeds exactly when every name is ASCII (a DNS
/// name must be, and an IP address is), and that those texts are the named
/// function of the names.
#[verifier::external_body]
fn rcgen_params(names: Vec<String>) -> (r: Result<(rcgen::CertificateParams, Vec<String>), String>)
    ensures
        r is Ok <==> forall|i: int| 0 <= i < names.len() ==> ascii_text(#[trigger] names@[i]@),
        r matches Ok((_, labels)) ==> strings_view(labels@) == rcgen_san_labels(
            strings_view(names@),
        ),
{
    let params = rcgen::CertificateParams::new(names).map_err(|err| err.to_string())?;
    let labels = params.subject_alt_names.iter().map(|name| format!("{name:?}")).collect();
    Ok((params, labels))
}

/// A calendar day, in UTC.
#[derive(Clone, Copy, Debug, PartialEq, Eq, Structural)]
pub struct CertDate {
    pub year: i32,
    pub month: u8,
    pub day: u8,
}

/// A day that every month has, in a year that `rcgen` can encode.
pub open spec fn valid_date(d: CertDate) -> bool {
    -9999 <= d.year <= 9999 && 1 <= d.month <= 12 && 1 <= d.day <= 28
}

/// `rcgen::DistinguishedName::push` of the common name and the
/// organization into a new name, which becomes the subject.  Nothing is
/// claimed.
#[verifier::external_body]
fn rcgen_set_subject(params: &mut rcgen::CertificateParams, common_name: &str, organization: &str) {
    let mut dn = rcgen::DistinguishedName::new();
    dn.push(rcgen::DnType::CommonName, common_name);
    dn.push(rcgen::DnType::OrganizationName, organization);
    params.distinguished_name = dn;
}

/// `rcgen::date_time_ymd` for both ends of the validity period; it panics
/// on a day that does not exist, which `requires` leaves out.  Nothing is
/// claimed.
#[verifier::external_body]
fn rcgen_set_validity(params: &mut rcgen::CertificateParams, not_before: CertDate, not_after: CertDate)
    requires
        valid_date(not_before),
        valid_date(not_after),
{
    params.not_before = rcgen::date_time_ymd(not_before.year, not_before.month, not_before.day);
    params.not_after = rcgen::date_time_ymd(not_after.year, not_after.month, not_after.day);
}

/// `rcgen::SerialNumber::from_slice` as the serial number.  Nothing is
/// claimed.
#[verifier::external_body]
fn rcgen_set_serial(params: &mut rcgen::CertificateParams, serial: &[u8]) {
    params.serial_number = Some(rcgen::SerialNumber::from_slice(serial));
}

/// Marks the certificate as a CA, with a limit on the intermediate CAs
/// below it (`rcgen::IsCa::Ca` with `BasicConstraints::Constrained`).
/// Nothing is claimed.
#[verifier::external_body]
fn rcgen_set_ca(params: &mut rcgen::CertificateParams, path_len: u8) {
    params.is_ca = rcgen::IsCa::Ca(rcgen::BasicConstraints::Constrained(path_len));
}

/// A key usage of a certificate.
#[derive(Clone, Copy, Debug, PartialEq, Eq, Structural)]
pub enum KeyUse {
    DigitalSignature,
    KeyEncipherment,
    KeyCertSign,
    CrlSign,
}

/// Adds the `rcgen::KeyUsagePurpose` of the same name.  Nothing is claimed.
#[verifier::external_body]
fn rcgen_add_key_usage(params: &mut rcgen::CertificateParams, usage: KeyUse) {
    params.key_usages.push(
        match usage {
            KeyUse::DigitalSignature => rcgen::KeyUsagePurpose::DigitalSignature,
            KeyUse::KeyEncipherment => rcgen::KeyUsagePurpose::KeyEncipherment,
            KeyUse::KeyCertSign => rcgen::KeyUsagePurpose::KeyCertSign,
            KeyUse::CrlSign => rcgen::KeyUsagePurpose::CrlSign,
        },
    );
}

/// Adds `rcgen::ExtendedKeyUsagePurpose::ServerAuth`.  Nothing is claimed.
#[verifier::external_body]
fn rcgen_add_server_auth(params: &mut rcgen::CertificateParams) {
    params.extended_key_usages.push(rcgen::ExtendedKeyUsagePurpose::ServerAuth);
}

/// Asks `rcgen` for the authority key identifier extension.  Nothing is
/// claimed.
#[verifier::external_body]
fn rcgen_use_authority_key_id(params: &mut rcgen::CertificateParams) {
    params.use_authority_key_identifier_extension = true;
}

/// The key identifier `rcgen` derives for the public key of the key pair
/// read from the DER: the first 20 bytes of the SHA-256 digest of its
/// subject public key info.
pub uninterp spec fn rcgen_key_id(der: Seq<u8>) -> Seq<u8>;

/// `rcgen::KeyPair::try_from` of the key, `CertificateParams::self_signed`
/// with it, and the certificate's `key_identifier`: the contract claims that
/// the certificate's key identifier is the named identifier of the key it
/// was made for (the parameters here all keep `rcgen`'s default SHA-256
/// method).  Signing draws random numbers, so nothing else is claimed.
#[verifier::external_body]
fn rcgen_self_signed(params: rcgen::CertificateParams, key_der: &[u8]) -> (r: Result<
    (rcgen::Certificate, Vec<u8>),
    String,
>)
    ensures
        r matches Ok((_, key_id)) ==> key_id@ == rcgen_key_id(key_der@),
{
    let key_pair = rcgen::KeyPair::try_from(key_der).map_err(|err| err.to_string())?;
    let cert = params.self_signed(&key_pair).map_err(|err| err.to_string())?;
    let key_id = cert.key_identifier();
    Ok((cert, key_id))
}

/// `rcgen::KeyPair::try_from` of both keys, `CertificateParams::signed_by`,
/// and the new certificate's `key_identifier`: the contract claims that the
/// certificate's key identifier is the named identifier of the subject key
/// (the parameters here all keep `rcgen`'s default SHA-256 method).  Signing
/// draws random numbers, so nothing else is claimed.
#[verifier::external_body]
fn rcgen_signed_by(
    params: rcgen::CertificateParams,
    key_der: &[u8],
    issuer: &rcgen::Certificate,
    issuer_key_der: &[u8],
) -> (r: Result<(rcgen::Certificate, Vec<u8>), String>)
    ensures
        r matches Ok((_, key_id)) ==> key_id@ == rcgen_key_id(key_der@),
{
    let key_pair = rcgen::KeyPair::try_from(key_der).map_err(|err| err.to_string())?;
    let issuer_key = rcgen::KeyPair::try_from(issuer_key_der).map_err(|err| err.to_string())?;
    let cert = params.signed_by(&key_pair, issuer, &issuer_key).map_err(|err| err.to_string())?;
    let key_id = cert.key_identifier();
    Ok((cert, key_id))
}

/// The text begins with the PEM header of the given label.
pub open spec fn pem_begins(text: Seq<char>, label: Seq<char>) -> bool {
    let header = "-----BEGIN "@ + label + "-----"@;
    text.len() >= header.len() && text.take(header.len() as int) == header
}

/// `rcgen::Certificate::pem`: the contract claims that the text begins with
/// the `CERTIFICATE` header, as `pem::encode_config` writes it first.
#[verifier::external_body]
fn rcgen_cert_pem(cert: &rcgen::Certificate) -> (r: String)
    ensures
        pem_begins(r@, "CERTIFICATE"@),
{
    cert.pem()
}

/// What a certificate says besides its subject alternative names.
pub struct CertFields {
    pub common_name: String,
    pub organization: String,
    pub not_before: CertDate,
    pub not_after: CertDate,
    pub serial: Vec<u8>,
    /// For a CA, the number of intermediate CAs allowed below it.
    pub ca_path_len: Option<u8>,
    pub key_usages: Vec<KeyUse>,
    /// Whether the certificate may serve TLS.
    pub server_auth: bool,
}

/// The organization named in every certificate of the device.
pub open spec fn organization_name() -> Seq<char> {
    "Beechat Network Systems Ltd"@
}

/// The serial number of the root CA: derived from the key and the common
/// name, under the label `root-ca-v4`.
pub open spec fn root_ca_serial(key_der: Seq<u8>, common_name: Seq<char>) -> Seq<u8> {
    serial_of(
        sha256(
            serial_input(
                vstd::utf8::encode_utf8("root-ca-v4"@),
                key_der,
                seq![vstd::utf8::encode_utf8(common_name)],
            ),
        ),
    )
}

/// The root CA certificate: named after the device serial, valid from
/// 2024-01-01 to 2044-01-01, a CA that may sign end certificates only, for
/// signing certificates and revocation lists.
pub open spec fn is_root_ca_fields(f: CertFields, key_der: Seq<u8>, device_serial: Option<Seq<char>>) -> bool {
    &&& f.common_name@ == root_ca_name(device_serial)
    &&& f.organization@ == organization_name()
    &&& f.not_before == (CertDate { year: 2024, month: 1, day: 1 })
    &&& f.not_after == (CertDate { year: 2044, month: 1, day: 1 })
    &&& f.serial@ == root_ca_serial(key_der, f.common_name@)
    &&& f.ca_path_len == Some(0u8)
    &&& f.key_usages@ == seq![KeyUse::KeyCertSign, KeyUse::CrlSign]
    &&& !f.server_auth
}

/// The UTF-8 bytes of a string.
fn utf8_bytes(s: &str) -> (r: Vec<u8>)
    ensures
        r@ == vstd::utf8::encode_utf8(s@),
{
    chars_to_bytes(&str_chars(s))
}

/// What the root CA certificate for a key says.
pub fn root_ca_fields(key_der: &[u8], device_serial: Option<&str>) -> (f: CertFields)
    ensures
        is_root_ca_fields(f, key_der@, opt_str(device_serial)),
{
    let common_name = root_ca_common_name(device_serial);
    let mut context: Vec<Vec<u8>> = Vec::new();
    context.push(utf8_bytes(common_name.as_str()));
    let serial = derived_serial_number("root-ca-v4", key_der, &context);
    proof {
        reveal_strlit("root-ca-v4");
        assert(context@.map_values(|p: Vec<u8>| p@) =~= seq![
            vstd::utf8::encode_utf8(common_name@),
        ]);
    }
    let mut key_usages: Vec<KeyUse> = Vec::new();
    key_usages.push(KeyUse::KeyCertSign);
    key_usages.push(KeyUse::CrlSign);
    assert(key_usages@ =~= seq![KeyUse::KeyCertSign, KeyUse::CrlSign]);
    CertFields {
        common_name,
        organization: "Beechat Network Systems Ltd".to_owned(),
        not_before: CertDate { year: 2024, month: 1, day: 1 },
        not_after: CertDate { year: 2044, month: 1, day: 1 },
        serial,
        ca_path_len: Some(0),
        key_usages,
        server_auth: false,
    }
}

/// The `Debug` texts of the subject alternative names, joined by `|`.
pub open spec fn joined_labels(labels: Seq<Seq<char>>) -> Seq<char>
    decreases labels.len(),
{
    if labels.len() == 0 {
        Seq::empty()
    } else if labels.len() == 1 {
        labels[0]
    } else {
        joined_labels(labels.drop_last()) + "|"@ + labels.last()
    }
}

/// Joins texts with `|` between them.
fn join_labels(labels: &Vec<String>) -> (r: String)
    ensures
        r@ == joined_labels(strings_view(labels@)),
{
    let ghost all = strings_view(labels@);
    let mut out: Vec<char> = Vec::new();
    let mut i: usize = 0;
    while i < labels.len()
        invariant
            i <= labels.len(),
            all == strings_view(labels@),
            out@ == joined_labels(all.take(i as int)),
        decreases labels.len() - i,
    {
        if i > 0 {
            extend_str(&mut out, "|");
        }
        extend_str(&mut out, labels[i].as_str());
        proof {
            reveal_strlit("|");
            let t = all.take(i + 1);
            assert(t.drop_last() =~= all.take(i as int));
            assert(t.last() == labels@[i as int]@);
            if i == 0 {
                assert(out@ =~= t[0]);
            }
        }
        i += 1;
    }
    assert(all.take(labels.len() as int) =~= all);
    chars_to_string(&out)
}

/// The serial number of a service certificate: derived from its key, its
/// common name and the text of its alternative names, under its label.
pub open spec fn service_serial(
    label: Seq<char>,
    key_der: Seq<u8>,
    common_name: Seq<char>,
    san_labels: Seq<Seq<char>>,
) -> Seq<u8> {
    serial_of(
        sha256(
            serial_input(
                vstd::utf8::encode_utf8(label),
                key_der,
                seq![
                    vstd::utf8::encode_utf8(common_name),
                    vstd::utf8::encode_utf8(joined_labels(san_labels)),
                ],
            ),
        ),
    )
}

/// A service certificate: valid from 2024-01-01 to 2034-01-01, not a CA,
/// for signatures and key encipherment in TLS servers.
pub open spec fn is_service_fields(
    f: CertFields,
    label: Seq<char>,
    key_der: Seq<u8>,
    common_name: Seq<char>,
    san_labels: Seq<Seq<char>>,
) -> bool {
    &&& f.common_name@ == common_name
    &&& f.organization@ == organization_name()
    &&& f.not_before == (CertDate { year: 2024, month: 1, day: 1 })
    &&& f.not_after == (CertDate { year: 2034, month: 1, day: 1 })
    &&& f.serial@ == service_serial(label, key_der, common_name, san_labels)
    &&& f.ca_path_len is None
    &&& f.key_usages@ == seq![KeyUse::DigitalSignature, KeyUse::KeyEncipherment]
    &&& f.server_auth
}

/// What a service certificate says, given the text of its alternative
/// names.
pub fn service_cert_fields(
    serial_label: &str,
    common_name: &str,
    key_der: &[u8],
    san_labels: &Vec<String>,
) -> (f: CertFields)
    ensures
        is_service_fields(f, serial_label@, key_der@, common_name@, strings_view(san_labels@)),
{
    let joined = join_labels(san_labels);
    let mut context: Vec<Vec<u8>> = Vec::new();
    context.push(utf8_bytes(common_name));
    context.push(utf8_bytes(joined.as_str()));
    let serial = derived_serial_number(serial_label, key_der, &context);
    assert(context@.map_values(|p: Vec<u8>| p@) =~= seq![
        vstd::utf8::encode_utf8(common_name@),
        vstd::utf8::encode_utf8(joined@),
    ]);
    let mut key_usages: Vec<KeyUse> = Vec::new();
    key_usages.push(KeyUse::DigitalSignature);
    key_usages.push(KeyUse::KeyEncipherment);
    assert(key_usages@ =~= seq![KeyUse::DigitalSignature, KeyUse::KeyEncipherment]);
    CertFields {
        common_name: common_name.to_owned(),
        organization: "Beechat Network Systems Ltd".to_owned(),
        not_before: CertDate { year: 2024, month: 1, day: 1 },
        not_after: CertDate { year: 2034, month: 1, day: 1 },
        serial,
        ca_path_len: None,
        key_usages,
        server_auth: true,
    }
}

/// Hands every field to the certificate parameters.
fn apply_fields(params: &mut rcgen::CertificateParams, f: &CertFields)
    requires
        valid_date(f.not_before),
        valid_date(f.not_after),
{
    rcgen_set_subject(params, f.common_name.as_str(), f.organization.as_str());
    rcgen_set_validity(params, f.not_before, f.not_after);
    rcgen_set_serial(params, f.serial.as_slice());
    match f.ca_path_len {
        Some(n) => rcgen_set_ca(params, n),
        None => {},
    }
    let mut i: usize = 0;
    while i < f.key_usages.len()
        invariant
            i <= f.key_usages.len(),
        decreases f.key_usages.len() - i,
    {
        rcgen_add_key_usage(params, f.key_usages[i]);
        i += 1;
    }
    if f.server_auth {
        rcgen_add_server_auth(params);
    }
    rcgen_use_authority_key_id(params);
}


/// The text begins with the given prefix.
pub open spec fn begins_with(text: Seq<char>, prefix: Seq<char>) -> bool {
    text.len() >= prefix.len() && text.take(prefix.len() as int) == prefix
}

/// An error message: what was being done, a colon, and the cause.
fn with_context(context: &str, cause: String) -> (r: String)
    ensures
        r@ == context@ + ": "@ + cause@,
{
    let mut out: Vec<char> = Vec::new();
    extend_str(&mut out, context);
    extend_str(&mut out, ": ");
    extend_str(&mut out, cause.as_str());
    chars_to_string(&out)
}

/// The root CA certificate in PEM and the key it was made with.
pub struct RootCaMaterial {
    pub cert_pem: String,
    pub key_der: Vec<u8>,
}

/// The root CA's certificate and the key it was made with, which sign
/// service certificates.
pub struct RootCaSigner {
    cert: rcgen::Certificate,
    key_der: Vec<u8>,
}

/// A root CA, ready to sign service certificates.
pub struct RootCaArtifacts {
    pub signer: RootCaSigner,
    pub material: RootCaMaterial,
    /// What the certificate says.
    pub fields: CertFields,
    /// The key identifier of the certificate's public key.
    pub key_id: Vec<u8>,
}

/// Makes the root CA certificate for a key: its fields are those of
/// `root_ca_fields`, and a key that `rcgen` does not accept is an error.
pub fn generate_root_ca_artifacts(key_der: &[u8], device_serial: Option<&str>) -> (r: Result<
    RootCaArtifacts,
    String,
>)
    ensures
        r matches Ok(a) ==> {
            &&& a.material.key_der@ == key_der@
            &&& a.key_id@ == rcgen_key_id(key_der@)
            &&& is_root_ca_fields(a.fields, key_der@, opt_str(device_serial))
            &&& pem_begins(a.material.cert_pem@, "CERTIFICATE"@)
        },
        !rcgen_key_accepted(key_der@) ==> (r matches Err(e) && begins_with(
            e@,
            "load local root CA key: "@,
        )),
{
    match rcgen_key_pem(key_der) {
        Ok(_) => {},
        Err(e) => {
            let msg = with_context("load local root CA key", e);
            proof {
                reveal_strlit("load local root CA key");
                reveal_strlit(": ");
                reveal_strlit("load local root CA key: ");
                assert(msg@.take(24) =~= "load local root CA key: "@);
            }
            return Err(msg);
        },
    }
    let fields = root_ca_fields(key_der, device_serial);
    let mut params = match rcgen_params(Vec::new()) {
        Ok((p, _)) => p,
        Err(e) => return Err(with_context("generate local root CA certificate", e)),
    };
    apply_fields(&mut params, &fields);
    let (cert, key_id) = match rcgen_self_signed(params, key_der) {
        Ok(made) => made,
        Err(e) => return Err(with_context("generate local root CA certificate", e)),
    };
    let cert_pem = rcgen_cert_pem(&cert);
    Ok(
        RootCaArtifacts {
            signer: RootCaSigner { cert, key_der: vstd::slice::slice_to_vec(key_der) },
            material: RootCaMaterial { cert_pem, key_der: vstd::slice::slice_to_vec(key_der) },
            fields,
            key_id,
        },
    )
}

/// The root CA key that a run uses: the stored one when it is there, not
/// empty and not the old key derived from the seed phrase, else the fresh
/// one.
pub open spec fn chosen_root_ca_key(stored: Option<Seq<u8>>, seed_phrase: Seq<char>, fresh: Seq<u8>) -> Seq<u8> {
    match stored {
        Some(k) => if k.len() > 0 && seeded_key_der(seed_phrase) != Some(k) {
            k
        } else {
            fresh
        },
        None => fresh,
    }
}

/// The view of an optional byte slice.
pub open spec fn opt_bytes(o: Option<&[u8]>) -> Option<Seq<u8>> {
    match o {
        Some(b) => Some(b@),
        None => None,
    }
}

/// Picks the root CA key: the stored key unless it is missing, empty or the
/// old seed-derived key, in which case the freshly generated one.
pub fn root_ca_key_for(stored: Option<&[u8]>, seed_phrase: &str, fresh_key: &[u8]) -> (r: Vec<u8>)
    ensures
        r@ == chosen_root_ca_key(opt_bytes(stored), seed_phrase@, fresh_key@),
{
    match stored {
        Some(k) => {
            if crate::gateway::tls::stored_key_usable(
                k,
                crate::gateway::tls::is_legacy_root_ca_key_der(k, seed_phrase),
            ) {
                vstd::slice::slice_to_vec(k)
            } else {
                vstd::slice::slice_to_vec(fresh_key)
            }
        },
        None => vstd::slice::slice_to_vec(fresh_key),
    }
}

/// Loads the root CA from the stored key, or makes it with the fresh key
/// when the stored one cannot be used.
pub fn load_or_create_root_ca_artifacts(
    stored: Option<&[u8]>,
    seed_phrase: &str,
    fresh_key: &[u8],
    device_serial: Option<&str>,
) -> (r: Result<RootCaArtifacts, String>)
    ensures
        r matches Ok(a) ==> {
            &&& a.material.key_der@ == chosen_root_ca_key(
                opt_bytes(stored),
                seed_phrase@,
                fresh_key@,
            )
            &&& a.key_id@ == rcgen_key_id(a.material.key_der@)
            &&& is_root_ca_fields(a.fields, a.material.key_der@, opt_str(device_serial))
            &&& pem_begins(a.material.cert_pem@, "CERTIFICATE"@)
        },
        !rcgen_key_accepted(chosen_root_ca_key(opt_bytes(stored), seed_phrase@, fresh_key@))
            ==> r is Err,
{
    let key_der = root_ca_key_for(stored, seed_phrase, fresh_key);
    generate_root_ca_artifacts(key_der.as_slice(), device_serial)
}

/// A stored root CA key is kept from one run to the next: the key that a
/// run uses is the key that the next run, given what the first one wrote,
/// uses again, whatever fresh key either run had at hand, provided that the
/// first run's fresh key is neither empty nor the seed-derived key.
pub proof fn lemma_root_ca_key_kept(
    stored: Option<Seq<u8>>,
    seed_phrase: Seq<char>,
    fresh: Seq<u8>,
    next_fresh: Seq<u8>,
)
    requires
        fresh.len() > 0,
        seeded_key_der(seed_phrase) != Some(fresh),
    ensures
        chosen_root_ca_key(
            Some(chosen_root_ca_key(stored, seed_phrase, fresh)),
            seed_phrase,
            next_fresh,
        ) == chosen_root_ca_key(stored, seed_phrase, fresh),
        (stored matches Some(k) && k.len() > 0 && seeded_key_der(seed_phrase) != Some(k))
            ==> chosen_root_ca_key(stored, seed_phrase, fresh) == stored->0,
{
}


/// The PKCS#8 DER of the P-256 key derived from a seed phrase.
pub fn deterministic_p256_key_der(seed_phrase: &str) -> (r: Result<Vec<u8>, String>)
    ensures
        match r {
            Ok(d) => seeded_key_der(seed_phrase@) == Some(d@),
            Err(_) => seeded_key_der(seed_phrase@) is None,
        },
{
    let material = deterministic_p256_key_material(seed_phrase)?;
    match p256_pkcs8(&material) {
        Some(der) => Ok(der),
        None => Err("encode deterministic P-256 key".to_owned()),
    }
}

/// A service's key: its PKCS#8 DER, accepted by `rcgen`, and the PEM text
/// of the key pair read from it, which is what is written to disk.
pub struct ServiceKey {
    key_der: Vec<u8>,
    key_pem: String,
}

impl ServiceKey {
    /// The PEM is the one `rcgen` writes for the DER.
    #[verifier::type_invariant]
    spec fn pem_of_der(self) -> bool {
        &&& self.key_pem@ == rcgen_key_pem_text(self.key_der@)
        &&& pem_begins(self.key_pem@, "PRIVATE KEY"@)
    }

    /// The PEM text of the key.
    pub closed spec fn pem(&self) -> Seq<char> {
        self.key_pem@
    }
}

impl View for ServiceKey {
    type V = Seq<u8>;

    closed spec fn view(&self) -> Seq<u8> {
        self.key_der@
    }
}

/// The PEM text of a plugin's key, when its key can be derived.
pub open spec fn plugin_key_pem(
    seed_phrase: Seq<char>,
    device_identity: Seq<char>,
    plugin_id: Seq<char>,
) -> Option<Seq<char>> {
    match seeded_key_der(plugin_key_seed(seed_phrase, device_identity, plugin_id)) {
        Some(d) => Some(rcgen_key_pem_text(d)),
        None => None,
    }
}

/// The seed of the gateway's TLS key.
pub open spec fn gateway_key_seed(seed_phrase: Seq<char>, device_identity: Seq<char>) -> Seq<char> {
    seed_phrase + "|gateway-tls|"@ + device_identity
}

/// The seed of a plugin's TLS key.
pub open spec fn plugin_key_seed(
    seed_phrase: Seq<char>,
    device_identity: Seq<char>,
    plugin_id: Seq<char>,
) -> Seq<char> {
    seed_phrase + "|plugin-tls|"@ + device_identity + "|"@ + plugin_id
}

/// The key derived from a seed, read as a key pair.
fn seeded_service_key(seed: &Vec<char>, what: &str) -> (r: Result<ServiceKey, String>)
    ensures
        r matches Ok(k) ==> seeded_key_der(seed@) == Some(k@) && k.pem() == rcgen_key_pem_text(k@),
        seeded_key_der(seed@) is None ==> r is Err,
{
    let seed_text = chars_to_string(seed);
    let der = match deterministic_p256_key_der(seed_text.as_str()) {
        Ok(d) => d,
        Err(e) => return Err(e),
    };
    let mut context: Vec<char> = Vec::new();
    extend_str(&mut context, "load deterministic ");
    extend_str(&mut context, what);
    extend_str(&mut context, " TLS key");
    let context = chars_to_string(&context);
    match rcgen_key_pem(der.as_slice()) {
        Ok(key_pem) => Ok(ServiceKey { key_der: der, key_pem }),
        Err(e) => Err(with_context(context.as_str(), e)),
    }
}

/// The gateway's TLS key, derived from the seed phrase and the device
/// identity alone, so that every run makes the same key.
pub fn deterministic_gateway_tls_key_pair(seed_phrase: &str, device_identity: &str) -> (r: Result<
    ServiceKey,
    String,
>)
    ensures
        r matches Ok(k) ==> seeded_key_der(gateway_key_seed(seed_phrase@, device_identity@))
            == Some(k@) && k.pem() == rcgen_key_pem_text(k@),
        seeded_key_der(gateway_key_seed(seed_phrase@, device_identity@)) is None ==> r is Err,
{
    let mut seed: Vec<char> = Vec::new();
    extend_str(&mut seed, seed_phrase);
    extend_str(&mut seed, "|gateway-tls|");
    extend_str(&mut seed, device_identity);
    seeded_service_key(&seed, "gateway")
}

/// A plugin's TLS key, derived from the seed phrase, the device identity
/// and the plugin's name alone, so that every run makes the same key.
pub fn deterministic_plugin_tls_key_pair(
    seed_phrase: &str,
    device_identity: &str,
    plugin_id: &str,
) -> (r: Result<ServiceKey, String>)
    ensures
        r matches Ok(k) ==> seeded_key_der(
            plugin_key_seed(seed_phrase@, device_identity@, plugin_id@),
        ) == Some(k@) && plugin_key_pem(seed_phrase@, device_identity@, plugin_id@) == Some(
            k.pem(),
        ),
        seeded_key_der(plugin_key_seed(seed_phrase@, device_identity@, plugin_id@)) is None
            ==> r is Err,
{
    let mut seed: Vec<char> = Vec::new();
    extend_str(&mut seed, seed_phrase);
    extend_str(&mut seed, "|plugin-tls|");
    extend_str(&mut seed, device_identity);
    extend_str(&mut seed, "|");
    extend_str(&mut seed, plugin_id);
    seeded_service_key(&seed, "plugin")
}

/// A service certificate in PEM, its key in PEM, and what the certificate
/// says.
pub struct GatewayTlsMaterial {
    pub cert_pem: String,
    pub key_pem: String,
    pub fields: CertFields,
    /// The key identifier of the certificate's public key.
    pub key_id: Vec<u8>,
}

/// Makes a service certificate for the key, signed by the root CA, naming
/// the service and the addresses it is reached at.
pub fn generate_service_tls_material(
    root_ca: &RootCaArtifacts,
    serial_label: &str,
    common_name: &str,
    key: ServiceKey,
    hostname: Option<&str>,
) -> (r: Result<GatewayTlsMaterial, String>)
    ensures
        r matches Ok(m) ==> {
            &&& is_service_fields(
                m.fields,
                serial_label@,
                key@,
                common_name@,
                rcgen_san_labels(alt_names(opt_str(hostname))),
            )
            &&& m.key_id@ == rcgen_key_id(key@)
            &&& m.key_pem@ == key.pem()
            &&& m.key_pem@ == rcgen_key_pem_text(key@)
            &&& pem_begins(m.cert_pem@, "CERTIFICATE"@)
            &&& pem_begins(m.key_pem@, "PRIVATE KEY"@)
        },
        (exists|i: int|
            0 <= i < alt_names(opt_str(hostname)).len() && !ascii_text(
                #[trigger] alt_names(opt_str(hostname))[i],
            )) ==> (r matches Err(e) && begins_with(e@, "build gateway TLS SANs: "@)),
{
    proof {
        use_type_invariant(&key);
    }
    let names = service_subject_alt_names(hostname);
    let ghost name_views = strings_view(names@);
    assert(name_views == alt_names(opt_str(hostname)));
    let (mut params, labels) = match rcgen_params(names) {
        Ok(built) => built,
        Err(e) => {
            let msg = with_context("build gateway TLS SANs", e);
            proof {
                reveal_strlit("build gateway TLS SANs");
                reveal_strlit(": ");
                reveal_strlit("build gateway TLS SANs: ");
                assert(msg@.take(24) =~= "build gateway TLS SANs: "@);
            }
            return Err(msg);
        },
    };
    let fields = service_cert_fields(serial_label, common_name, key.key_der.as_slice(), &labels);
    apply_fields(&mut params, &fields);
    let (cert, key_id) = match rcgen_signed_by(
        params,
        key.key_der.as_slice(),
        &root_ca.signer.cert,
        root_ca.signer.key_der.as_slice(),
    ) {
        Ok(made) => made,
        Err(e) => return Err(with_context("generate gateway TLS certificate", e)),
    };
    let cert_pem = rcgen_cert_pem(&cert);
    Ok(GatewayTlsMaterial { cert_pem, key_pem: key.key_pem, fields, key_id })
}

} // verus!
