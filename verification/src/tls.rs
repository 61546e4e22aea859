//! HTTPS material for a session: a certificate chain and private key read
//! from PEM text or generated on the spot, the SHA-256 fingerprint by which
//! a client pins the host's certificate, and the check of that pin.

use vstd::prelude::*;
use std::sync::Arc;
use sha2::Digest;
use crate::text::{chars_of, push_char};

verus! {

/// The common name of a generated certificate.
pub const GENERATED_COMMON_NAME: &'static str = "drop self-signed";

/// What can go wrong with HTTPS material.
#[derive(Debug, PartialEq, Eq)]
pub enum TlsError {
    /// The certificate PEM text holds a malformed section.
    CertificatePem,
    /// The certificate PEM text holds no certificate.
    NoCertificates,
    /// The first PKCS#8 key section is malformed.
    Pkcs8Key,
    /// The first RSA (PKCS#1) key section is malformed.
    RsaKey,
    /// The first SEC1 key section is malformed.
    Sec1Key,
    /// The key PEM text holds no key of a supported kind.
    NoPrivateKey,
    /// The parameters of a generated certificate were refused.
    CertificateParams,
    /// The host name could not be written into the certificate.
    SanName,
    /// No key pair could be generated.
    KeyGeneration,
    /// The generated certificate could not be signed.
    SelfSign,
    /// The certificate and key were refused for a server configuration.
    ServerConfig,
    /// A pinned fingerprint must not be empty.
    EmptyFingerprint,
    /// The server's certificate does not have the pinned fingerprint.
    FingerprintMismatch { expected: String, actual: String },
}

impl TlsError {
    /// The message shown to the user for this error.
    pub fn message(&self) -> (s: String)
        ensures
            match self {
                TlsError::CertificatePem => s@ == "Failed to parse TLS certificate PEM"@,
                TlsError::NoCertificates => s@
                    == "TLS certificate file did not contain any certificates"@,
                TlsError::Pkcs8Key => s@ == "Failed to parse PKCS#8 private key"@,
                TlsError::RsaKey => s@ == "Failed to parse RSA private key"@,
                TlsError::Sec1Key => s@ == "Failed to parse SEC1 private key"@,
                TlsError::NoPrivateKey => s@
                    == "TLS private key file did not contain a supported key"@,
                TlsError::CertificateParams => s@
                    == "Failed to initialize self-signed certificate parameters"@,
                TlsError::SanName => s@ == "Failed to encode mDNS hostname into certificate SAN"@,
                TlsError::KeyGeneration => s@ == "Failed to generate self-signed private key"@,
                TlsError::SelfSign => s@ == "Failed to generate self-signed certificate"@,
                TlsError::ServerConfig => s@ == "Failed to build Rustls server config"@,
                TlsError::EmptyFingerprint => s@ == "Expected TLS fingerprint cannot be empty"@,
                TlsError::FingerprintMismatch { expected, actual } => s@
                    == "Server certificate fingerprint mismatch (expected "@ + expected@ + ", got "@
                    + actual@ + ")"@,
            },
    {
        match self {
            TlsError::CertificatePem => String::from_str("Failed to parse TLS certificate PEM"),
            TlsError::NoCertificates => String::from_str(
                "TLS certificate file did not contain any certificates",
            ),
            TlsError::Pkcs8Key => String::from_str("Failed to parse PKCS#8 private key"),
            TlsError::RsaKey => String::from_str("Failed to parse RSA private key"),
            TlsError::Sec1Key => String::from_str("Failed to parse SEC1 private key"),
            TlsError::NoPrivateKey => String::from_str(
                "TLS private key file did not contain a supported key",
            ),
            TlsError::CertificateParams => String::from_str(
                "Failed to initialize self-signed certificate parameters",
            ),
            TlsError::SanName => String::from_str(
                "Failed to encode mDNS hostname into certificate SAN",
            ),
            TlsError::KeyGeneration => String::from_str("Failed to generate self-signed private key"),
            TlsError::SelfSign => String::from_str("Failed to generate self-signed certificate"),
            TlsError::ServerConfig => String::from_str("Failed to build Rustls server config"),
            TlsError::EmptyFingerprint => String::from_str(
                "Expected TLS fingerprint cannot be empty",
            ),
            TlsError::FingerprintMismatch { expected, actual } => {
                let mut s = String::from_str("Server certificate fingerprint mismatch (expected ");
                s.append(expected.as_str());
                s.append(", got ");
                s.append(actual.as_str());
                s.append(")");
                s
            },
        }
    }
}

/// The lowercase hexadecimal digit of `n` (below 16).
pub open spec fn hex_digit(n: nat) -> char {
    if n < 10 {
        (48 + n) as char
    } else {
        (87 + n) as char
    }
}

/// `bytes` written in lowercase hexadecimal, two digits per byte.
pub open spec fn hex_text(bytes: Seq<u8>) -> Seq<char>
    decreases bytes.len(),
{
    if bytes.len() == 0 {
        Seq::empty()
    } else {
        seq![hex_digit((bytes[0] / 16) as nat), hex_digit((bytes[0] % 16) as nat)] + hex_text(
            bytes.drop_first(),
        )
    }
}

/// The SHA-256 digest of `data`.
pub uninterp spec fn sha256(data: Seq<u8>) -> Seq<u8>;

/// `sha2::Sha256::digest`.  Claimed: the digest is the one `sha256` names,
/// and it has 32 bytes.
#[verifier::external_body]
fn sha256_digest(data: &[u8]) -> (d: Vec<u8>)
    ensures
        d@ == sha256(data@),
        d@.len() == 32,
{
    sha2::Sha256::digest(data).to_vec()
}

/// `hex::encode`.  Claimed, as its documentation and source show: each byte
/// becomes two lowercase hexadecimal digits, high nibble first.
#[verifier::external_body]
fn hex_encode(bytes: &[u8]) -> (s: String)
    ensures
        s@ == hex_text(bytes@),
{
    hex::encode(bytes)
}

/// The fingerprint of a DER-encoded certificate: its SHA-256 digest in
/// lowercase hexadecimal.
pub fn fingerprint_hex(cert_der: &[u8]) -> (s: String)
    ensures
        s@ == hex_text(sha256(cert_der@)),
        sha256(cert_der@).len() == 32,
{
    let digest = sha256_digest(cert_der);
    hex_encode(digest.as_slice())
}

/// Whether `c` may stand in a host name put into a certificate.
pub open spec fn san_char(c: char) -> bool {
    ('0' <= c && c <= '9') || ('a' <= c && c <= 'z') || ('A' <= c && c <= 'Z') || c == '-' || c
        == '.'
}

/// `s` without its trailing dots.
pub open spec fn trim_trailing_dots(s: Seq<char>) -> Seq<char>
    decreases s.len(),
{
    if s.len() > 0 && s.last() == '.' {
        trim_trailing_dots(s.drop_last())
    } else {
        s
    }
}

/// The host name written into a certificate for an mDNS host name: without
/// its trailing dots; none when nothing is left or a character other than
/// an ASCII letter, digit, `-` or `.` remains.
pub open spec fn san_name(host_name: Seq<char>) -> Option<Seq<char>> {
    let t = trim_trailing_dots(host_name);
    if t.len() > 0 && forall|i: int| 0 <= i < t.len() ==> san_char(#[trigger] t[i]) {
        Some(t)
    } else {
        None
    }
}

/// `trim_trailing_dots` keeps a prefix.
proof fn lemma_trim_trailing_dots(s: Seq<char>, k: int)
    requires
        0 <= k <= s.len(),
        forall|i: int| k <= i < s.len() ==> s[i] == '.',
        k == 0 || s[k - 1] != '.',
    ensures
        trim_trailing_dots(s) == s.take(k),
    decreases s.len(),
{
    if s.len() > k {
        assert(s.drop_last().take(k) =~= s.take(k));
        lemma_trim_trailing_dots(s.drop_last(), k);
    } else {
        assert(s.take(k) =~= s);
    }
}

/// Turns an mDNS host name into a name for a certificate.
pub fn normalize_mdns_san_name(host_name: &str) -> (r: Option<String>)
    ensures
        match san_name(host_name@) {
            Some(n) => r matches Some(s) && s@ == n,
            None => r is None,
        },
        r matches Some(s) ==> s@.len() > 0 && forall|i: int|
            0 <= i < s@.len() ==> (('0' <= #[trigger] s@[i] && s@[i] <= '9') || ('a' <= s@[i]
                && s@[i] <= 'z') || ('A' <= s@[i] && s@[i] <= 'Z') || s@[i] == '-' || s@[i]
                == '.'),
{
    proof {
        lemma_san_name_only_dns_characters(host_name@);
    }
    let cs = chars_of(host_name);
    let mut end = cs.len();
    while end > 0 && cs[end - 1] == '.'
        invariant
            end <= cs@.len(),
            cs@ == host_name@,
            forall|i: int| end <= i < cs@.len() ==> cs@[i] == '.',
        decreases end,
    {
        end = end - 1;
    }
    proof {
        lemma_trim_trailing_dots(cs@, end as int);
    }
    let ghost t = cs@.take(end as int);
    if end == 0 {
        return None;
    }
    let mut out = String::new();
    let mut i: usize = 0;
    while i < end
        invariant
            i <= end <= cs@.len(),
            cs@ == host_name@,
            t == cs@.take(end as int),
            trim_trailing_dots(host_name@) == t,
            out@ == t.take(i as int),
            forall|k: int| 0 <= k < i ==> san_char(#[trigger] t[k]),
        decreases end - i,
    {
        let c = cs[i];
        let ok = ('0' <= c && c <= '9') || ('a' <= c && c <= 'z') || ('A' <= c && c <= 'Z') || c
            == '-' || c == '.';
        if !ok {
            assert(!san_char(t[i as int]));
            return None;
        }
        push_char(&mut out, c);
        i = i + 1;
        assert(out@ =~= t.take(i as int));
    }
    assert(t.take(end as int) =~= t);
    Some(out)
}

/// `s` with its ASCII capitals turned into small letters.
pub open spec fn ascii_lowercase(s: Seq<char>) -> Seq<char> {
    s.map_values(|c: char| if 'A' <= c && c <= 'Z' { ((c as u32) + 32) as char } else { c })
}

/// Turns the ASCII capitals of `s` into small letters.
fn to_ascii_lower(s: &str) -> (r: String)
    ensures
        r@ == ascii_lowercase(s@),
{
    let cs = chars_of(s);
    let mut out = String::new();
    let mut i: usize = 0;
    while i < cs.len()
        invariant
            cs@ == s@,
            i <= cs@.len(),
            out@ == ascii_lowercase(s@.take(i as int)),
        decreases cs@.len() - i,
    {
        let c = cs[i];
        if 'A' <= c && c <= 'Z' {
            let b = (c as u8) + 32;
            push_char(&mut out, b as char);
        } else {
            push_char(&mut out, c);
        }
        i = i + 1;
        assert(out@ =~= ascii_lowercase(s@.take(i as int)));
    }
    assert(s@.take(cs@.len() as int) =~= s@);
    out
}

/// Checks a server's certificate against a pinned fingerprint.
#[derive(Debug)]
pub struct FingerprintVerifier {
    expected_fingerprint: String,
}

impl FingerprintVerifier {
    /// The pinned fingerprint, in lowercase.
    pub closed spec fn expected(&self) -> Seq<char> {
        self.expected_fingerprint@
    }

    /// A verifier pinned to `expected_fingerprint`, compared in lowercase.
    pub fn new(expected_fingerprint: &str) -> (res: Result<Self, TlsError>)
        ensures
            expected_fingerprint@.len() == 0 ==> res == Err::<Self, TlsError>(
                TlsError::EmptyFingerprint,
            ),
            expected_fingerprint@.len() > 0 ==> (res matches Ok(v) && v.expected()
                == ascii_lowercase(expected_fingerprint@)),
    {
        if expected_fingerprint.is_empty() {
            return Err(TlsError::EmptyFingerprint);
        }
        Ok(FingerprintVerifier { expected_fingerprint: to_ascii_lower(expected_fingerprint) })
    }

    /// Accepts the DER-encoded certificate `end_entity` exactly when its
    /// fingerprint is the pinned one.
    pub fn verify_fingerprint(&self, end_entity: &[u8]) -> (res: Result<(), TlsError>)
        ensures
            res is Ok <==> hex_text(sha256(end_entity@)) == self.expected(),
            res matches Err(e) ==> (e matches TlsError::FingerprintMismatch { expected, actual }
                && expected@ == self.expected() && actual@ == hex_text(sha256(end_entity@))),
    {
        let actual = fingerprint_hex(end_entity);
        if actual == self.expected_fingerprint {
            Ok(())
        } else {
            Err(
                TlsError::FingerprintMismatch {
                    expected: self.expected_fingerprint.clone(),
                    actual,
                },
            )
        }
    }
}

/// The kind of a private key.
#[derive(Debug, Clone, Copy, PartialEq, Eq, Structural)]
pub enum PrivateKeyKind {
    /// A PKCS#8 key.
    Pkcs8,
    /// An RSA key in PKCS#1 form.
    Pkcs1,
    /// An elliptic-curve key in SEC1 form.
    Sec1,
}

/// A DER-encoded private key and its kind.
#[derive(Debug)]
pub struct PrivateKey {
    pub kind: PrivateKeyKind,
    pub der: Vec<u8>,
}

/// The certificates, as DER, that `rustls_pemfile::certs` finds in `pem`
/// (in order); `None` when a section is malformed.
pub uninterp spec fn pem_certificate_list(pem: Seq<u8>) -> Option<Seq<Seq<u8>>>;

/// What `rustls_pemfile::pkcs8_private_keys` yields first for `pem`: no
/// item, an error (`Some(None)`), or a key's DER.
pub uninterp spec fn pem_first_pkcs8_key(pem: Seq<u8>) -> Option<Option<Seq<u8>>>;

/// What `rustls_pemfile::rsa_private_keys` yields first for `pem`.
pub uninterp spec fn pem_first_rsa_key(pem: Seq<u8>) -> Option<Option<Seq<u8>>>;

/// What `rustls_pemfile::ec_private_keys` yields first for `pem`.
pub uninterp spec fn pem_first_ec_key(pem: Seq<u8>) -> Option<Option<Seq<u8>>>;

/// The views of a list of byte vectors.
pub open spec fn der_views(v: Seq<Vec<u8>>) -> Seq<Seq<u8>> {
    v.map_values(|d: Vec<u8>| d@)
}

/// The view of a first-item answer.
pub open spec fn first_item_view(r: Option<Option<Vec<u8>>>) -> Option<Option<Seq<u8>>> {
    match r {
        None => None,
        Some(None) => Some(None),
        Some(Some(d)) => Some(Some(d@)),
    }
}

/// `rustls_pemfile::certs`, collected: the DER of every certificate
/// section of `pem`, or `None` at the first malformed section.  Claimed:
/// the answer is the one `pem_certificate_list` names.
#[verifier::external_body]
fn pem_certificates(pem: &[u8]) -> (r: Option<Vec<Vec<u8>>>)
    ensures
        match r {
            Some(v) => pem_certificate_list(pem@) == Some(der_views(v@)),
            None => pem_certificate_list(pem@) is None,
        },
{
    let mut reader = pem;
    rustls_pemfile::certs(&mut reader).map(|c| c.map(|d| d.to_vec())).collect::<Result<Vec<_>, _>>().ok()
}

/// The first item of `rustls_pemfile::pkcs8_private_keys`.  Claimed: it is
/// the one `pem_first_pkcs8_key` names.
#[verifier::external_body]
fn first_pkcs8_key(pem: &[u8]) -> (r: Option<Option<Vec<u8>>>)
    ensures
        first_item_view(r) == pem_first_pkcs8_key(pem@),
{
    let mut reader = pem;
    let first = rustls_pemfile::pkcs8_private_keys(&mut reader).next();
    first.map(|k| k.ok().map(|k| k.secret_pkcs8_der().to_vec()))
}

/// The first item of `rustls_pemfile::rsa_private_keys`.  Claimed: it is
/// the one `pem_first_rsa_key` names.
#[verifier::external_body]
fn first_rsa_key(pem: &[u8]) -> (r: Option<Option<Vec<u8>>>)
    ensures
        first_item_view(r) == pem_first_rsa_key(pem@),
{
    let mut reader = pem;
    let first = rustls_pemfile::rsa_private_keys(&mut reader).next();
    first.map(|k| k.ok().map(|k| k.secret_pkcs1_der().to_vec()))
}

/// The first item of `rustls_pemfile::ec_private_keys`.  Claimed: it is the
/// one `pem_first_ec_key` names.
#[verifier::external_body]
fn first_ec_key(pem: &[u8]) -> (r: Option<Option<Vec<u8>>>)
    ensures
        first_item_view(r) == pem_first_ec_key(pem@),
{
    let mut reader = pem;
    let first = rustls_pemfile::ec_private_keys(&mut reader).next();
    first.map(|k| k.ok().map(|k| k.secret_sec1_der().to_vec()))
}

/// The key read from key PEM text: the first PKCS#8 key if there is one,
/// else the first RSA key, else the first SEC1 key; the first item of the
/// first kind present decides, a malformed one being an error.
pub open spec fn key_choice(pem: Seq<u8>) -> Result<(PrivateKeyKind, Seq<u8>), TlsError> {
    match pem_first_pkcs8_key(pem) {
        Some(Some(d)) => Ok((PrivateKeyKind::Pkcs8, d)),
        Some(None) => Err(TlsError::Pkcs8Key),
        None => match pem_first_rsa_key(pem) {
            Some(Some(d)) => Ok((PrivateKeyKind::Pkcs1, d)),
            Some(None) => Err(TlsError::RsaKey),
            None => match pem_first_ec_key(pem) {
                Some(Some(d)) => Ok((PrivateKeyKind::Sec1, d)),
                Some(None) => Err(TlsError::Sec1Key),
                None => Err(TlsError::NoPrivateKey),
            },
        },
    }
}

/// Reads the private key of key PEM text.
pub fn load_private_key(key_pem: &[u8]) -> (res: Result<PrivateKey, TlsError>)
    ensures
        match key_choice(key_pem@) {
            Ok((kind, der)) => res matches Ok(k) && k.kind == kind && k.der@ == der,
            Err(e) => res == Err::<PrivateKey, TlsError>(e),
        },
{
    match first_pkcs8_key(key_pem) {
        Some(Some(der)) => return Ok(PrivateKey { kind: PrivateKeyKind::Pkcs8, der }),
        Some(None) => return Err(TlsError::Pkcs8Key),
        None => {},
    }
    match first_rsa_key(key_pem) {
        Some(Some(der)) => return Ok(PrivateKey { kind: PrivateKeyKind::Pkcs1, der }),
        Some(None) => return Err(TlsError::RsaKey),
        None => {},
    }
    match first_ec_key(key_pem) {
        Some(Some(der)) => Ok(PrivateKey { kind: PrivateKeyKind::Sec1, der }),
        Some(None) => Err(TlsError::Sec1Key),
        None => Err(TlsError::NoPrivateKey),
    }
}

#[verifier::external_type_specification]
#[verifier::external_body]
pub struct ExCertificateParams(rcgen::CertificateParams);

#[verifier::external_type_specification]
#[verifier::external_body]
pub struct ExKeyPair(rcgen::KeyPair);

#[verifier::external_type_specification]
#[verifier::external_body]
pub struct ExRcgenError(rcgen::Error);

#[verifier::external_type_specification]
#[verifier::external_body]
pub struct ExServerConfig(rustls::ServerConfig);

#[verifier::external_type_specification]
#[verifier::external_body]
pub struct ExRustlsError(rustls::Error);

/// The GeneralName tag of a DNS name in a subject alternative name.
pub const DNS_NAME_TAG: u8 = 2;

/// The GeneralName tag of an IP address in a subject alternative name.
pub const IP_ADDRESS_TAG: u8 = 7;

/// Whether every character of `s` is ASCII.
pub open spec fn is_ascii_text(s: Seq<char>) -> bool {
    forall|i: int| 0 <= i < s.len() ==> (#[trigger] s[i] as u32) < 128
}

/// The bytes of ASCII text.
pub open spec fn ascii_bytes(s: Seq<char>) -> Seq<u8> {
    s.map_values(|c: char| c as u8)
}

/// The octets (4 or 16) of the IP address that `text` denotes, as std's
/// `IpAddr` parser reads it; none when it denotes no address.
pub uninterp spec fn ip_address_octets(text: Seq<char>) -> Option<Seq<u8>>;

/// A subject alternative name made from `text` by
/// `CertificateParams::new`, as its GeneralName tag and content: an IP
/// address when the text is one, a DNS name otherwise.
pub open spec fn alt_name_of_text(text: Seq<char>) -> (u8, Seq<u8>) {
    match ip_address_octets(text) {
        Some(octets) => (IP_ADDRESS_TAG, octets),
        None => (DNS_NAME_TAG, ascii_bytes(text)),
    }
}

/// Whether `CertificateParams::new` takes `text` as a name: an IP address,
/// or ASCII text for a DNS name.
pub open spec fn alt_name_accepted(text: Seq<char>) -> bool {
    ip_address_octets(text) is Some || is_ascii_text(text)
}

/// The subject alternative names that `params` holds, in order, each as its
/// GeneralName tag and content.
pub uninterp spec fn params_alt_names(params: rcgen::CertificateParams) -> Seq<(u8, Seq<u8>)>;

/// The common name of the subject that `params` holds.
pub uninterp spec fn params_common_name(params: rcgen::CertificateParams) -> Option<Seq<char>>;

/// The subject alternative names written in the DER certificate `der`, in
/// order, each as its GeneralName tag and content (none when it has no such
/// extension).
pub uninterp spec fn certificate_alt_names(der: Seq<u8>) -> Seq<(u8, Seq<u8>)>;

/// The common name of the subject of the DER certificate `der`.
pub uninterp spec fn certificate_common_name(der: Seq<u8>) -> Option<Seq<char>>;

/// The views of a list of names.
pub open spec fn name_views(names: Seq<String>) -> Seq<Seq<char>> {
    names.map_values(|n: String| n@)
}

/// `rcgen::CertificateParams::new`.  Claimed, as its source shows: it
/// succeeds exactly when every text is an IP address or ASCII, and the
/// parameters then hold one subject alternative name per text, in order:
/// an IP address for a text that is one, a DNS name otherwise.
#[verifier::external_body]
fn certificate_params(names: Vec<String>) -> (res: Result<rcgen::CertificateParams, rcgen::Error>)
    ensures
        res is Ok <==> forall|i: int|
            0 <= i < names@.len() ==> (ip_address_octets(#[trigger] name_views(names@)[i]) is Some
                || is_ascii_text(name_views(names@)[i])),
        res matches Ok(p) ==> params_alt_names(p) == name_views(names@).map_values(
            |t: Seq<char>|
                match ip_address_octets(t) {
                    Some(octets) => (IP_ADDRESS_TAG, octets),
                    None => (DNS_NAME_TAG, ascii_bytes(t)),
                },
        ),
{
    rcgen::CertificateParams::new(names)
}

/// Adds the DNS name `name` to the subject alternative names, through
/// rcgen's `Ia5String` conversion.  Claimed, as the source shows: it
/// succeeds exactly when `name` is ASCII, and then appends the name; the
/// common name is left alone, and on failure nothing changes.
#[verifier::external_body]
fn add_dns_name(params: &mut rcgen::CertificateParams, name: &str) -> (res: Result<(), rcgen::Error>)
    ensures
        res is Ok <==> is_ascii_text(name@),
        res is Ok ==> params_alt_names(*final(params)) == params_alt_names(*old(params)).push(
            (DNS_NAME_TAG, ascii_bytes(name@)),
        ),
        res is Err ==> params_alt_names(*final(params)) == params_alt_names(*old(params)),
        params_common_name(*final(params)) == params_common_name(*old(params)),
{
    params.subject_alt_names.push(rcgen::SanType::DnsName(name.to_string().try_into()?));
    Ok(())
}

/// `DistinguishedName::push` of the common name `cn`.  Claimed: the common
/// name becomes `cn` (an earlier one is replaced), and the subject
/// alternative names are left alone.
#[verifier::external_body]
fn set_common_name(params: &mut rcgen::CertificateParams, cn: &str)
    ensures
        params_common_name(*final(params)) == Some(cn@),
        params_alt_names(*final(params)) == params_alt_names(*old(params)),
{
    params.distinguished_name.push(rcgen::DnType::CommonName, cn);
}

/// `rcgen::KeyPair::generate`: a fresh random ECDSA P-256 key pair.
/// Nothing is claimed.
#[verifier::external_body]
fn generate_key_pair() -> Result<rcgen::KeyPair, rcgen::Error> {
    rcgen::KeyPair::generate()
}

/// The raw public key of a key pair (`KeyPair::public_key_raw`).
pub uninterp spec fn key_pair_public_key(key: rcgen::KeyPair) -> Seq<u8>;

/// The raw public key held in the subject public key info of the DER
/// certificate `der`.
pub uninterp spec fn certificate_public_key(der: Seq<u8>) -> Seq<u8>;

/// The raw public key of the key pair encoded in the PKCS#8 DER document
/// `der`.
pub uninterp spec fn pkcs8_public_key(der: Seq<u8>) -> Seq<u8>;

/// `CertificateParams::self_signed`, as DER.  Claimed, as the source's
/// serialisation shows: the certificate carries the subject alternative
/// names and the common name of `params`, and the public key of `key`,
/// which signs it.  Nothing more is claimed of it; it carries a fresh
/// signature.
#[verifier::external_body]
fn self_sign(params: &rcgen::CertificateParams, key: &rcgen::KeyPair) -> (res: Result<Vec<u8>, rcgen::Error>)
    ensures
        res matches Ok(der) ==> certificate_alt_names(der@) == params_alt_names(*params),
        res matches Ok(der) ==> certificate_common_name(der@) == params_common_name(*params),
        res matches Ok(der) ==> certificate_public_key(der@) == key_pair_public_key(*key),
{
    let cert = params.self_signed(key)?;
    Ok(cert.der().to_vec())
}

/// `KeyPair::serialize_der`: the key pair in PKCS#8 DER.  Claimed: the
/// document encodes this key pair, so its public key is the pair's.
#[verifier::external_body]
fn key_pair_der(key: &rcgen::KeyPair) -> (d: Vec<u8>)
    ensures
        pkcs8_public_key(d@) == key_pair_public_key(*key),
{
    key.serialize_der()
}

/// Whether rustls accepts the certificate chain and the private key (of
/// the given kind, as DER) for a server: the key must load and match the
/// first certificate.
pub uninterp spec fn server_config_accepts(
    chain: Seq<Seq<u8>>,
    kind: PrivateKeyKind,
    der: Seq<u8>,
) -> bool;

/// `rustls::ServerConfig::builder().with_no_client_auth().with_single_cert`
/// for the chain and key given as DER.  Claimed: it succeeds exactly when
/// `server_config_accepts` holds of them (rustls loads the key and checks it
/// against the first certificate, with the one crypto provider built here).
#[verifier::external_body]
fn server_config(cert_chain: &Vec<Vec<u8>>, key: &PrivateKey) -> (res: Result<rustls::ServerConfig, rustls::Error>)
    ensures
        res is Ok <==> server_config_accepts(der_views(cert_chain@), key.kind, key.der@),
{
    let certs: Vec<rustls::pki_types::CertificateDer<'static>> = cert_chain.iter().map(|c| c.clone().into()).collect();
    let der = key.der.clone();
    let key_der = match key.kind {
        PrivateKeyKind::Pkcs8 => rustls::pki_types::PrivateKeyDer::Pkcs8(der.into()),
        PrivateKeyKind::Pkcs1 => rustls::pki_types::PrivateKeyDer::Pkcs1(der.into()),
        PrivateKeyKind::Sec1 => rustls::pki_types::PrivateKeyDer::Sec1(der.into()),
    };
    rustls::ServerConfig::builder().with_no_client_auth().with_single_cert(certs, key_der)
}

/// The view of an optional text.
pub open spec fn opt_text(o: Option<&str>) -> Option<Seq<char>> {
    match o {
        Some(t) => Some(t@),
        None => None,
    }
}

/// The subject alternative names a generated certificate is made for:
/// `localhost`, the local address, and the mDNS host name when it turns
/// into a valid name.
pub open spec fn requested_alt_names(local_ip: Seq<char>, mdns_host_name: Option<Seq<char>>) -> Seq<
    (u8, Seq<u8>),
> {
    let base = seq![alt_name_of_text("localhost"@), alt_name_of_text(local_ip)];
    match mdns_host_name {
        Some(h) => match san_name(h) {
            Some(n) => base.push((DNS_NAME_TAG, ascii_bytes(n))),
            None => base,
        },
        None => base,
    }
}

/// The request for a generated certificate: the names `localhost` and
/// `local_ip`, the mDNS host name when it turns into a valid name, and the
/// common name `drop self-signed`.  It is refused exactly when `local_ip` is
/// neither an IP address nor ASCII text.
pub fn certificate_request(local_ip: &str, mdns_host_name: Option<&str>) -> (res: Result<
    rcgen::CertificateParams,
    TlsError,
>)
    ensures
        res is Ok <==> alt_name_accepted(local_ip@),
        res matches Err(e) ==> e == TlsError::CertificateParams,
        res matches Ok(p) ==> {
            &&& params_alt_names(p) == requested_alt_names(local_ip@, opt_text(mdns_host_name))
            &&& params_common_name(p) == Some(GENERATED_COMMON_NAME@)
        },
{
    let mut names: Vec<String> = Vec::new();
    names.push(String::from_str("localhost"));
    names.push(local_ip.to_owned());
    proof {
        reveal_strlit("localhost");
        assert(is_ascii_text("localhost"@));
        assert(name_views(names@) =~= seq!["localhost"@, local_ip@]);
    }
    let mut params = match certificate_params(names) {
        Ok(p) => p,
        Err(_) => {
            proof {
                assert(!alt_name_accepted(name_views(names@)[1]));
            }
            return Err(TlsError::CertificateParams);
        },
    };
    proof {
        assert(alt_name_accepted(name_views(names@)[1]));
        assert(params_alt_names(params) =~= seq![
            alt_name_of_text("localhost"@),
            alt_name_of_text(local_ip@),
        ]);
    }
    if let Some(host) = mdns_host_name {
        if let Some(name) = normalize_mdns_san_name(host) {
            proof {
                assert forall|i: int| 0 <= i < name@.len() implies (#[trigger] name@[i] as u32) < 128 by {
                    assert(san_char(name@[i]));
                }
            }
            if add_dns_name(&mut params, name.as_str()).is_err() {
                return Err(TlsError::SanName);
            }
        }
    }
    set_common_name(&mut params, GENERATED_COMMON_NAME);
    Ok(params)
}

/// The certificate and key a session serves HTTPS with.
pub struct HttpsConfig {
    cert_chain: Vec<Vec<u8>>,
    private_key: PrivateKey,
    fingerprint: String,
    generated: bool,
}

impl HttpsConfig {
    /// The certificate chain, as DER, leaf first.
    pub closed spec fn chain(&self) -> Seq<Seq<u8>> {
        der_views(self.cert_chain@)
    }

    /// The kind of the private key.
    pub closed spec fn key_kind(&self) -> PrivateKeyKind {
        self.private_key.kind
    }

    /// The private key, as DER.
    pub closed spec fn key_der(&self) -> Seq<u8> {
        self.private_key.der@
    }

    /// The fingerprint of the leaf certificate.
    pub closed spec fn fingerprint_view(&self) -> Seq<char> {
        self.fingerprint@
    }

    /// Whether the certificate was generated rather than loaded.
    pub closed spec fn generated(&self) -> bool {
        self.generated
    }

    /// Every configuration holds at least one certificate, and its
    /// fingerprint is that of the first.
    pub closed spec fn wf(&self) -> bool {
        &&& self.chain().len() > 0
        &&& self.fingerprint_view() == hex_text(sha256(self.chain()[0]))
        &&& sha256(self.chain()[0]).len() == 32
    }

    /// Reads a configuration from certificate PEM text and key PEM text.
    pub fn from_pem(cert_pem: &[u8], key_pem: &[u8]) -> (res: Result<Self, TlsError>)
        ensures
            match pem_certificate_list(cert_pem@) {
                None => res == Err::<Self, TlsError>(TlsError::CertificatePem),
                Some(chain) => if chain.len() == 0 {
                    res == Err::<Self, TlsError>(TlsError::NoCertificates)
                } else {
                    match key_choice(key_pem@) {
                        Err(e) => res == Err::<Self, TlsError>(e),
                        Ok((kind, der)) => res matches Ok(c) && {
                            &&& c.wf()
                            &&& c.chain() == chain
                            &&& c.fingerprint_view() == hex_text(sha256(chain[0]))
                            &&& c.key_kind() == kind
                            &&& c.key_der() == der
                            &&& !c.generated()
                        },
                    }
                },
            },
    {
        let cert_chain = match pem_certificates(cert_pem) {
            Some(c) => c,
            None => return Err(TlsError::CertificatePem),
        };
        if cert_chain.len() == 0 {
            return Err(TlsError::NoCertificates);
        }
        let private_key = match load_private_key(key_pem) {
            Ok(k) => k,
            Err(e) => return Err(e),
        };
        let fingerprint = fingerprint_hex(cert_chain[0].as_slice());
        Ok(HttpsConfig { cert_chain, private_key, fingerprint, generated: false })
    }

    /// Generates a self-signed certificate for `localhost`, the address
    /// `local_ip` and, when it turns into a valid name, the mDNS host name,
    /// with the common name `drop self-signed` and a fresh PKCS#8 key.
    pub fn generate(local_ip: &str, mdns_host_name: Option<&str>) -> (res: Result<Self, TlsError>)
        ensures
            res matches Ok(c) ==> {
                &&& c.wf()
                &&& c.chain().len() == 1
                &&& c.fingerprint_view() == hex_text(sha256(c.chain()[0]))
                &&& certificate_alt_names(c.chain()[0]) == requested_alt_names(
                    local_ip@,
                    opt_text(mdns_host_name),
                )
                &&& certificate_common_name(c.chain()[0]) == Some(GENERATED_COMMON_NAME@)
                &&& c.key_kind() == PrivateKeyKind::Pkcs8
                &&& certificate_public_key(c.chain()[0]) == pkcs8_public_key(c.key_der())
                &&& c.generated()
            },
            (res == Err::<Self, TlsError>(TlsError::CertificateParams)) <==> !alt_name_accepted(
                local_ip@,
            ),
            res matches Err(e) ==> (e == TlsError::CertificateParams || e == TlsError::KeyGeneration
                || e == TlsError::SelfSign),
    {
        let params = match certificate_request(local_ip, mdns_host_name) {
            Ok(p) => p,
            Err(e) => return Err(e),
        };
        let key_pair = match generate_key_pair() {
            Ok(k) => k,
            Err(_) => return Err(TlsError::KeyGeneration),
        };
        let cert_der = match self_sign(&params, &key_pair) {
            Ok(d) => d,
            Err(_) => return Err(TlsError::SelfSign),
        };
        let fingerprint = fingerprint_hex(cert_der.as_slice());
        let key_der = key_pair_der(&key_pair);
        let mut cert_chain: Vec<Vec<u8>> = Vec::new();
        cert_chain.push(cert_der);
        assert(der_views(cert_chain@)[0] == cert_chain@[0]@);
        Ok(
            HttpsConfig {
                cert_chain,
                private_key: PrivateKey { kind: PrivateKeyKind::Pkcs8, der: key_der },
                fingerprint,
                generated: true,
            },
        )
    }

    /// Loads the certificate and key when both PEM texts are given, and
    /// generates them otherwise.
    pub fn load_or_generate(
        local_ip: &str,
        mdns_host_name: Option<&str>,
        cert_pem: Option<&[u8]>,
        key_pem: Option<&[u8]>,
    ) -> (res: Result<Self, TlsError>)
        ensures
            res matches Ok(c) ==> c.wf() && c.fingerprint_view() == hex_text(sha256(c.chain()[0])),
            (cert_pem is Some && key_pem is Some) ==> (res matches Ok(c) ==> !c.generated()),
            !(cert_pem is Some && key_pem is Some) ==> (res matches Ok(c) ==> {
                &&& c.generated()
                &&& c.chain().len() == 1
                &&& certificate_alt_names(c.chain()[0]) == requested_alt_names(
                    local_ip@,
                    opt_text(mdns_host_name),
                )
                &&& certificate_common_name(c.chain()[0]) == Some(GENERATED_COMMON_NAME@)
                &&& c.key_kind() == PrivateKeyKind::Pkcs8
                &&& certificate_public_key(c.chain()[0]) == pkcs8_public_key(c.key_der())
            }),
            !(cert_pem is Some && key_pem is Some) ==> ((res == Err::<Self, TlsError>(
                TlsError::CertificateParams,
            )) <==> !alt_name_accepted(local_ip@)),
            (cert_pem is Some && key_pem is Some) ==> match pem_certificate_list(cert_pem->0@) {
                None => res == Err::<Self, TlsError>(TlsError::CertificatePem),
                Some(chain) => if chain.len() == 0 {
                    res == Err::<Self, TlsError>(TlsError::NoCertificates)
                } else {
                    match key_choice(key_pem->0@) {
                        Err(e) => res == Err::<Self, TlsError>(e),
                        Ok((kind, der)) => res matches Ok(c) && {
                            &&& c.chain() == chain
                            &&& c.key_kind() == kind
                            &&& c.key_der() == der
                        },
                    }
                },
            },
    {
        match (cert_pem, key_pem) {
            (Some(c), Some(k)) => Self::from_pem(c, k),
            _ => Self::generate(local_ip, mdns_host_name),
        }
    }

    /// A rustls server configuration serving this certificate and key.
    pub fn rustls_server_config(&self) -> (res: Result<Arc<rustls::ServerConfig>, TlsError>)
        ensures
            res is Ok <==> server_config_accepts(self.chain(), self.key_kind(), self.key_der()),
            res matches Err(e) ==> e == TlsError::ServerConfig,
    {
        match server_config(&self.cert_chain, &self.private_key) {
            Ok(c) => Ok(Arc::new(c)),
            Err(_) => Err(TlsError::ServerConfig),
        }
    }

    /// The fingerprint of the leaf certificate, which clients pin.
    pub fn fingerprint(&self) -> (s: &str)
        ensures
            s@ == self.fingerprint_view(),
    {
        self.fingerprint.as_str()
    }

    /// Whether the certificate was generated rather than loaded.
    pub fn is_generated(&self) -> (g: bool)
        ensures
            g == self.generated(),
    {
        self.generated
    }
}

/// Hexadecimal text has two digits per byte and no capitals.
proof fn lemma_hex_text(bytes: Seq<u8>)
    ensures
        hex_text(bytes).len() == 2 * bytes.len(),
        forall|k: int| 0 <= k < hex_text(bytes).len() ==> !('A' <= #[trigger] hex_text(bytes)[k] && hex_text(bytes)[k] <= 'Z'),
    decreases bytes.len(),
{
    if bytes.len() > 0 {
        lemma_hex_text(bytes.drop_first());
        let hi = hex_digit((bytes[0] / 16) as nat);
        let lo = hex_digit((bytes[0] % 16) as nat);
        let h = hex_text(bytes);
        let t = hex_text(bytes.drop_first());
        assert(h == seq![hi, lo] + t);
        assert forall|k: int| 0 <= k < h.len() implies !('A' <= #[trigger] h[k] && h[k] <= 'Z') by {
            if k >= 2 {
                assert(h[k] == t[k - 2]);
            }
        }
    }
}

/// A client pinning the fingerprint that a configuration prints accepts
/// that configuration's leaf certificate: the fingerprint is not empty and
/// is already in lowercase.
pub proof fn lemma_pinning_own_certificate(c: &HttpsConfig)
    requires
        c.wf(),
    ensures
        c.fingerprint_view().len() > 0,
        ascii_lowercase(c.fingerprint_view()) == hex_text(sha256(c.chain()[0])),
{
    let h = hex_text(sha256(c.chain()[0]));
    lemma_hex_text(sha256(c.chain()[0]));
    assert(ascii_lowercase(h) =~= h);
}

/// The name written into a certificate for an mDNS host name is the host
/// name without its trailing dots, and it is given exactly when that is not
/// empty and holds nothing but ASCII letters, ASCII digits, `-` and `.`.
pub proof fn lemma_san_name_charset(host_name: Seq<char>, n: Seq<char>, dots: nat)
    requires
        host_name == n + Seq::new(dots, |i: int| '.'),
        n.len() == 0 || n.last() != '.',
    ensures
        san_name(host_name) is Some <==> (n.len() > 0 && forall|i: int|
            0 <= i < n.len() ==> (('0' <= #[trigger] n[i] && n[i] <= '9') || ('a' <= n[i] && n[i]
                <= 'z') || ('A' <= n[i] && n[i] <= 'Z') || n[i] == '-' || n[i] == '.')),
        san_name(host_name) matches Some(m) ==> m == n,
{
    assert forall|i: int| n.len() <= i < host_name.len() implies host_name[i] == '.' by {}
    if n.len() > 0 {
        assert(host_name[n.len() - 1] == n.last());
    }
    lemma_trim_trailing_dots(host_name, n.len() as int);
    assert(host_name.take(n.len() as int) =~= n);
}

/// Every character of a name written into a certificate is an ASCII letter,
/// an ASCII digit, `-` or `.`, and the name does not end with a dot.
pub proof fn lemma_san_name_only_dns_characters(host_name: Seq<char>)
    ensures
        san_name(host_name) matches Some(n) ==> {
            &&& n.len() > 0
            &&& n.last() != '.'
            &&& forall|i: int|
                0 <= i < n.len() ==> (('0' <= #[trigger] n[i] && n[i] <= '9') || ('a' <= n[i]
                    && n[i] <= 'z') || ('A' <= n[i] && n[i] <= 'Z') || n[i] == '-' || n[i] == '.')
        },
    decreases host_name.len(),
{
    if host_name.len() > 0 && host_name.last() == '.' {
        lemma_san_name_only_dns_characters(host_name.drop_last());
    }
}

} // verus!
