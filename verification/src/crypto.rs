//! End-to-end encryption of transfers: AES-256-GCM in the STREAM
//! construction (32-bit big-endian counter and last-block flag), key
//! generation and key encoding for the discovery record.
//!
//! The AEAD itself is the `aes-gcm` crate's, driven through the `aead`
//! crate's `StreamBE32` primitive; this module keeps the stream state (key,
//! nonce prefix, position) as plain values and proves the framing around it.

use vstd::prelude::*;
use vstd::array::*;
use aead::stream::{NewStream, StreamPrimitive};
use base64::Engine;
use rand::RngExt;
use crate::text::decimal_string;

verus! {

/// Plaintext bytes per stream chunk.
pub const CHUNK_SIZE: usize = 65536;

/// Authentication tag bytes added to every chunk.
pub const TAG_SIZE: usize = 16;

/// Bytes of an encrypted full chunk.
pub const ENCRYPTED_CHUNK_SIZE: usize = 65552;

/// Bytes of the nonce prefix sent ahead of the chunks.
pub const STREAM_NONCE_SIZE: usize = 7;

/// The largest plaintext that one AES-GCM message may hold (2^36 bytes).
pub const AEAD_PLAINTEXT_MAX: u64 = 0x10_0000_0000;

/// Size of the encrypted stream for a plaintext of `n` bytes: the nonce,
/// the plaintext, and one tag per chunk (the final chunk holds fewer than
/// `CHUNK_SIZE` bytes, possibly none).
pub open spec fn spec_encrypted_size(n: nat) -> nat {
    7 + n + (n / 65536 + 1) * 16
}

/// Size of the encrypted stream for a plaintext of `content_length` bytes.
pub fn encrypted_size(content_length: u64) -> (r: u64)
    requires
        spec_encrypted_size(content_length as nat) <= u64::MAX,
    ensures
        r == spec_encrypted_size(content_length as nat),
{
    let num_chunks = (content_length / (CHUNK_SIZE as u64)) + 1;
    (STREAM_NONCE_SIZE as u64) + content_length + (num_chunks * (TAG_SIZE as u64))
}

/// What can go wrong while encoding keys or running the stream.
#[derive(Debug, PartialEq, Eq, Structural)]
pub enum CryptoError {
    /// The encoded key is not URL-safe base64 without padding.
    KeyEncoding,
    /// The decoded key does not have 32 bytes (it has the given count).
    KeyLength(usize),
    /// Sealing an intermediate chunk failed.
    Encryption,
    /// Sealing the final chunk failed.
    FinalEncryption,
    /// Opening an intermediate chunk failed: wrong key, or altered data.
    Decryption,
    /// The final chunk is missing or did not open: a cut stream, a wrong
    /// key, or altered data.
    FinalDecryption,
}

impl CryptoError {
    /// The message shown to the user for this error.
    pub fn message(&self) -> (s: String)
        ensures
            s@ == (match self {
                CryptoError::KeyEncoding => "Failed to base64-decode encryption key"@,
                CryptoError::KeyLength(n) => "Expected 32-byte key, got "@ + crate::text::decimal(
                    *n as nat,
                ) + " bytes"@,
                CryptoError::Encryption => "Encryption failed"@,
                CryptoError::FinalEncryption => "Final encryption failed"@,
                CryptoError::Decryption => "Decryption failed — data may be corrupted or tampered"@,
                CryptoError::FinalDecryption =>
                    "Final decryption failed — data may be corrupted or tampered"@,
            }),
    {
        match self {
            CryptoError::KeyEncoding => String::from_str("Failed to base64-decode encryption key"),
            CryptoError::KeyLength(n) => {
                let mut s = String::from_str("Expected 32-byte key, got ");
                let d = decimal_string(*n as u128);
                s.append(d.as_str());
                s.append(" bytes");
                s
            },
            CryptoError::Encryption => String::from_str("Encryption failed"),
            CryptoError::FinalEncryption => String::from_str("Final encryption failed"),
            CryptoError::Decryption => String::from_str(
                "Decryption failed — data may be corrupted or tampered",
            ),
            CryptoError::FinalDecryption => String::from_str(
                "Final decryption failed — data may be corrupted or tampered",
            ),
        }
    }
}

/// The ciphertext (with its tag) of `plaintext` sealed with AES-256-GCM
/// under `key`, at stream `position` of the stream with nonce prefix
/// `nonce`, as a final or an intermediate chunk.
pub uninterp spec fn stream_seal(
    key: Seq<u8>,
    nonce: Seq<u8>,
    position: u32,
    last: bool,
    plaintext: Seq<u8>,
) -> Seq<u8>;

/// The plaintext recovered from `ciphertext` at stream `position`, or
/// `None` when its tag does not verify.
pub uninterp spec fn stream_open(
    key: Seq<u8>,
    nonce: Seq<u8>,
    position: u32,
    last: bool,
    ciphertext: Seq<u8>,
) -> Option<Seq<u8>>;

#[verifier::external_type_specification]
#[verifier::external_body]
pub struct ExAeadError(aead::Error);

#[verifier::external_type_specification]
#[verifier::external_body]
pub struct ExBase64DecodeError(base64::DecodeError);

/// `StreamPrimitive::encrypt` of `aead::stream::StreamBE32<Aes256Gcm>`:
/// seals `plaintext` with the AEAD nonce made of `nonce`, the big-endian
/// `position` and the `last` flag.  Claimed: it succeeds exactly when the
/// plaintext is at most 2^36 bytes (the limit that `aes-gcm` checks), the
/// ciphertext is the plaintext's length plus the 16-byte tag, and opening
/// it at the same key, nonce, position and flag gives the plaintext back.
#[verifier::external_body]
fn aes256gcm_stream_seal(
    key: &[u8; 32],
    nonce: &[u8; 7],
    position: u32,
    last: bool,
    plaintext: &[u8],
) -> (res: Result<Vec<u8>, aead::Error>)
    ensures
        res is Ok <==> plaintext@.len() <= AEAD_PLAINTEXT_MAX,
        res matches Ok(c) ==> c@ == stream_seal(key@, nonce@, position, last, plaintext@),
        res matches Ok(c) ==> c@.len() == plaintext@.len() + 16,
        res matches Ok(c) ==> stream_open(key@, nonce@, position, last, c@) == Some(plaintext@),
{
    let stream = aead::stream::StreamBE32::<aes_gcm::Aes256Gcm>::new(
        aes_gcm::Key::<aes_gcm::Aes256Gcm>::from_slice(key),
        aead::stream::Nonce::<aes_gcm::Aes256Gcm, aead::stream::StreamBE32<aes_gcm::Aes256Gcm>>::from_slice(nonce),
    );
    stream.encrypt(position, last, plaintext)
}

/// `StreamPrimitive::decrypt` of `aead::stream::StreamBE32<Aes256Gcm>`:
/// opens `ciphertext` at the given stream position.  Claimed: the result is
/// the one `stream_open` names, `Err` where it names `None`.
#[verifier::external_body]
fn aes256gcm_stream_open(
    key: &[u8; 32],
    nonce: &[u8; 7],
    position: u32,
    last: bool,
    ciphertext: &[u8],
) -> (res: Result<Vec<u8>, aead::Error>)
    ensures
        res matches Ok(p) ==> stream_open(key@, nonce@, position, last, ciphertext@) == Some(
            p@,
        ),
        res is Err ==> stream_open(key@, nonce@, position, last, ciphertext@) is None,
{
    let stream = aead::stream::StreamBE32::<aes_gcm::Aes256Gcm>::new(
        aes_gcm::Key::<aes_gcm::Aes256Gcm>::from_slice(key),
        aead::stream::Nonce::<aes_gcm::Aes256Gcm, aead::stream::StreamBE32<aes_gcm::Aes256Gcm>>::from_slice(nonce),
    );
    stream.decrypt(position, last, ciphertext)
}

/// `rand::rng().random()` for a byte array: `N` bytes from the thread-local
/// generator.  Nothing is claimed of the bytes.
#[verifier::external_body]
fn random_bytes<const N: usize>() -> [u8; N] {
    rand::rng().random()
}

/// The URL-safe, unpadded base64 text of `bytes`.
pub uninterp spec fn base64_url_encoding(bytes: Seq<u8>) -> Seq<char>;

/// The bytes of URL-safe, unpadded base64 `text`, or `None` when it is not
/// such text.
pub uninterp spec fn base64_url_decoding(text: Seq<char>) -> Option<Seq<u8>>;

/// `base64::engine::general_purpose::URL_SAFE_NO_PAD.encode`.  Claimed: the
/// text is the named encoding, and decoding it gives `bytes` back.
#[verifier::external_body]
fn base64_url_encode(bytes: &[u8]) -> (s: String)
    ensures
        s@ == base64_url_encoding(bytes@),
        base64_url_decoding(s@) == Some(bytes@),
{
    base64::engine::general_purpose::URL_SAFE_NO_PAD.encode(bytes)
}

/// `base64::engine::general_purpose::URL_SAFE_NO_PAD.decode`.  Claimed: the
/// result is the named decoding, `Err` where it names `None`.
#[verifier::external_body]
fn base64_url_decode(text: &str) -> (res: Result<Vec<u8>, base64::DecodeError>)
    ensures
        res matches Ok(b) ==> base64_url_decoding(text@) == Some(b@),
        res is Err ==> base64_url_decoding(text@) is None,
{
    base64::engine::general_purpose::URL_SAFE_NO_PAD.decode(text)
}

/// A fresh random 256-bit key.
pub fn generate_key() -> (key: [u8; 32])
    ensures
        key@.len() == 32,
{
    random_bytes::<32>()
}

/// The text form of a key, as carried in the discovery record.
pub fn encode_key(key: &[u8; 32]) -> (s: String)
    ensures
        s@ == base64_url_encoding(key@),
        decoded_key(s@) == Ok::<Seq<u8>, CryptoError>(key@),
{
    base64_url_encode(key.as_slice())
}

/// The key that decoded key text must hold: exactly 32 bytes.
pub open spec fn key_of_bytes(bytes: Seq<u8>) -> Result<Seq<u8>, CryptoError> {
    if bytes.len() == 32 {
        Ok(bytes)
    } else {
        Err(CryptoError::KeyLength(bytes.len() as usize))
    }
}

/// The key held by encoded key text.
pub open spec fn decoded_key(text: Seq<char>) -> Result<Seq<u8>, CryptoError> {
    match base64_url_decoding(text) {
        Some(bytes) => key_of_bytes(bytes),
        None => Err(CryptoError::KeyEncoding),
    }
}

/// Turns decoded key bytes into a key, refusing any other length than 32.
pub fn key_from_bytes(bytes: Vec<u8>) -> (res: Result<[u8; 32], CryptoError>)
    ensures
        match key_of_bytes(bytes@) {
            Ok(k) => res matches Ok(key) && key@ == k,
            Err(e) => res == Err::<[u8; 32], CryptoError>(e),
        },
{
    if bytes.len() != 32 {
        return Err(CryptoError::KeyLength(bytes.len()));
    }
    let mut key: [u8; 32] = [0u8; 32];
    let mut i: usize = 0;
    while i < 32
        invariant
            bytes@.len() == 32,
            i <= 32,
            forall|k: int| 0 <= k < i ==> key@[k] == bytes@[k],
        decreases 32 - i,
    {
        key[i] = bytes[i];
        i = i + 1;
    }
    assert(key@ =~= bytes@);
    Ok(key)
}

/// Decodes key text made by `encode_key`.
pub fn decode_key(encoded: &str) -> (res: Result<[u8; 32], CryptoError>)
    ensures
        match decoded_key(encoded@) {
            Ok(k) => res matches Ok(key) && key@ == k,
            Err(e) => res == Err::<[u8; 32], CryptoError>(e),
        },
{
    match base64_url_decode(encoded) {
        Ok(bytes) => key_from_bytes(bytes),
        Err(_) => Err(CryptoError::KeyEncoding),
    }
}


/// Encrypts a transfer chunk by chunk.  The position counts the chunks
/// sealed so far; reordered, dropped or truncated chunks then fail to open.
pub struct StreamEncryptor {
    key: [u8; 32],
    nonce_bytes: [u8; 7],
    position: u32,
}

impl StreamEncryptor {
    /// The key.
    pub closed spec fn key(&self) -> Seq<u8> {
        self.key@
    }

    /// The nonce prefix of the stream.
    pub closed spec fn nonce(&self) -> Seq<u8> {
        self.nonce_bytes@
    }

    /// The position of the next chunk.
    pub closed spec fn position(&self) -> u32 {
        self.position
    }

    /// A stream under `key` with a fresh random nonce prefix.
    pub fn new(key: &[u8; 32]) -> (e: Self)
        ensures
            e.key() == key@,
            e.nonce().len() == 7,
            e.position() == 0,
    {
        let nonce_bytes = random_bytes::<7>();
        StreamEncryptor { key: *key, nonce_bytes, position: 0 }
    }

    /// A stream under `key` with the given nonce prefix.
    pub fn with_nonce(key: &[u8; 32], nonce: &[u8; 7]) -> (e: Self)
        ensures
            e.key() == key@,
            e.nonce() == nonce@,
            e.position() == 0,
    {
        StreamEncryptor { key: *key, nonce_bytes: *nonce, position: 0 }
    }

    /// The nonce prefix, which the receiver needs ahead of the chunks.
    pub fn nonce_bytes(&self) -> (n: &[u8; 7])
        ensures
            n@ == self.nonce(),
    {
        &self.nonce_bytes
    }

    /// Seals `plaintext` as the next intermediate chunk.  Fails, leaving the
    /// stream as it was, when the counter is exhausted or the plaintext is
    /// longer than one AES-GCM message may be.
    pub fn encrypt_next(&mut self, plaintext: &[u8]) -> (res: Result<Vec<u8>, CryptoError>)
        ensures
            final(self).key() == old(self).key(),
            final(self).nonce() == old(self).nonce(),
            (old(self).position() == u32::MAX || plaintext@.len() > AEAD_PLAINTEXT_MAX) ==> {
                &&& res == Err::<Vec<u8>, CryptoError>(CryptoError::Encryption)
                &&& final(self).position() == old(self).position()
            },
            (old(self).position() < u32::MAX && plaintext@.len() <= AEAD_PLAINTEXT_MAX) ==> {
                &&& res matches Ok(c) && c@ == stream_seal(
                    old(self).key(),
                    old(self).nonce(),
                    old(self).position(),
                    false,
                    plaintext@,
                )
                &&& final(self).position() == old(self).position() + 1
            },
            res matches Ok(c) ==> c@.len() == plaintext@.len() + 16 && stream_open(
                old(self).key(),
                old(self).nonce(),
                old(self).position(),
                false,
                c@,
            ) == Some(plaintext@),
    {
        if self.position == u32::MAX {
            return Err(CryptoError::Encryption);
        }
        match aes256gcm_stream_seal(&self.key, &self.nonce_bytes, self.position, false, plaintext) {
            Ok(c) => {
                self.position = self.position + 1;
                Ok(c)
            },
            Err(_) => Err(CryptoError::Encryption),
        }
    }

    /// Seals `plaintext` as the final chunk, which ends the stream.
    pub fn encrypt_last(self, plaintext: &[u8]) -> (res: Result<Vec<u8>, CryptoError>)
        ensures
            plaintext@.len() > AEAD_PLAINTEXT_MAX ==> res == Err::<Vec<u8>, CryptoError>(
                CryptoError::FinalEncryption,
            ),
            plaintext@.len() <= AEAD_PLAINTEXT_MAX ==> (res matches Ok(c) && c@ == stream_seal(
                self.key(),
                self.nonce(),
                self.position(),
                true,
                plaintext@,
            )),
            res matches Ok(c) ==> c@.len() == plaintext@.len() + 16 && stream_open(
                self.key(),
                self.nonce(),
                self.position(),
                true,
                c@,
            ) == Some(plaintext@),
    {
        match aes256gcm_stream_seal(&self.key, &self.nonce_bytes, self.position, true, plaintext) {
            Ok(c) => Ok(c),
            Err(_) => Err(CryptoError::FinalEncryption),
        }
    }

    /// Seals one block of the plaintext as read from its source: a full
    /// block (`CHUNK_SIZE` bytes) as the next intermediate chunk, a shorter
    /// one (possibly empty, at the end of the input) as the final chunk.
    /// Returns the ciphertext and whether it was the final chunk.
    pub fn encrypt_block(&mut self, block: &[u8]) -> (res: Result<(Vec<u8>, bool), CryptoError>)
        requires
            block@.len() <= CHUNK_SIZE,
        ensures
            final(self).key() == old(self).key(),
            final(self).nonce() == old(self).nonce(),
            block@.len() < CHUNK_SIZE ==> {
                &&& res matches Ok((c, fin)) && fin && c@ == stream_seal(
                    old(self).key(),
                    old(self).nonce(),
                    old(self).position(),
                    true,
                    block@,
                )
                &&& final(self).position() == old(self).position()
            },
            block@.len() == CHUNK_SIZE && old(self).position() == u32::MAX ==> res == Err::<
                (Vec<u8>, bool),
                CryptoError,
            >(CryptoError::Encryption),
            block@.len() == CHUNK_SIZE && old(self).position() < u32::MAX ==> {
                &&& res matches Ok((c, fin)) && !fin && c@ == stream_seal(
                    old(self).key(),
                    old(self).nonce(),
                    old(self).position(),
                    false,
                    block@,
                )
                &&& final(self).position() == old(self).position() + 1
            },
            res matches Ok((c, fin)) ==> c@.len() == block@.len() + 16 && stream_open(
                old(self).key(),
                old(self).nonce(),
                old(self).position(),
                fin,
                c@,
            ) == Some(block@),
    {
        if block.len() < CHUNK_SIZE {
            match aes256gcm_stream_seal(&self.key, &self.nonce_bytes, self.position, true, block) {
                Ok(c) => Ok((c, true)),
                Err(_) => Err(CryptoError::FinalEncryption),
            }
        } else {
            match self.encrypt_next(block) {
                Ok(c) => Ok((c, false)),
                Err(e) => Err(e),
            }
        }
    }

    /// Plaintext bytes per chunk.
    pub fn chunk_size() -> (n: usize)
        ensures
            n == CHUNK_SIZE,
    {
        CHUNK_SIZE
    }
}

/// Decrypts a transfer chunk by chunk, in the order they were sealed.
pub struct StreamDecryptor {
    key: [u8; 32],
    nonce_bytes: [u8; 7],
    position: u32,
}

impl StreamDecryptor {
    /// The key.
    pub closed spec fn key(&self) -> Seq<u8> {
        self.key@
    }

    /// The nonce prefix of the stream.
    pub closed spec fn nonce(&self) -> Seq<u8> {
        self.nonce_bytes@
    }

    /// The position of the next chunk.
    pub closed spec fn position(&self) -> u32 {
        self.position
    }

    /// A decryptor for the stream under `key` with nonce prefix `nonce`.
    pub fn new(key: &[u8; 32], nonce: &[u8; 7]) -> (d: Self)
        ensures
            d.key() == key@,
            d.nonce() == nonce@,
            d.position() == 0,
    {
        StreamDecryptor { key: *key, nonce_bytes: *nonce, position: 0 }
    }

    /// Opens the next intermediate chunk.  Fails, leaving the decryptor as
    /// it was, when the counter is exhausted or the chunk does not
    /// authenticate.
    pub fn decrypt_next(&mut self, ciphertext: &[u8]) -> (res: Result<Vec<u8>, CryptoError>)
        ensures
            final(self).key() == old(self).key(),
            final(self).nonce() == old(self).nonce(),
            old(self).position() == u32::MAX ==> res == Err::<Vec<u8>, CryptoError>(
                CryptoError::Decryption,
            ) && final(self).position() == old(self).position(),
            old(self).position() < u32::MAX ==> match stream_open(
                old(self).key(),
                old(self).nonce(),
                old(self).position(),
                false,
                ciphertext@,
            ) {
                Some(p) => (res matches Ok(q) && q@ == p) && final(self).position() == old(
                    self,
                ).position() + 1,
                None => res == Err::<Vec<u8>, CryptoError>(CryptoError::Decryption)
                    && final(self).position() == old(self).position(),
            },
    {
        if self.position == u32::MAX {
            return Err(CryptoError::Decryption);
        }
        match aes256gcm_stream_open(&self.key, &self.nonce_bytes, self.position, false, ciphertext) {
            Ok(p) => {
                self.position = self.position + 1;
                Ok(p)
            },
            Err(_) => Err(CryptoError::Decryption),
        }
    }

    /// Opens the final chunk, which ends the stream.
    pub fn decrypt_last(self, ciphertext: &[u8]) -> (res: Result<Vec<u8>, CryptoError>)
        ensures
            match stream_open(self.key(), self.nonce(), self.position(), true, ciphertext@) {
                Some(p) => (res matches Ok(q) && q@ == p),
                None => res == Err::<Vec<u8>, CryptoError>(CryptoError::FinalDecryption),
            },
    {
        match aes256gcm_stream_open(&self.key, &self.nonce_bytes, self.position, true, ciphertext) {
            Ok(p) => Ok(p),
            Err(_) => Err(CryptoError::FinalDecryption),
        }
    }

    /// Bytes of an encrypted full chunk.
    pub fn encrypted_chunk_size() -> (n: usize)
        ensures
            n == ENCRYPTED_CHUNK_SIZE,
    {
        ENCRYPTED_CHUNK_SIZE
    }

    /// Bytes of the nonce prefix.
    pub fn nonce_size() -> (n: usize)
        ensures
            n == STREAM_NONCE_SIZE,
    {
        STREAM_NONCE_SIZE
    }
}

} // verus!
