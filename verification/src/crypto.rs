//! Authenticated encryption of byte payloads with a password-derived key,
//! plus content hashing for integrity checks. The outside primitives stand
//! behind named, deterministic results: `sha256_of` for the digest and
//! `aead_open` for what decryption yields.

use aes_gcm::Aes256Gcm;
use aes_gcm::Key;
use aes_gcm::Nonce;
use aes_gcm::aead::Aead;
use aes_gcm::aead::Generate;
use aes_gcm::aead::KeyInit;
use aes_gcm::aead::consts::U12;
use sha2::Digest;
use sha2::Sha256;
use vstd::prelude::*;
use vstd::slice::slice_to_vec;
use vstd::string::StringExecFns;

verus! {

/// The SHA-256 digest of a byte sequence: a pure function of the bytes
/// alone, 32 bytes long (stated at the trusted boundary).
pub uninterp spec fn sha256_of(data: Seq<u8>) -> Seq<u8>;

/// What AES-256-GCM decryption yields for a key, a nonce and a
/// ciphertext-with-tag: deterministic in its three arguments, `Some` exactly
/// when the authentication tag verifies.
pub uninterp spec fn aead_open(key: Seq<u8>, nonce: Seq<u8>, ct: Seq<u8>) -> Option<Seq<u8>>;

/// The lower-case hex digit for a value below 16.
pub open spec fn hex_digit(n: int) -> char {
    if n < 10 {
        ((48 + n) as u8) as char
    } else {
        ((87 + n) as u8) as char
    }
}

/// Lower-case hex encoding: two digits per byte, high nibble first.
pub open spec fn hex_of(bytes: Seq<u8>) -> Seq<char> {
    Seq::new(
        2 * bytes.len(),
        |i: int|
            if i % 2 == 0 {
                hex_digit(bytes[i / 2] as int / 16)
            } else {
                hex_digit(bytes[i / 2] as int % 16)
            },
    )
}

/// The salt mixed into every password before hashing, the bytes of
/// `synccli-salt`.
pub open spec fn salt_spec() -> Seq<u8> {
    seq![0x73u8, 0x79u8, 0x6eu8, 0x63u8, 0x63u8, 0x6cu8, 0x69u8, 0x2du8, 0x73u8, 0x61u8, 0x6cu8, 0x74u8]
}

/// The AES-256 key derived from a password: the SHA-256 digest of the
/// password followed by the fixed salt.
pub open spec fn derived_key_spec(password: Seq<u8>) -> Seq<u8> {
    sha256_of(password + salt_spec())
}

/// What decrypting a combined `nonce ++ ciphertext` payload with a password
/// yields: the first 12 bytes are the nonce, the rest the ciphertext with
/// tag; payloads shorter than a nonce never decrypt.
pub open spec fn open_encrypted(enc: Seq<u8>, password: Seq<u8>) -> Option<Seq<u8>> {
    if enc.len() >= 12 {
        aead_open(derived_key_spec(password), enc.subrange(0, 12), enc.subrange(12, enc.len() as int))
    } else {
        None
    }
}

/// Relies on sha2's `Sha256`: the digest depends on the input bytes alone
/// and is 32 bytes long.
#[verifier::external_body]
fn sha256_bytes(data: &[u8]) -> (r: Vec<u8>)
    ensures
        r@ == sha256_of(data@),
        r@.len() == 32,
{
    let mut hasher = Sha256::new();
    hasher.update(data);
    hasher.finalize().to_vec()
}

/// Relies on hex::encode: two lower-case digits per byte, high nibble first.
#[verifier::external_body]
fn hex_encode(data: &[u8]) -> (r: String)
    ensures
        r@ == hex_of(data@),
{
    hex::encode(data)
}

/// Relies on rand's thread-local generator: an index below `bound`. Nothing
/// is assumed about which index comes back.
#[verifier::external_body]
fn random_below(bound: usize) -> (r: usize)
    requires
        bound > 0,
    ensures
        r < bound,
{
    rand::random_range(0..bound)
}

/// Relies on aes-gcm's `Aes256Gcm`: the result is the fresh random nonce
/// (12 bytes) followed by ciphertext and tag (16 bytes); decrypting that
/// pair with the same key yields `data` again; encryption fails only when
/// the plaintext exceeds the AES-GCM length bound (2^36 - 32 bytes).
#[verifier::external_body]
fn aead_encrypt(key: &[u8], data: &[u8]) -> (r: Result<Vec<u8>, String>)
    requires
        key@.len() == 32,
    ensures
        r matches Ok(v) ==> {
            &&& v@.len() == data@.len() + 28
            &&& aead_open(key@, v@.subrange(0, 12), v@.subrange(12, v@.len() as int)) == Some(
                data@,
            )
        },
        data@.len() < 68719476704 ==> r is Ok,
{
    let cipher = Aes256Gcm::new(Key::<Aes256Gcm>::from_slice(key));
    let nonce: Nonce<U12> = Nonce::generate();
    match cipher.encrypt(&nonce, data) {
        Ok(ciphertext) => {
            let mut result = nonce.to_vec();
            result.extend_from_slice(&ciphertext);
            Ok(result)
        },
        Err(e) => Err(format!("加密失败: {}", e)),
    }
}

/// Relies on aes-gcm's `Aes256Gcm`: decryption of `enc` (nonce, then
/// ciphertext with tag) is deterministic in the key and the bytes, and
/// succeeds exactly when the authentication tag verifies.
#[verifier::external_body]
fn aead_decrypt(key: &[u8], enc: &[u8]) -> (r: Result<Vec<u8>, String>)
    requires
        key@.len() == 32,
        enc@.len() >= 12,
    ensures
        r matches Ok(p) ==> aead_open(key@, enc@.subrange(0, 12), enc@.subrange(12, enc@.len() as int))
            == Some(p@),
        r is Err ==> aead_open(key@, enc@.subrange(0, 12), enc@.subrange(12, enc@.len() as int))
            is None,
{
    let cipher = Aes256Gcm::new(Key::<Aes256Gcm>::from_slice(key));
    let (nonce_bytes, ciphertext) = enc.split_at(12);
    let nonce = Nonce::<U12>::from_slice(nonce_bytes);
    match cipher.decrypt(nonce, ciphertext) {
        Ok(plaintext) => Ok(plaintext),
        Err(e) => Err(format!("解密失败: {}", e)),
    }
}

/// Encrypts and decrypts payloads with a password-derived key, and hashes
/// payloads for integrity checks.
pub struct CryptoCompressor {}

impl CryptoCompressor {
    /// A new crypto helper.
    pub fn new() -> (r: Self) {
        Self {  }
    }

    /// The fixed salt as bytes.
    fn salt_bytes() -> (r: Vec<u8>)
        ensures
            r@ == salt_spec(),
    {
        let mut v: Vec<u8> = Vec::new();
        v.push(0x73);
        v.push(0x79);
        v.push(0x6e);
        v.push(0x63);
        v.push(0x63);
        v.push(0x6c);
        v.push(0x69);
        v.push(0x2d);
        v.push(0x73);
        v.push(0x61);
        v.push(0x6c);
        v.push(0x74);
        proof {
            assert(v@ =~= salt_spec());
        }
        v
    }

    /// The AES-256 key for a password: SHA-256 over password and salt.
    fn derive_key_from_password(&self, password: &[u8]) -> (r: Vec<u8>)
        ensures
            r@ == derived_key_spec(password@),
            r@.len() == 32,
    {
        let mut input = slice_to_vec(password);
        let mut salt = Self::salt_bytes();
        input.append(&mut salt);
        sha256_bytes(input.as_slice())
    }

    /// Encrypts `data` under the key derived from `password`. The result is
    /// a fresh random nonce followed by the ciphertext and tag, so its
    /// length exceeds the payload's by 28, and decrypting it with the same
    /// password yields the payload again.
    pub fn encrypt_data(&self, data: &[u8], password: &[u8]) -> (r: Result<Vec<u8>, String>)
        ensures
            r matches Ok(v) ==> {
                &&& v@.len() == data@.len() + 28
                &&& open_encrypted(v@, password@) == Some(data@)
            },
            data@.len() < 68719476704 ==> r is Ok,
    {
        let key = self.derive_key_from_password(password);
        aead_encrypt(key.as_slice(), data)
    }

    /// Decrypts a `nonce ++ ciphertext` payload with the key derived from
    /// `password`: succeeds exactly when the payload is long enough to hold
    /// a nonce and the authentication tag verifies under that password.
    pub fn decrypt_data(&self, encrypted_data: &[u8], password: &[u8]) -> (r: Result<
        Vec<u8>,
        String,
    >)
        ensures
            r matches Ok(p) ==> open_encrypted(encrypted_data@, password@) == Some(p@),
            r is Ok <==> open_encrypted(encrypted_data@, password@) is Some,
            encrypted_data@.len() < 12 ==> (r matches Err(m) && m@ == "加密数据太短"@),
    {
        if encrypted_data.len() < 12 {
            return Err(String::from_str("加密数据太短"));
        }
        let key = self.derive_key_from_password(password);
        aead_decrypt(key.as_slice(), encrypted_data)
    }

    /// Whether `password` decrypts `encrypted_data`.
    pub fn verify_password(&self, encrypted_data: &[u8], password: &[u8]) -> (r: bool)
        ensures
            r == (open_encrypted(encrypted_data@, password@) is Some),
    {
        self.decrypt_data(encrypted_data, password).is_ok()
    }

    /// A random password of `length` characters, drawn from the fixed
    /// letters-digits-punctuation alphabet.
    pub fn generate_random_password(&self, length: usize) -> (r: String)
        ensures
            r@.len() == length,
            forall|j: int|
                0 <= j < r@.len()
                    ==> "ABCDEFGHIJKLMNOPQRSTUVWXYZabcdefghijklmnopqrstuvwxyz0123456789!@#$%^&*"@
                    .contains(#[trigger] r@[j]),
    {
        let charset = "ABCDEFGHIJKLMNOPQRSTUVWXYZabcdefghijklmnopqrstuvwxyz0123456789!@#$%^&*";
        proof {
            reveal_strlit("ABCDEFGHIJKLMNOPQRSTUVWXYZabcdefghijklmnopqrstuvwxyz0123456789!@#$%^&*");
        }
        let mut out = String::new();
        let mut i: usize = 0;
        while i < length
            invariant
                i <= length,
                out@.len() == i,
                charset@
                    == "ABCDEFGHIJKLMNOPQRSTUVWXYZabcdefghijklmnopqrstuvwxyz0123456789!@#$%^&*"@,
                charset@.len() == 70,
                forall|j: int| 0 <= j < i ==> charset@.contains(#[trigger] out@[j]),
            decreases length - i,
        {
            let idx = random_below(70);
            let piece = charset.substring_char(idx, idx + 1);
            out.append(piece);
            proof {
                assert(piece@[0] == charset@[idx as int]);
                assert(charset@.contains(charset@[idx as int]));
            }
            i = i + 1;
        }
        out
    }

    /// The lower-case hex SHA-256 digest of `data`, 64 characters.
    pub fn calculate_hash(&self, data: &[u8]) -> (r: String)
        ensures
            r@ == hex_of(sha256_of(data@)),
            r@.len() == 64,
    {
        let digest = sha256_bytes(data);
        hex_encode(digest.as_slice())
    }

    /// Encrypts `data` and pairs the result with its hex SHA-256 digest,
    /// for an integrity check before a later decryption.
    pub fn encrypt_with_hash(&self, data: &[u8], password: &[u8]) -> (r: Result<
        (Vec<u8>, String),
        String,
    >)
        ensures
            r matches Ok(t) ==> {
                &&& t.0@.len() == data@.len() + 28
                &&& open_encrypted(t.0@, password@) == Some(data@)
                &&& t.1@ == hex_of(sha256_of(t.0@))
            },
            data@.len() < 68719476704 ==> r is Ok,
    {
        let encrypted_data = match self.encrypt_data(data, password) {
            Ok(v) => v,
            Err(e) => {
                return Err(e);
            },
        };
        let hash = self.calculate_hash(encrypted_data.as_slice());
        Ok((encrypted_data, hash))
    }

    /// Checks the hex SHA-256 digest of `encrypted_data` against
    /// `expected_hash` and decrypts only when they agree; a digest mismatch
    /// is reported as an integrity failure, never confused with a
    /// wrong-password failure.
    pub fn decrypt_with_hash_verification(
        &self,
        encrypted_data: &[u8],
        password: &[u8],
        expected_hash: &str,
    ) -> (r: Result<Vec<u8>, String>)
        ensures
            hex_of(sha256_of(encrypted_data@)) != expected_hash@ ==> (r matches Err(m) && m@
                == "数据完整性验证失败"@),
            hex_of(sha256_of(encrypted_data@)) == expected_hash@ ==> {
                &&& (r matches Ok(p) ==> open_encrypted(encrypted_data@, password@) == Some(p@))
                &&& (r is Ok <==> open_encrypted(encrypted_data@, password@) is Some)
            },
    {
        let actual_hash = self.calculate_hash(encrypted_data);
        let expected = String::from_str(expected_hash);
        if actual_hash != expected {
            return Err(String::from_str("数据完整性验证失败"));
        }
        self.decrypt_data(encrypted_data, password)
    }
}

impl Default for CryptoCompressor {
    /// Same as `CryptoCompressor::new`.
    fn default() -> (r: Self) {
        Self::new()
    }
}

} // verus!
