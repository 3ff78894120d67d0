//! Hashing, key pairs, signatures, addresses and their hex text.

use vstd::prelude::*;
use ed25519_dalek::{Signer, SigningKey, Verifier, VerifyingKey};
use rand::rngs::OsRng;
use sha2::{Digest, Sha256};

verus! {

/// A 32-byte SHA-256 hash.
pub type Hash = [u8; 32];

/// A 20-byte address derived from a public key.
pub type Address = [u8; 20];

/// A 64-byte Ed25519 signature.
pub type Signature = [u8; 64];

/// A 32-byte Ed25519 public key.
pub type PublicKey = [u8; 32];

// ── Hashing ────────────────────────────────────────────────────────────────

/// The SHA-256 digest of a byte sequence.
pub uninterp spec fn spec_sha256(data: Seq<u8>) -> Seq<u8>;

/// SHA-256 of `data`, computed by `sha2::Sha256`.
///
/// Trusted: the result is the digest of exactly the bytes of `data`
/// (named `spec_sha256`); nothing more about SHA-256 is claimed.
#[verifier::external_body]
pub fn hash_sha256(data: &[u8]) -> (h: Hash)
    ensures
        h@ == spec_sha256(data@),
{
    let digest = Sha256::digest(data);
    let mut h = [0u8; 32];
    h.copy_from_slice(&digest);
    h
}

/// Double SHA-256 (hash of the hash).
pub fn double_hash(data: &[u8]) -> (h: Hash)
    ensures
        h@ == spec_sha256(spec_sha256(data@)),
{
    let first = hash_sha256(data);
    hash_sha256(&first)
}

// ── Ed25519 ────────────────────────────────────────────────────────────────

/// The Ed25519 public key of a 32-byte secret key.
pub uninterp spec fn spec_public_key(secret: Seq<u8>) -> Seq<u8>;

/// The Ed25519 signature of a message under a secret key.
pub uninterp spec fn spec_sign(secret: Seq<u8>, message: Seq<u8>) -> Seq<u8>;

/// Whether an Ed25519 signature of a message verifies under a public key.
pub uninterp spec fn spec_verify(public_key: Seq<u8>, message: Seq<u8>, signature: Seq<u8>) -> bool;

/// `SigningKey::from_bytes(secret).verifying_key().to_bytes()`.
///
/// Trusted: the public key depends on the secret bytes alone.
#[verifier::external_body]
fn ed25519_public_key(secret: &[u8; 32]) -> (pk: PublicKey)
    ensures
        pk@ == spec_public_key(secret@),
{
    SigningKey::from_bytes(secret).verifying_key().to_bytes()
}

/// `SigningKey::from_bytes(secret).sign(message).to_bytes()`.
///
/// Trusted: Ed25519 signing is deterministic (the signature depends on the
/// secret and the message alone), and a signature made with a secret key
/// verifies under that key's public key.
#[verifier::external_body]
fn ed25519_sign(secret: &[u8; 32], message: &[u8]) -> (sig: Signature)
    ensures
        sig@ == spec_sign(secret@, message@),
        spec_verify(spec_public_key(secret@), message@, sig@),
{
    SigningKey::from_bytes(secret).sign(message).to_bytes()
}

/// `VerifyingKey::verify` on the decoded key and signature; `false` when the
/// public key bytes are not a valid key.
///
/// Trusted: the answer depends on the key, message and signature alone.
#[verifier::external_body]
fn ed25519_verify(public_key: &PublicKey, message: &[u8], signature: &Signature) -> (ok: bool)
    ensures
        ok == spec_verify(public_key@, message@, signature@),
{
    match VerifyingKey::from_bytes(public_key) {
        Ok(vk) => vk.verify(message, &ed25519_dalek::Signature::from_bytes(signature)).is_ok(),
        Err(_) => false,
    }
}

/// Fresh secret key bytes from the operating system's random source.
///
/// Trusted: nothing is claimed of the bytes.
#[verifier::external_body]
fn random_secret() -> (secret: [u8; 32]) {
    SigningKey::generate(&mut OsRng).to_bytes()
}

// ── Addresses ──────────────────────────────────────────────────────────────

/// The address of a public key: the first 20 bytes of its SHA-256 hash.
pub open spec fn spec_address(public_key: Seq<u8>) -> Seq<u8> {
    spec_sha256(public_key).subrange(0, 20)
}

/// Derive a 20-byte address from a 32-byte public key (first 20 bytes of its
/// SHA-256 hash).
pub fn address_from_public_key(public_key: &PublicKey) -> (addr: Address)
    ensures
        addr@ == spec_address(public_key@),
{
    let hash = hash_sha256(public_key);
    let mut addr = [0u8; 20];
    let mut i: usize = 0;
    while i < 20
        invariant
            i <= 20,
            hash@ == spec_sha256(public_key@),
            forall|j: int| 0 <= j < i ==> #[trigger] addr@[j] == hash@[j],
        decreases 20 - i,
    {
        addr.set(i, hash[i]);
        i += 1;
    }
    assert(addr@ =~= spec_address(public_key@));
    addr
}

/// Verify an Ed25519 signature against a public key and message.
pub fn verify_signature(public_key: &PublicKey, message: &[u8], signature: &Signature) -> (ok: bool)
    ensures
        ok == spec_verify(public_key@, message@, signature@),
{
    ed25519_verify(public_key, message, signature)
}

// ── Key pairs ──────────────────────────────────────────────────────────────

/// An Ed25519 key pair for signing and verification, kept as its secret
/// key bytes.
#[derive(Clone, Copy)]
pub struct KeyPair {
    secret: [u8; 32],
}

impl KeyPair {
    /// The secret key bytes.
    pub closed spec fn secret(&self) -> Seq<u8> {
        self.secret@
    }

    /// Generate a new random key pair.
    pub fn generate() -> (kp: Self) {
        KeyPair { secret: random_secret() }
    }

    /// Restore a key pair from raw secret key bytes (32 bytes).
    pub fn from_secret_bytes(bytes: &[u8; 32]) -> (kp: Self)
        ensures
            kp.secret() == bytes@,
    {
        KeyPair { secret: *bytes }
    }

    /// Return the raw secret key bytes.
    pub fn secret_bytes(&self) -> (b: &[u8; 32])
        ensures
            b@ == self.secret(),
    {
        &self.secret
    }

    /// Return the 32-byte public key.
    pub fn public_key(&self) -> (pk: PublicKey)
        ensures
            pk@ == spec_public_key(self.secret()),
    {
        ed25519_public_key(&self.secret)
    }

    /// Derive a 20-byte address from the public key.
    pub fn address(&self) -> (addr: Address)
        ensures
            addr@ == spec_address(spec_public_key(self.secret())),
    {
        address_from_public_key(&self.public_key())
    }

    /// Sign arbitrary data, returning a 64-byte signature. The signature
    /// verifies under this pair's public key.
    pub fn sign(&self, data: &[u8]) -> (sig: Signature)
        ensures
            sig@ == spec_sign(self.secret(), data@),
            spec_verify(spec_public_key(self.secret()), data@, sig@),
    {
        ed25519_sign(&self.secret, data)
    }
}

/// Law: a key pair restored from another pair's secret bytes is that same
/// pair (so it has the same public key and address and makes the same
/// signatures).
pub proof fn lemma_restored_pair_is_same(kp: KeyPair, restored: KeyPair)
    requires
        restored.secret() == kp.secret(),
    ensures
        restored == kp,
{
    assert(restored.secret =~= kp.secret);
}

// ── Hex text ───────────────────────────────────────────────────────────────

/// The lowercase hex digit of a number below 16.
pub open spec fn hex_digit(n: int) -> char {
    if 0 <= n < 10 {
        (n + 48) as char
    } else {
        (n + 87) as char
    }
}

/// Lowercase hex text of bytes, two digits per byte.
pub open spec fn spec_hex(b: Seq<u8>) -> Seq<char>
    decreases b.len(),
{
    if b.len() == 0 {
        Seq::empty()
    } else {
        spec_hex(b.drop_last()) + seq![hex_digit(b.last() as int / 16), hex_digit(b.last() as int % 16)]
    }
}

/// A hex digit in either case.
pub open spec fn is_hex_char(c: char) -> bool {
    ('0' <= c && c <= '9') || ('a' <= c && c <= 'f') || ('A' <= c && c <= 'F')
}

/// The value of a hex digit.
pub open spec fn hex_char_value(c: char) -> int {
    if '0' <= c && c <= '9' {
        c as int - 48
    } else if 'a' <= c && c <= 'f' {
        c as int - 87
    } else {
        c as int - 55
    }
}

/// Text that decodes as hex: an even number of hex digits.
pub open spec fn hex_text(s: Seq<char>) -> bool {
    s.len() % 2 == 0 && forall|i: int| 0 <= i < s.len() ==> is_hex_char(#[trigger] s[i])
}

/// The bytes that hex text stands for, two digits per byte.
pub open spec fn spec_hex_decode(s: Seq<char>) -> Seq<u8> {
    Seq::new(s.len() / 2, |i: int| (hex_char_value(s[2 * i]) * 16 + hex_char_value(s[2 * i + 1])) as u8)
}

/// Why hex text could not be decoded.
#[derive(Debug, Clone, Copy, PartialEq, Eq)]
pub enum HexError {
    /// A character that is not a hex digit, and its byte index.
    InvalidHexCharacter { c: char, index: usize },
    /// An odd number of digits.
    OddLength,
    /// A length that does not fit the output.
    InvalidStringLength,
}

/// `hex::encode`.
///
/// Trusted: the text is two lowercase hex digits per byte, high digit first,
/// as the crate's source builds it from its lowercase table.
#[verifier::external_body]
fn hex_encode(bytes: &[u8]) -> (s: String)
    ensures
        s@ == spec_hex(bytes@),
{
    hex::encode(bytes)
}

/// Text of ASCII characters only (one byte each).
pub open spec fn ascii_text(s: Seq<char>) -> bool {
    forall|i: int| 0 <= i < s.len() ==> (#[trigger] s[i] as u32) < 128
}

/// The position of the first character that is not a hex digit.
pub open spec fn first_non_hex(s: Seq<char>) -> int {
    choose|i: int| 0 <= i < s.len() && !is_hex_char(s[i]) && forall|j: int| 0 <= j < i ==> is_hex_char(#[trigger] s[j])
}

/// Why ASCII text that is not hex fails to decode: an odd length is
/// reported first, then the first character that is not a hex digit.
pub open spec fn hex_error(s: Seq<char>) -> HexError {
    if s.len() % 2 == 1 {
        HexError::OddLength
    } else {
        HexError::InvalidHexCharacter { c: s[first_non_hex(s)], index: first_non_hex(s) as usize }
    }
}

/// Whether `r` is the error `e`.
pub open spec fn fails_with<T>(r: Result<T, HexError>, e: HexError) -> bool {
    r matches Err(x) && x == e
}

/// `hex::decode`, with its error mapped variant by variant.
///
/// Trusted: decoding succeeds exactly on an even number of hex digits, in
/// either case, and then gives one byte per digit pair, high digit first.
/// The crate checks the byte length first (`OddLength`), then each byte in
/// order (`InvalidHexCharacter` with the byte and its index); on ASCII text
/// bytes and characters coincide, so the error is `hex_error`. On other
/// text the error is not stated.
#[verifier::external_body]
pub(crate) fn hex_decode(s: &str) -> (r: Result<Vec<u8>, HexError>)
    ensures
        r is Ok <==> hex_text(s@),
        r matches Ok(b) ==> b@ == spec_hex_decode(s@),
        ascii_text(s@) && !hex_text(s@) ==> fails_with(r, hex_error(s@)),
{
    match hex::decode(s) {
        Ok(b) => Ok(b),
        Err(hex::FromHexError::InvalidHexCharacter { c, index }) => Err(HexError::InvalidHexCharacter { c, index }),
        Err(hex::FromHexError::OddLength) => Err(HexError::OddLength),
        Err(hex::FromHexError::InvalidStringLength) => Err(HexError::InvalidStringLength),
    }
}

/// Pretty-print a hash as a hex string.
pub fn hash_to_hex(hash: &Hash) -> (s: String)
    ensures
        s@ == spec_hex(hash@),
{
    hex_encode(hash)
}

/// Pretty-print an address as a hex string prefixed with `0x`.
pub fn address_to_hex(addr: &Address) -> (s: String)
    ensures
        s@ == "0x"@ + spec_hex(addr@),
{
    let mut s = String::from_str("0x");
    let digits = hex_encode(addr);
    s.append(digits.as_str());
    s
}

/// Text without a leading `0x`, if it has one.
pub open spec fn strip_0x(s: Seq<char>) -> Seq<char> {
    if s.len() >= 2 && s[0] == '0' && s[1] == 'x' {
        s.subrange(2, s.len() as int)
    } else {
        s
    }
}

/// Parse a hex string (with optional `0x` prefix) into an `Address`: the
/// first 20 bytes it decodes to.
pub fn address_from_hex(s: &str) -> (r: Result<Address, HexError>)
    requires
        hex_text(strip_0x(s@)) ==> strip_0x(s@).len() >= 40,
    ensures
        r is Ok <==> hex_text(strip_0x(s@)),
        r matches Ok(a) ==> a@ == spec_hex_decode(strip_0x(s@)).subrange(0, 20),
        ascii_text(s@) && !hex_text(strip_0x(s@)) ==> fails_with(r, hex_error(strip_0x(s@))),
{
    let n = s.unicode_len();
    let body = if n >= 2 && s.get_char(0) == '0' && s.get_char(1) == 'x' {
        s.substring_char(2, n)
    } else {
        s
    };
    assert(body@ == strip_0x(s@));
    let bytes = match hex_decode(body) {
        Ok(b) => b,
        Err(e) => {
            return Err(e);
        },
    };
    let mut addr = [0u8; 20];
    let mut i: usize = 0;
    while i < 20
        invariant
            i <= 20,
            bytes@.len() >= 20,
            forall|j: int| 0 <= j < i ==> #[trigger] addr@[j] == bytes@[j],
        decreases 20 - i,
    {
        addr.set(i, bytes[i]);
        i += 1;
    }
    assert(addr@ =~= bytes@.subrange(0, 20));
    Ok(addr)
}

proof fn lemma_hex_digit(n: int)
    requires
        0 <= n < 16,
    ensures
        is_hex_char(hex_digit(n)),
        hex_char_value(hex_digit(n)) == n,
{
}

proof fn lemma_hex_shape(b: Seq<u8>)
    ensures
        spec_hex(b).len() == 2 * b.len(),
        forall|i: int|
            0 <= i < b.len() ==> spec_hex(b)[2 * i] == hex_digit(#[trigger] b[i] as int / 16)
                && spec_hex(b)[2 * i + 1] == hex_digit(b[i] as int % 16),
    decreases b.len(),
{
    if b.len() > 0 {
        let p = b.drop_last();
        lemma_hex_shape(p);
        assert forall|i: int| 0 <= i < b.len() implies spec_hex(b)[2 * i] == hex_digit(
            #[trigger] b[i] as int / 16,
        ) && spec_hex(b)[2 * i + 1] == hex_digit(b[i] as int % 16) by {
            if i < p.len() {
                assert(b[i] == p[i]);
            }
        }
    }
}

/// Law: hex text of any bytes decodes, and gives those bytes back.
pub proof fn lemma_hex_roundtrip(b: Seq<u8>)
    ensures
        hex_text(spec_hex(b)),
        spec_hex_decode(spec_hex(b)) == b,
{
    lemma_hex_shape(b);
    let h = spec_hex(b);
    assert forall|i: int| 0 <= i < h.len() implies is_hex_char(#[trigger] h[i]) by {
        let k = i / 2;
        assert(0 <= k < b.len());
        lemma_hex_digit(b[k] as int / 16);
        lemma_hex_digit(b[k] as int % 16);
        if i % 2 == 0 {
            assert(i == 2 * k);
        } else {
            assert(i == 2 * k + 1);
        }
    }
    let d = spec_hex_decode(h);
    assert forall|k: int| 0 <= k < b.len() implies #[trigger] d[k] == b[k] by {
        lemma_hex_digit(b[k] as int / 16);
        lemma_hex_digit(b[k] as int % 16);
        assert((b[k] as int / 16) * 16 + b[k] as int % 16 == b[k] as int);
    }
    assert(d =~= b);
}

/// Law: the text `address_to_hex` gives for an address is accepted by
/// `address_from_hex`, which gives the same address back.
pub proof fn lemma_address_hex_roundtrip(a: Seq<u8>)
    requires
        a.len() == 20,
    ensures
        hex_text(strip_0x("0x"@ + spec_hex(a))),
        strip_0x("0x"@ + spec_hex(a)).len() >= 40,
        spec_hex_decode(strip_0x("0x"@ + spec_hex(a))).subrange(0, 20) == a,
{
    reveal_strlit("0x");
    lemma_hex_roundtrip(a);
    lemma_hex_shape(a);
    let t = "0x"@ + spec_hex(a);
    assert(t[0] == '0' && t[1] == 'x');
    assert(strip_0x(t) =~= spec_hex(a));
    assert(spec_hex_decode(spec_hex(a)).subrange(0, 20) =~= a);
}

/// A key pair as text (for wallet export / import): secret and public key
/// in hex, and the address in `0x` hex.
pub struct SerializableKeyPair {
    pub secret_key: String,
    pub public_key: String,
    pub address: String,
}

impl SerializableKeyPair {
    /// The text form of a key pair.
    pub fn from_key_pair(kp: &KeyPair) -> (s: Self)
        ensures
            s.secret_key@ == spec_hex(kp.secret()),
            s.public_key@ == spec_hex(spec_public_key(kp.secret())),
            s.address@ == "0x"@ + spec_hex(spec_address(spec_public_key(kp.secret()))),
    {
        let pk = kp.public_key();
        SerializableKeyPair {
            secret_key: hex_encode(kp.secret_bytes()),
            public_key: hex_encode(&pk),
            address: address_to_hex(&kp.address()),
        }
    }
}

} // verus!
