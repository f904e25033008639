//! The cipher engine: a key stretched from the master password, and
//! authenticated encryption of text payloads as base64 blobs of
//! `nonce ‖ ciphertext`.
use aes_gcm::aead::rand_core::RngCore;
use aes_gcm::aead::{Aead, KeyInit};
use base64::Engine;
use vstd::prelude::*;
use vstd::slice::{slice_subrange, slice_to_vec};
use vstd::utf8::*;

verus! {

broadcast use {encode_utf8_valid_utf8, encode_utf8_decode_utf8};

/// Bytes of a derived key (AES-256).
pub const KEY_LEN: usize = 32;

/// Bytes of the nonce that leads every sealed blob.
pub const NONCE_LEN: usize = 12;

/// Bytes of the random salt that the key derivation is run with.
pub const SALT_LEN: usize = 16;

/// Rounds of PBKDF2-HMAC-SHA256 per key derivation.
pub const KDF_ROUNDS: u32 = 100000;

/// The largest plaintext, in bytes, that AES-GCM seals.
pub const MAX_PLAINTEXT: u64 = 68719476736;

/// Bytes of the authentication tag that follows the ciphertext.
pub const TAG_LEN: usize = 16;

#[verifier::external_type_specification]
#[verifier::external_body]
pub struct ExAeadError(aes_gcm::Error);

#[verifier::external_type_specification]
#[verifier::external_body]
pub struct ExDecodeError(base64::DecodeError);

#[verifier::external_type_specification]
#[verifier::external_body]
pub struct ExFromUtf8Error(std::string::FromUtf8Error);

/// PBKDF2-HMAC-SHA256 of `password` and `salt` over `rounds` rounds,
/// `len` bytes long.
pub uninterp spec fn pbkdf2_sha256_of(password: Seq<u8>, salt: Seq<u8>, rounds: u32, len: nat) -> Seq<u8>;

/// AES-256-GCM encryption of `plaintext` under `key` and `nonce`, with no
/// associated data: the ciphertext followed by the tag.
pub uninterp spec fn aes256gcm_seal_of(key: Seq<u8>, nonce: Seq<u8>, plaintext: Seq<u8>) -> Seq<u8>;

/// The padded standard base64 text of `bytes`.
pub uninterp spec fn base64_of(bytes: Seq<u8>) -> Seq<char>;

/// A character of the padded standard base64 alphabet.
pub open spec fn is_base64_char(c: char) -> bool {
    ('A' <= c <= 'Z') || ('a' <= c <= 'z') || ('0' <= c <= '9') || c == '+' || c == '/' || c
        == '='
}

/// Relies on `pbkdf2::pbkdf2_hmac::<sha2::Sha256>`: fills `out` with the
/// derived key, a function of the password, salt, rounds and length.
#[verifier::external_body]
fn pbkdf2_sha256(password: &[u8], salt: &[u8], rounds: u32, out: &mut Vec<u8>)
    ensures
        final(out)@ == pbkdf2_sha256_of(password@, salt@, rounds, old(out)@.len()),
        final(out)@.len() == old(out)@.len(),
{
    pbkdf2::pbkdf2_hmac::<sha2::Sha256>(password, salt, rounds, out.as_mut_slice());
}

/// Relies on `Aes256Gcm::new` and `Aead::encrypt`: the ciphertext with its
/// tag appended, refused only for a plaintext over `MAX_PLAINTEXT` bytes.
#[verifier::external_body]
fn aes256gcm_seal(key: &[u8], nonce: &[u8], plaintext: &[u8]) -> (r: Result<Vec<u8>, aes_gcm::Error>)
    requires
        key@.len() == KEY_LEN,
        nonce@.len() == NONCE_LEN,
    ensures
        r is Ok <==> plaintext@.len() <= MAX_PLAINTEXT,
        r matches Ok(c) ==> c@ == aes256gcm_seal_of(key@, nonce@, plaintext@) && c@.len()
            == plaintext@.len() + TAG_LEN,
{
    let cipher = aes_gcm::Aes256Gcm::new(aes_gcm::Key::<aes_gcm::Aes256Gcm>::from_slice(key));
    cipher.encrypt(aes_gcm::Nonce::from_slice(nonce), plaintext)
}

/// Relies on `Aes256Gcm::new` and `Aead::decrypt`: the tag verifies exactly
/// when the input is the sealing of some plaintext under this key and
/// nonce, and that plaintext is then returned.
#[verifier::external_body]
fn aes256gcm_open(key: &[u8], nonce: &[u8], sealed: &[u8]) -> (r: Result<Vec<u8>, aes_gcm::Error>)
    requires
        key@.len() == KEY_LEN,
        nonce@.len() == NONCE_LEN,
        sealed@.len() <= MAX_PLAINTEXT + TAG_LEN,
    ensures
        r matches Ok(p) ==> p@.len() <= MAX_PLAINTEXT && aes256gcm_seal_of(key@, nonce@, p@)
            == sealed@,
        forall|p: Seq<u8>|
            p.len() <= MAX_PLAINTEXT && #[trigger] aes256gcm_seal_of(key@, nonce@, p) == sealed@
                ==> r is Ok && r->Ok_0@ == p,
{
    let cipher = aes_gcm::Aes256Gcm::new(aes_gcm::Key::<aes_gcm::Aes256Gcm>::from_slice(key));
    cipher.decrypt(aes_gcm::Nonce::from_slice(nonce), sealed)
}

/// Relies on `base64::engine::general_purpose::STANDARD.encode`: the padded
/// standard base64 text of the bytes.
#[verifier::external_body]
pub(crate) fn base64_encode(bytes: &[u8]) -> (r: String)
    requires
        bytes@.len() <= usize::MAX / 2,
    ensures
        r@ == base64_of(bytes@),
        forall|i: int| 0 <= i < r@.len() ==> is_base64_char(#[trigger] r@[i]),
{
    base64::engine::general_purpose::STANDARD.encode(bytes)
}

/// Relies on `base64::engine::general_purpose::STANDARD.decode`, which
/// accepts only canonical padded text: it succeeds exactly on the encoding
/// of some bytes, and returns those bytes.
#[verifier::external_body]
pub(crate) fn base64_decode(text: &str) -> (r: Result<Vec<u8>, base64::DecodeError>)
    ensures
        r matches Ok(b) ==> base64_of(b@) == text@,
        forall|b: Seq<u8>| #[trigger] base64_of(b) == text@ ==> r is Ok && r->Ok_0@ == b,
{
    base64::engine::general_purpose::STANDARD.decode(text)
}

/// Relies on `String::from_utf8`: accepts exactly the valid UTF-8 byte
/// sequences, and decodes them.
#[verifier::external_body]
pub(crate) fn string_from_utf8(bytes: Vec<u8>) -> (r: Result<String, std::string::FromUtf8Error>)
    ensures
        r is Ok <==> valid_utf8(bytes@),
        r matches Ok(s) ==> s@ == decode_utf8(bytes@),
{
    String::from_utf8(bytes)
}

/// Relies on `OsRng::try_fill_bytes` (the operating system's generator, as
/// re-exported by aes-gcm): false where the system has no randomness to
/// give.
#[verifier::external_body]
pub(crate) fn fill_from_os(buf: &mut Vec<u8>) -> (ok: bool)
    ensures
        final(buf)@.len() == old(buf)@.len(),
{
    aes_gcm::aead::OsRng.try_fill_bytes(buf.as_mut_slice()).is_ok()
}

/// Why the cipher engine refused a request.
#[derive(Clone, Copy, Debug, PartialEq, Eq, Structural)]
pub enum CipherError {
    /// The cipher (or the system's random source) failed to seal.
    EncryptionError,
    /// The blob is not base64, or too short to hold a nonce.
    MalformedCiphertext,
    /// The tag does not verify: a wrong key or tampered data.
    AuthenticationFailed,
    /// The decrypted bytes are not valid UTF-8.
    EncodingError,
}

/// The key that a master password stretches to under a salt.
pub open spec fn derived_key(password: Seq<char>, salt: Seq<u8>) -> Seq<u8> {
    pbkdf2_sha256_of(encode_utf8(password), salt, KDF_ROUNDS, KEY_LEN as nat)
}

/// A plaintext of `len` bytes can be sealed: AES-GCM takes it, and its
/// framed sealing fits in memory to be encoded.
pub open spec fn sealable_len(len: int) -> bool {
    len <= MAX_PLAINTEXT && len + NONCE_LEN + TAG_LEN <= usize::MAX / 2
}

/// The blob that sealing `plaintext` under `key` with `nonce` gives.
pub open spec fn blob_of(key: Seq<u8>, nonce: Seq<u8>, plaintext: Seq<char>) -> Seq<char> {
    base64_of(nonce + aes256gcm_seal_of(key, nonce, encode_utf8(plaintext)))
}

/// The sealed part (ciphertext and tag) is the plaintext's UTF-8 length
/// plus the tag.
pub open spec fn sealed_len_ok(key: Seq<u8>, nonce: Seq<u8>, plaintext: Seq<char>) -> bool {
    aes256gcm_seal_of(key, nonce, encode_utf8(plaintext)).len() == encode_utf8(plaintext).len()
        + TAG_LEN
}

/// `text` is a sealing of `plaintext` under `key`, with some nonce: the
/// base64 text of the 12-byte nonce followed by the ciphertext and tag,
/// `TAG_LEN` bytes longer than the plaintext's UTF-8 bytes.
pub open spec fn is_sealing(key: Seq<u8>, text: Seq<char>, plaintext: Seq<char>) -> bool {
    &&& sealable_len(encode_utf8(plaintext).len() as int)
    &&& exists|nonce: Seq<u8>|
        nonce.len() == NONCE_LEN && #[trigger] blob_of(key, nonce, plaintext) == text
            && sealed_len_ok(key, nonce, plaintext)
}

/// The bytes that `text` is the base64 encoding of, if any.
pub open spec fn decoded(text: Seq<char>) -> Option<Seq<u8>> {
    if exists|b: Seq<u8>| #[trigger] base64_of(b) == text {
        Some(choose|b: Seq<u8>| #[trigger] base64_of(b) == text)
    } else {
        None
    }
}

/// The plaintext that `sealed` is the sealing of under `key` and `nonce`,
/// if any.
pub open spec fn opened(key: Seq<u8>, nonce: Seq<u8>, sealed: Seq<u8>) -> Option<Seq<u8>> {
    if exists|p: Seq<u8>| p.len() <= MAX_PLAINTEXT && #[trigger] aes256gcm_seal_of(key, nonce, p) == sealed {
        Some(choose|p: Seq<u8>| p.len() <= MAX_PLAINTEXT && #[trigger] aes256gcm_seal_of(key, nonce, p) == sealed)
    } else {
        None
    }
}

/// What decrypting `text` under `key` comes to.
pub open spec fn decrypt_outcome(key: Seq<u8>, text: Seq<char>) -> Result<Seq<char>, CipherError> {
    match decoded(text) {
        None => Err(CipherError::MalformedCiphertext),
        Some(d) => if d.len() < NONCE_LEN {
            Err(CipherError::MalformedCiphertext)
        } else {
            if d.len() - NONCE_LEN > MAX_PLAINTEXT + TAG_LEN {
                Err(CipherError::AuthenticationFailed)
            } else {
            match opened(key, d.take(NONCE_LEN as int), d.skip(NONCE_LEN as int)) {
                None => Err(CipherError::AuthenticationFailed),
                Some(p) => if valid_utf8(p) {
                    Ok(decode_utf8(p))
                } else {
                    Err(CipherError::EncodingError)
                },
            }
            }
        },
    }
}

/// The view of a text result.
pub open spec fn text_result<E>(r: Result<String, E>) -> Result<Seq<char>, E> {
    match r {
        Ok(s) => Ok(s@),
        Err(e) => Err(e),
    }
}

/// What a cipher engine holds: its key, and the salt it was derived with.
pub ghost struct CryptoView {
    pub key: Seq<u8>,
    pub salt: Seq<u8>,
}

/// A cipher engine keyed from a master password.
pub struct Crypto {
    key: Vec<u8>,
    salt: Vec<u8>,
}

impl View for Crypto {
    type V = CryptoView;

    closed spec fn view(&self) -> CryptoView {
        CryptoView { key: self.key@, salt: self.salt@ }
    }
}

impl Crypto {
    pub closed spec fn wf(&self) -> bool {
        self.key@.len() == KEY_LEN
    }

    /// An engine whose key is stretched from `master_password` under `salt`.
    pub fn with_salt(master_password: &str, salt: &[u8]) -> (r: Crypto)
        ensures
            r.wf(),
            r@.key == derived_key(master_password@, salt@),
            r@.salt == salt@,
    {
        let mut key: Vec<u8> = vec![0u8; KEY_LEN];
        pbkdf2_sha256(master_password.as_bytes(), salt, KDF_ROUNDS, &mut key);
        Crypto { key, salt: slice_to_vec(salt) }
    }

    /// An engine keyed from `master_password` under a fresh random salt;
    /// fails only where the system has no randomness to give.
    pub fn new(master_password: &str) -> (r: Result<Crypto, CipherError>)
        ensures
            r matches Ok(c) ==> c.wf() && c@.salt.len() == SALT_LEN && c@.key == derived_key(
                master_password@,
                c@.salt,
            ),
            r matches Err(e) ==> e == CipherError::EncryptionError,
    {
        let mut salt: Vec<u8> = vec![0u8; SALT_LEN];
        if !fill_from_os(&mut salt) {
            return Err(CipherError::EncryptionError);
        }
        Ok(Crypto::with_salt(master_password, salt.as_slice()))
    }

    /// The salt that the key was derived with.
    pub fn salt(&self) -> (r: &[u8])
        ensures
            r@ == self@.salt,
    {
        self.salt.as_slice()
    }
    /// Seals `plaintext` with the given nonce: the base64 text of
    /// `nonce ‖ ciphertext ‖ tag`. A nonce must never seal twice under one
    /// key; `encrypt` draws a fresh one for each call.
    pub fn encrypt_with_nonce(&self, plaintext: &str, nonce: Vec<u8>) -> (r: Result<String, CipherError>)
        requires
            self.wf(),
            nonce@.len() == NONCE_LEN,
        ensures
            r is Ok <==> sealable_len(encode_utf8(plaintext@).len() as int),
            r matches Ok(t) ==> t@ == blob_of(self@.key, nonce@, plaintext@) && sealed_len_ok(
                self@.key,
                nonce@,
                plaintext@,
            ),
            r matches Err(e) ==> e == CipherError::EncryptionError,
    {
        match aes256gcm_seal(self.key.as_slice(), nonce.as_slice(), plaintext.as_bytes()) {
            Ok(sealed) => {
                let mut framed = nonce;
                let mut sealed = sealed;
                if sealed.len() > usize::MAX / 2 - NONCE_LEN {
                    return Err(CipherError::EncryptionError);
                }
                framed.append(&mut sealed);
                Ok(base64_encode(framed.as_slice()))
            },
            Err(_) => Err(CipherError::EncryptionError),
        }
    }

    /// Seals `plaintext` under a fresh random nonce: the base64 text of
    /// `nonce ‖ ciphertext ‖ tag`. Two sealings of one text differ in their
    /// nonce, yet both open to it.
    pub fn encrypt(&self, plaintext: &str) -> (r: Result<String, CipherError>)
        requires
            self.wf(),
        ensures
            r matches Ok(t) ==> is_sealing(self@.key, t@, plaintext@),
            r matches Err(e) ==> e == CipherError::EncryptionError,
            !sealable_len(encode_utf8(plaintext@).len() as int) ==> r is Err,
    {
        let mut nonce: Vec<u8> = vec![0u8; NONCE_LEN];
        if !fill_from_os(&mut nonce) {
            return Err(CipherError::EncryptionError);
        }
        let ghost n = nonce@;
        let r = self.encrypt_with_nonce(plaintext, nonce);
        proof {
            if r is Ok {
                assert(blob_of(self@.key, n, plaintext@) == r->Ok_0@);
            }
        }
        r
    }

    /// Opens a blob that `encrypt` made under the same key.
    pub fn decrypt(&self, encrypted: &str) -> (r: Result<String, CipherError>)
        requires
            self.wf(),
        ensures
            text_result(r) == decrypt_outcome(self@.key, encrypted@),
            forall|p: Seq<char>|
                #[trigger] is_sealing(self@.key, encrypted@, p) ==> text_result(r) == Ok::<
                    Seq<char>,
                    CipherError,
                >(p),
    {
        let ghost key = self@.key;
        let ghost text = encrypted@;
        let data = match base64_decode(encrypted) {
            Ok(d) => d,
            Err(_) => {
                proof {
                    assert forall|p: Seq<char>| !#[trigger] is_sealing(key, text, p) by {
                        if is_sealing(key, text, p) {
                            let n = choose|n: Seq<u8>|
                                n.len() == NONCE_LEN && #[trigger] blob_of(key, n, p) == text && sealed_len_ok(key, n, p);
                            assert(base64_of(n + aes256gcm_seal_of(key, n, encode_utf8(p))) == text);
                        }
                    }
                }
                return Err(CipherError::MalformedCiphertext);
            },
        };
        assert(decoded(text) == Some(data@));
        proof {
            assert forall|p: Seq<char>| #[trigger] is_sealing(key, text, p) implies data@ == {
                let n = choose|n: Seq<u8>| n.len() == NONCE_LEN && #[trigger] blob_of(key, n, p) == text && sealed_len_ok(key, n, p);
                n + aes256gcm_seal_of(key, n, encode_utf8(p))
            } by {
                let n = choose|n: Seq<u8>| n.len() == NONCE_LEN && #[trigger] blob_of(key, n, p) == text && sealed_len_ok(key, n, p);
                assert(base64_of(n + aes256gcm_seal_of(key, n, encode_utf8(p))) == text);
            }
        }
        if data.len() < NONCE_LEN {
            return Err(CipherError::MalformedCiphertext);
        }
        let nonce = slice_subrange(data.as_slice(), 0, NONCE_LEN);
        let sealed = slice_subrange(data.as_slice(), NONCE_LEN, data.len());
        assert(nonce@ == data@.take(NONCE_LEN as int));
        assert(sealed@ == data@.skip(NONCE_LEN as int));
        proof {
            assert forall|p: Seq<char>| #[trigger] is_sealing(key, text, p) implies nonce@ + sealed@ == data@
                && aes256gcm_seal_of(key, nonce@, encode_utf8(p)) == sealed@ && sealed@.len()
                <= MAX_PLAINTEXT + TAG_LEN by {
                let n = choose|n: Seq<u8>| n.len() == NONCE_LEN && #[trigger] blob_of(key, n, p) == text && sealed_len_ok(key, n, p);
                let full = n + aes256gcm_seal_of(key, n, encode_utf8(p));
                assert(full.take(NONCE_LEN as int) == n);
                assert(full.skip(NONCE_LEN as int) == aes256gcm_seal_of(key, n, encode_utf8(p)));
            }
        }
        if sealed.len() as u64 > MAX_PLAINTEXT + TAG_LEN as u64 {
            return Err(CipherError::AuthenticationFailed);
        }
        let plain = match aes256gcm_open(self.key.as_slice(), nonce, sealed) {
            Ok(p) => p,
            Err(_) => {
                assert(opened(key, nonce@, sealed@) is None);
                return Err(CipherError::AuthenticationFailed);
            },
        };
        assert(opened(key, nonce@, sealed@) == Some(plain@));
        match string_from_utf8(plain) {
            Ok(s) => Ok(s),
            Err(_) => Err(CipherError::EncodingError),
        }
    }
}

} // verus!
