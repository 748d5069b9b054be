//! O5LOGON with the 12c password verifier (PBKDF2-SHA512 + AES-256-CBC), the
//! server side of what thin drivers implement in `encryptDecrypt`.
//!
//! Phase one: the server sends a random session key encrypted with a key derived
//! from the password. Phase two: the client proves it could decrypt it by sending
//! its own session key and the password encrypted with the combined key, and the
//! server proves the same back with `AUTH_SVR_RESPONSE`.

use aes::cipher::block_padding::NoPadding;
use aes::cipher::generic_array::GenericArray;
use aes::cipher::{BlockDecryptMut, BlockEncryptMut, KeyIvInit};
use rand::RngCore;
use sha2::{Digest, Sha512};
use vstd::prelude::*;
use vstd::string::*;
use vstd::utf8::*;

use crate::text;

verus! {

pub const VERIFIER_TYPE_12C: u32 = 0x4815;

pub const VGEN_COUNT: u32 = 4096;

pub const SDER_COUNT: u32 = 3;

/// What the generation of the verifier's key is salted with, behind the salt.
pub const SPEEDY_KEY: &'static str = "AUTH_PBKDF2_SPEEDY_KEY";

/// What the server's answer ends with.
pub const SERVER_TO_CLIENT: &'static str = "SERVER_TO_CLIENT";

/// PBKDF2 with HMAC-SHA512.
pub uninterp spec fn derived(
    password: Seq<u8>,
    salt: Seq<u8>,
    rounds: u32,
    length: int,
) -> Seq<u8>;

/// SHA-512.
pub uninterp spec fn sha512(data: Seq<u8>) -> Seq<u8>;

/// AES-256-CBC with a zero IV and no padding.
pub uninterp spec fn sealed(key: Seq<u8>, data: Seq<u8>) -> Seq<u8>;

/// What AES-256-CBC with a zero IV and no padding decrypts data to.
pub uninterp spec fn opened(key: Seq<u8>, data: Seq<u8>) -> Seq<u8>;

/// `pbkdf2::pbkdf2_hmac` over SHA-512: fills the key that the password is
/// derived to.
#[verifier::external_body]
fn derive_key(password: &[u8], salt: &[u8], rounds: u32, length: usize) -> (r: Vec<u8>)
    requires
        1 <= length <= 64,
        rounds >= 1,
    ensures
        r@ == derived(password@, salt@, rounds, length as int),
        r@.len() == length,
{
    let mut key = vec![0u8; length];
    pbkdf2::pbkdf2_hmac::<Sha512>(password, salt, rounds, &mut key);
    key
}

/// `Sha512::digest`: the 64 bytes of the hash.
#[verifier::external_body]
fn hash(data: &[u8]) -> (r: Vec<u8>)
    ensures
        r@ == sha512(data@),
        r@.len() == 64,
{
    Sha512::digest(data).to_vec()
}

/// `encrypt_padded_vec_mut` of `cbc::Encryptor<aes::Aes256>` with a zero IV and
/// no padding. It gives as many bytes as it gets, and they decrypt to those.
#[verifier::external_body]
fn encrypt(key: &[u8], data: &[u8]) -> (r: Vec<u8>)
    requires
        key@.len() == 32,
        data@.len() % 16 == 0,
    ensures
        r@ == sealed(key@, data@),
        r@.len() == data@.len(),
        opened(key@, r@) == data@,
{
    cbc::Encryptor::<aes::Aes256>::new(GenericArray::from_slice(key), &[0u8; 16].into())
        .encrypt_padded_vec_mut::<NoPadding>(data)
}

/// `decrypt_padded_vec_mut` of `cbc::Decryptor<aes::Aes256>` with a zero IV and
/// no padding. It gives as many bytes as it gets, and they encrypt to those.
#[verifier::external_body]
fn decrypt(key: &[u8], data: &[u8]) -> (r: Vec<u8>)
    requires
        key@.len() == 32,
        data@.len() % 16 == 0,
    ensures
        r@ == opened(key@, data@),
        r@.len() == data@.len(),
        sealed(key@, r@) == data@,
{
    cbc::Decryptor::<aes::Aes256>::new(GenericArray::from_slice(key), &[0u8; 16].into())
        .decrypt_padded_vec_mut::<NoPadding>(data)
        .expect("block-aligned input")
}

/// `RngCore::fill_bytes` of `rand::thread_rng`: as many bytes as asked for,
/// whichever they are.
#[verifier::external_body]
fn random_bytes(n: usize) -> (r: Vec<u8>)
    ensures
        r@.len() == n,
{
    let mut bytes = vec![0u8; n];
    rand::thread_rng().fill_bytes(&mut bytes);
    bytes
}

/// A hexadecimal digit in upper case.
pub open spec fn hex_digit(n: int) -> char {
    if n < 10 {
        (48 + n) as u8 as char
    } else {
        (55 + n) as u8 as char
    }
}

/// Bytes in hexadecimal, in upper case.
pub open spec fn hex_text(b: Seq<u8>) -> Seq<char> {
    Seq::new(
        2 * b.len(),
        |i: int|
            hex_digit(
                if i % 2 == 0 {
                    b[i / 2] as int / 16
                } else {
                    b[i / 2] as int % 16
                },
            ),
    )
}

/// What a hexadecimal digit in either case stands for.
pub open spec fn hex_value(c: char) -> Option<int> {
    if '0' <= c <= '9' {
        Some(c as u32 - 48)
    } else if 'A' <= c <= 'F' {
        Some(c as u32 - 55)
    } else if 'a' <= c <= 'f' {
        Some(c as u32 - 87)
    } else {
        None
    }
}

/// The bytes that a text in hexadecimal stands for.
pub open spec fn hex_bytes(s: Seq<char>) -> Option<Seq<u8>> {
    if s.len() % 2 == 0 && forall|i: int| 0 <= i < s.len() ==> hex_value(#[trigger] s[i]) is Some {
        Some(
            Seq::new(
                s.len() / 2,
                |i: int| (hex_value(s[2 * i])->0 * 16 + hex_value(s[2 * i + 1])->0) as u8,
            ),
        )
    } else {
        None
    }
}

/// `hex::encode_upper`: two digits in upper case for each byte.
#[verifier::external_body]
fn encode_hex(b: &[u8]) -> (r: String)
    ensures
        r@ == hex_text(b@),
{
    hex::encode_upper(b)
}

/// `hex::decode`: the bytes of a text in hexadecimal, digits in either case; an
/// error for an odd number of digits or another character.
#[verifier::external_body]
fn decode_hex(s: &str) -> (r: Option<Vec<u8>>)
    ensures
        match r {
            Some(b) => hex_bytes(s@) == Some(b@),
            None => hex_bytes(s@) is None,
        },
{
    hex::decode(s).ok()
}

/// Server-side state between the two login phases.
pub struct Challenge {
    csk_salt: Vec<u8>,
    password_hash: Vec<u8>,
    server_key: Vec<u8>,
}

/// What a challenge holds.
pub struct Secrets {
    pub csk_salt: Seq<u8>,
    pub password_hash: Seq<u8>,
    pub server_key: Seq<u8>,
}

/// The key/value pairs sent to the client in the phase-one response.
pub struct PhaseOne {
    pub sesskey: String,
    pub vfr_data: String,
    pub csk_salt: String,
    pub vgen_count: String,
    pub sder_count: String,
}

pub enum LoginError {
    InvalidCredentials,
    Protocol(&'static str),
}

/// Why a login fails.
pub enum Refusal {
    InvalidCredentials,
    Protocol(Seq<char>),
}

impl View for LoginError {
    type V = Refusal;

    open spec fn view(&self) -> Refusal {
        match self {
            LoginError::InvalidCredentials => Refusal::InvalidCredentials,
            LoginError::Protocol(m) => Refusal::Protocol(m@),
        }
    }
}

/// The key that a password and the verifier's salt give.
pub open spec fn password_key(password: Seq<char>, verifier_salt: Seq<u8>) -> Seq<u8> {
    let key = derived(
        encode_utf8(password),
        verifier_salt + encode_utf8(SPEEDY_KEY@),
        VGEN_COUNT,
        64,
    );
    sha512(key + verifier_salt).take(32)
}

/// The challenge that a password and random bytes make.
pub open spec fn secrets_of(
    password: Seq<char>,
    verifier_salt: Seq<u8>,
    csk_salt: Seq<u8>,
    server_key: Seq<u8>,
) -> Secrets {
    Secrets { csk_salt, password_hash: password_key(password, verifier_salt), server_key }
}

/// Whether a response tells the client what it needs of a challenge.
pub open spec fn announces(reply: PhaseOne, s: Secrets, verifier_salt: Seq<u8>) -> bool {
    &&& reply.sesskey@ == hex_text(sealed(s.password_hash, s.server_key))
    &&& reply.vfr_data@ == hex_text(verifier_salt)
    &&& reply.csk_salt@ == hex_text(s.csk_salt)
    &&& reply.vgen_count@ == text::decimal(VGEN_COUNT as nat)
    &&& reply.sder_count@ == text::decimal(SDER_COUNT as nat)
}

/// The key that the client's and the server's session keys are combined to.
pub open spec fn combined_key(s: Secrets, client_key: Seq<u8>) -> Seq<u8> {
    derived(
        encode_utf8(hex_text(client_key + s.server_key)),
        s.csk_salt,
        SDER_COUNT,
        32,
    )
}

/// Whether a decrypted block holds a password: behind 16 bytes of salt and in
/// front of as many bytes of padding as the last byte says.
pub open spec fn holds_password(plain: Seq<u8>, password: Seq<char>) -> bool {
    let pad = plain.last() as int;
    1 <= pad <= 16 && plain.len() >= 16 + pad && plain.subrange(16, plain.len() - pad)
        == encode_utf8(password)
}

/// Whether the client's values prove that it knows the password: the combined
/// key when they do.
pub open spec fn checked(
    s: Secrets,
    client_sesskey: Seq<char>,
    encrypted_password: Seq<char>,
    password: Seq<char>,
) -> Result<Seq<u8>, Refusal> {
    match hex_bytes(client_sesskey) {
        None => Err(Refusal::Protocol("AUTH_SESSKEY is not hex"@)),
        Some(k) => if k.len() != 32 {
            Err(Refusal::Protocol("AUTH_SESSKEY has the wrong length"@))
        } else {
            let key = combined_key(s, opened(s.password_hash, k));
            match hex_bytes(encrypted_password) {
                None => Err(Refusal::InvalidCredentials),
                Some(p) => if p.len() < 32 || p.len() % 16 != 0 || !holds_password(
                    opened(key, p),
                    password,
                ) {
                    Err(Refusal::InvalidCredentials)
                } else {
                    Ok(key)
                },
            }
        },
    }
}

/// The server's proof that it holds the combined key.
pub open spec fn response_text(key: Seq<u8>, salt: Seq<u8>) -> Seq<char> {
    hex_text(sealed(key, salt + encode_utf8(SERVER_TO_CLIENT@)))
}

fn same_bytes(a: &[u8], b: &[u8]) -> (r: bool)
    ensures
        r == (a@ == b@),
{
    if a.len() != b.len() {
        return false;
    }
    for i in 0..a.len()
        invariant
            a@.len() == b@.len(),
            forall|k: int| 0 <= k < i ==> a@[k] == b@[k],
    {
        if a[i] != b[i] {
            return false;
        }
    }
    assert(a@ =~= b@);
    true
}

fn copied(a: &[u8]) -> (r: Vec<u8>)
    ensures
        r@ == a@,
{
    let mut v: Vec<u8> = Vec::new();
    v.extend_from_slice(a);
    assert(v@ =~= a@);
    v
}

fn appended(a: &[u8], b: &[u8]) -> (r: Vec<u8>)
    ensures
        r@ == a@ + b@,
{
    let mut v: Vec<u8> = Vec::new();
    v.extend_from_slice(a);
    v.extend_from_slice(b);
    assert(v@ =~= a@ + b@);
    v
}

impl View for Challenge {
    type V = Secrets;

    closed spec fn view(&self) -> Secrets {
        Secrets {
            csk_salt: self.csk_salt@,
            password_hash: self.password_hash@,
            server_key: self.server_key@,
        }
    }
}

impl Challenge {
    #[verifier::type_invariant]
    spec fn inv(self) -> bool {
        self.csk_salt@.len() == 16 && self.password_hash@.len() == 32 && self.server_key@.len()
            == 32
    }

    /// A challenge with fresh random bytes.
    pub fn new(password: &str) -> (r: (Challenge, PhaseOne))
        ensures
            exists|verifier_salt: Seq<u8>, csk_salt: Seq<u8>, server_key: Seq<u8>|
                verifier_salt.len() == 16 && csk_salt.len() == 16 && server_key.len() == 32
                    && r.0@ == #[trigger] secrets_of(
                    password@,
                    verifier_salt,
                    csk_salt,
                    server_key,
                ) && announces(r.1, r.0@, verifier_salt),
    {
        let verifier_salt = random_bytes(16);
        let csk_salt = random_bytes(16);
        let server_key = random_bytes(32);
        Challenge::with(password, &verifier_salt, &csk_salt, &server_key)
    }

    /// The challenge that given bytes make.
    pub fn with(
        password: &str,
        verifier_salt: &[u8],
        csk_salt: &[u8],
        server_key: &[u8],
    ) -> (r: (Challenge, PhaseOne))
        requires
            verifier_salt@.len() == 16,
            csk_salt@.len() == 16,
            server_key@.len() == 32,
        ensures
            r.0@ == secrets_of(password@, verifier_salt@, csk_salt@, server_key@),
            announces(r.1, r.0@, verifier_salt@),
    {
        let salt = appended(verifier_salt, SPEEDY_KEY.as_bytes());
        let key = derive_key(password.as_bytes(), &salt, VGEN_COUNT, 64);
        let mut password_hash = hash(&appended(&key, verifier_salt));
        password_hash.truncate(32);
        let csk_salt = copied(csk_salt);
        let server_key = copied(server_key);
        let reply = PhaseOne {
            sesskey: encode_hex(&encrypt(&password_hash, &server_key)),
            vfr_data: encode_hex(verifier_salt),
            csk_salt: encode_hex(&csk_salt),
            vgen_count: text::decimal_text(VGEN_COUNT as u64),
            sder_count: text::decimal_text(SDER_COUNT as u64),
        };
        (Challenge { csk_salt, password_hash, server_key }, reply)
    }

    /// Checks the client's phase-two values. On success returns the value of
    /// `AUTH_SVR_RESPONSE`.
    pub fn verify(
        &self,
        client_sesskey: &str,
        encrypted_password: &str,
        password: &str,
    ) -> (r: Result<String, LoginError>)
        ensures
            match checked(self@, client_sesskey@, encrypted_password@, password@) {
                Ok(key) => r is Ok && exists|salt: Seq<u8>|
                    salt.len() == 16 && r->Ok_0@ == #[trigger] response_text(key, salt)
                        && proves(r->Ok_0@, key),
                Err(e) => r is Err && r->Err_0@ == e,
            },
    {
        match self.check(client_sesskey, encrypted_password, password) {
            Ok(key) => {
                let salt = random_bytes(16);
                let answer = respond(&key, &salt);
                proof {
                    let c = checked(self@, client_sesskey@, encrypted_password@, password@);
                    assert(c is Ok);
                    assert(c->Ok_0 == key@);
                    assert(salt@.len() == 16 && answer@ == response_text(c->Ok_0, salt@));
                }
                Ok(answer)
            },
            Err(e) => Err(e),
        }
    }

    /// Checks the client's phase-two values. On success returns the combined key.
    pub fn check(
        &self,
        client_sesskey: &str,
        encrypted_password: &str,
        password: &str,
    ) -> (r: Result<Vec<u8>, LoginError>)
        ensures
            match r {
                Ok(key) => checked(self@, client_sesskey@, encrypted_password@, password@) == Ok::<
                    Seq<u8>,
                    Refusal,
                >(key@) && key@.len() == 32,
                Err(e) => checked(self@, client_sesskey@, encrypted_password@, password@) == Err::<
                    Seq<u8>,
                    Refusal,
                >(e@),
            },
    {
        proof {
            use_type_invariant(self);
        }
        let sesskey = match decode_hex(client_sesskey) {
            Some(k) => k,
            None => {
                return Err(LoginError::Protocol("AUTH_SESSKEY is not hex"));
            },
        };
        if sesskey.len() != 32 {
            return Err(LoginError::Protocol("AUTH_SESSKEY has the wrong length"));
        }
        let client_key = decrypt(&self.password_hash, &sesskey);
        let mixed = encode_hex(&appended(&client_key, &self.server_key));
        let key = derive_key(mixed.as_str().as_bytes(), &self.csk_salt, SDER_COUNT, 32);
        let sent = match decode_hex(encrypted_password) {
            Some(p) => p,
            None => {
                return Err(LoginError::InvalidCredentials);
            },
        };
        if sent.len() < 32 || sent.len() % 16 != 0 {
            return Err(LoginError::InvalidCredentials);
        }
        let plain = decrypt(&key, &sent);
        let len: usize = plain.len();
        let pad: usize = plain[len - 1] as usize;
        if pad == 0 || pad > 16 || len < 16 + pad {
            return Err(LoginError::InvalidCredentials);
        }
        if same_bytes(vstd::slice::slice_subrange(plain.as_slice(), 16, len - pad), password.as_bytes()) {
            Ok(key)
        } else {
            Err(LoginError::InvalidCredentials)
        }
    }
}

/// The value of `AUTH_SVR_RESPONSE` for a combined key.
pub fn respond(key: &[u8], salt: &[u8]) -> (r: String)
    requires
        key@.len() == 32,
        salt@.len() == 16,
    ensures
        r@ == response_text(key@, salt@),
        proves(r@, key@),
{
    proof {
        reveal_strlit("SERVER_TO_CLIENT");
        is_ascii_chars_encode_utf8(SERVER_TO_CLIENT@);
    }
    let plain = appended(salt, SERVER_TO_CLIENT.as_bytes());
    let sent = encrypt(key, &plain);
    proof {
        hex_round_trip(sent@);
        assert(plain@.skip(16) =~= encode_utf8(SERVER_TO_CLIENT@));
    }
    encode_hex(&sent)
}

/// Whether a text proves that who sent it holds a key: it is the hex of 32 bytes
/// that, opened with the key, end with the server's words.
pub open spec fn proves(response: Seq<char>, key: Seq<u8>) -> bool {
    match hex_bytes(response) {
        Some(sent) => sent.len() == 32 && opened(key, sent).skip(16) == encode_utf8(
            SERVER_TO_CLIENT@,
        ),
        None => false,
    }
}

proof fn hex_digit_value(n: int)
    requires
        0 <= n < 16,
    ensures
        hex_value(hex_digit(n)) == Some(n),
{
}

/// Bytes written in hexadecimal are read back.
pub proof fn hex_round_trip(b: Seq<u8>)
    ensures
        hex_bytes(hex_text(b)) == Some(b),
{
    let t = hex_text(b);
    assert forall|i: int| 0 <= i < t.len() implies hex_value(#[trigger] t[i]) is Some by {
        hex_digit_value(b[i / 2] as int / 16);
        hex_digit_value(b[i / 2] as int % 16);
    }
    assert forall|i: int| 0 <= i < b.len() implies (hex_value(#[trigger] t[2 * i])->0 * 16
        + hex_value(t[2 * i + 1])->0) as u8 == b[i] by {
        assert((2 * i) / 2 == i && (2 * i) % 2 == 0);
        assert((2 * i + 1) / 2 == i && (2 * i + 1) % 2 == 1);
        hex_digit_value(b[i] as int / 16);
        hex_digit_value(b[i] as int % 16);
    }
    assert(hex_bytes(t)->0 =~= b);
}

/// The right password is accepted: a client that sends a session key under the
/// password's key, and the password, padded, under the combined key, passes the
/// check, and both sides hold the same combined key.
pub proof fn the_right_password_is_accepted(
    s: Secrets,
    password: Seq<char>,
    client_key: Seq<u8>,
    salt: Seq<u8>,
    pad: u8,
    sesskey: Seq<u8>,
    sent: Seq<u8>,
)
    requires
        sesskey.len() == 32,
        opened(s.password_hash, sesskey) == client_key,
        salt.len() == 16,
        1 <= pad <= 16,
        sent.len() == 16 + encode_utf8(password).len() + pad,
        sent.len() % 16 == 0,
        opened(combined_key(s, client_key), sent) == salt + encode_utf8(password) + Seq::new(
            pad as nat,
            |i: int| pad,
        ),
    ensures
        checked(s, hex_text(sesskey), hex_text(sent), password) == Ok::<Seq<u8>, Refusal>(
            combined_key(s, client_key),
        ),
{
    hex_round_trip(sesskey);
    hex_round_trip(sent);
    let plain = opened(combined_key(s, client_key), sent);
    assert(plain.last() == pad);
    assert(plain.subrange(16, plain.len() - pad) =~= encode_utf8(password));
}

/// Another password is rejected: whatever a client sends that passes for one
/// password passes for no other.
pub proof fn a_wrong_password_is_rejected(
    s: Secrets,
    client_sesskey: Seq<char>,
    encrypted_password: Seq<char>,
    sent: Seq<char>,
    password: Seq<char>,
)
    requires
        checked(s, client_sesskey, encrypted_password, sent) is Ok,
        sent != password,
    ensures
        checked(s, client_sesskey, encrypted_password, password) == Err::<Seq<u8>, Refusal>(
            Refusal::InvalidCredentials,
        ),
{
    encode_utf8_decode_utf8(sent);
    encode_utf8_decode_utf8(password);
}

/// A session key that is not the hex of 32 bytes breaks the protocol, whatever the
/// password is.
pub proof fn a_malformed_session_key_is_a_protocol_error(
    s: Secrets,
    client_sesskey: Seq<char>,
    encrypted_password: Seq<char>,
    password: Seq<char>,
)
    requires
        hex_bytes(client_sesskey) is None || hex_bytes(client_sesskey)->0.len() != 32,
    ensures
        checked(s, client_sesskey, encrypted_password, password) is Err,
        checked(s, client_sesskey, encrypted_password, password)->Err_0 is Protocol,
{
}

} // verus!
