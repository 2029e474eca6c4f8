//! The portal handshake's authentication payload: a triple-DES (ECB, PKCS#7)
//! encryption of the device identity under a key taken from the password's
//! MD5 digest, written as uppercase hex.

use vstd::prelude::*;
use vstd::utf8::encode_utf8;
use rand::Rng;
use des::cipher::block_padding::Pkcs7;
use des::cipher::{BlockEncryptMut, KeyInit};
use crate::text::{append_chars, chars_of, decimal, decimal_chars, string_of};

verus! {

/// The MD5 digest of a byte string.
pub uninterp spec fn md5_of(data: Seq<u8>) -> Seq<u8>;

/// The triple-DES (EDE, three keys) ECB encryption of `data`, PKCS#7 padded,
/// under the 24-byte `key`.
pub uninterp spec fn tdes_ecb_pkcs7_of(key: Seq<u8>, data: Seq<u8>) -> Seq<u8>;

/// The uppercase hex digit of a value below sixteen.
pub open spec fn hex_digit(n: nat) -> char {
    if n < 10 {
        (('0' as u32) + n) as char
    } else {
        (('A' as u32) + (n - 10)) as char
    }
}

/// Two uppercase hex digits per byte, high nibble first.
pub open spec fn upper_hex(b: Seq<u8>) -> Seq<char>
    decreases b.len(),
{
    if b.len() == 0 {
        Seq::empty()
    } else {
        upper_hex(b.drop_last()) + seq![
            hex_digit((b.last() / 16) as nat),
            hex_digit((b.last() % 16) as nat),
        ]
    }
}

/// Relies on `md5::compute`: the 16-byte MD5 digest of `data`.
#[verifier::external_body]
fn md5_digest(data: &[u8]) -> (r: Vec<u8>)
    ensures
        r@ == md5_of(data@),
        r@.len() == 16,
{
    md5::compute(data).0.to_vec()
}

/// Relies on `hex::encode_upper`: each byte as two uppercase hex digits.
#[verifier::external_body]
fn hex_upper(data: &[u8]) -> (r: String)
    ensures
        r@ == upper_hex(data@),
{
    hex::encode_upper(data)
}

/// Relies on `ecb::Encryptor::<des::TdesEde3>` (`new_from_slice`, which
/// accepts exactly 24 key bytes, and `encrypt_padded_vec_mut::<Pkcs7>`): the
/// padded ciphertext, a whole number of 8-byte blocks, one more than the
/// whole blocks of `data`.
#[verifier::external_body]
fn tdes_ecb_encrypt(key: &[u8], data: &[u8]) -> (r: Vec<u8>)
    requires
        key@.len() == 24,
    ensures
        r@ == tdes_ecb_pkcs7_of(key@, data@),
        r@.len() == (data@.len() / 8 + 1) * 8,
{
    match ecb::Encryptor::<des::TdesEde3>::new_from_slice(key) {
        Ok(enc) => enc.encrypt_padded_vec_mut::<Pkcs7>(data),
        Err(_) => Vec::new(),
    }
}

/// Relies on `rand::thread_rng().gen_range(0..10000000)`: a number below ten million.
#[verifier::external_body]
fn random_nonce() -> (r: u32)
    ensures
        r < 10000000,
{
    rand::thread_rng().gen_range(0..10000000u32)
}

proof fn lemma_upper_hex_len(b: Seq<u8>)
    ensures
        upper_hex(b).len() == 2 * b.len(),
        forall|k: int| 0 <= k < upper_hex(b).len() ==> (#[trigger] upper_hex(b)[k] as u32) < 128,
    decreases b.len(),
{
    if b.len() > 0 {
        lemma_upper_hex_len(b.drop_last());
        let h = upper_hex(b);
        let p = upper_hex(b.drop_last());
        assert forall|k: int| 0 <= k < h.len() implies (#[trigger] h[k] as u32) < 128 by {
            if k < p.len() {
                assert(h[k] == p[k]);
            }
        }
    }
}

/// Each character as the byte of its code (the characters here are ASCII).
pub open spec fn ascii_bytes(s: Seq<char>) -> Seq<u8> {
    s.map_values(|c: char| (c as u32) as u8)
}

/// The key text: the first 24 characters of the uppercase hex MD5 digest of
/// the password's UTF-8 bytes.
pub open spec fn key_text(password: Seq<char>) -> Seq<char> {
    upper_hex(md5_of(encode_utf8(password))).take(24)
}

/// The cipher key: the key text's characters themselves, as bytes.
pub open spec fn auth_key(password: Seq<char>) -> Seq<u8> {
    ascii_bytes(key_text(password))
}

/// The cipher key made from a digest: the bytes of the first 24 characters
/// of its uppercase hex form.
pub fn key_from_digest(digest: &[u8]) -> (r: Vec<u8>)
    requires
        digest@.len() >= 12,
    ensures
        r@ == ascii_bytes(upper_hex(digest@).take(24)),
        r@.len() == 24,
{
    let hex = hex_upper(digest);
    let h = chars_of(hex.as_str());
    proof {
        lemma_upper_hex_len(digest@);
    }
    let mut key: Vec<u8> = Vec::new();
    let mut k: usize = 0;
    while k < 24
        invariant
            k <= 24,
            h@ == upper_hex(digest@),
            h@.len() >= 24,
            key@ == ascii_bytes(h@.take(k as int)),
        decreases 24 - k,
    {
        let c = h[k];
        key.push((c as u32) as u8);
        k = k + 1;
        assert(key@ =~= ascii_bytes(h@.take(k as int)));
    }
    key
}

/// The cipher key of a password: the bytes of the first 24 characters of the
/// uppercase hex MD5 digest of the password.
pub fn derive_key(password: &str) -> (r: Vec<u8>)
    ensures
        r@ == auth_key(password@),
        r@.len() == 24,
{
    let digest = md5_digest(password.as_bytes());
    key_from_digest(digest.as_slice())
}

/// The device identity that the handshake presents, and the optional network
/// interface to which outbound connections are bound.
pub struct Credentials {
    pub user: String,
    pub passwd: String,
    pub mac: String,
    pub imei: String,
    pub address: String,
    pub interface: Option<String>,
}

/// `<nonce>$<token>$<user>$<imei>$<ip>$<mac>$$CTC`.
pub open spec fn payload_of(
    nonce: nat,
    token: Seq<char>,
    user: Seq<char>,
    imei: Seq<char>,
    ip: Seq<char>,
    mac: Seq<char>,
) -> Seq<char> {
    decimal(nonce) + seq!['$'] + token + seq!['$'] + user + seq!['$'] + imei + seq!['$'] + ip
        + seq!['$'] + mac + seq!['$', '$', 'C', 'T', 'C']
}

/// The plaintext of the authentication payload.
pub fn auth_payload(nonce: u32, token: &str, user: &str, imei: &str, ip: &str, mac: &str) -> (r: String)
    ensures
        r@ == payload_of(nonce as nat, token@, user@, imei@, ip@, mac@),
{
    let mut out = decimal_chars(nonce as u64);
    out.push('$');
    append_chars(&mut out, chars_of(token).as_slice());
    out.push('$');
    append_chars(&mut out, chars_of(user).as_slice());
    out.push('$');
    append_chars(&mut out, chars_of(imei).as_slice());
    out.push('$');
    append_chars(&mut out, chars_of(ip).as_slice());
    out.push('$');
    append_chars(&mut out, chars_of(mac).as_slice());
    out.push('$');
    out.push('$');
    out.push('C');
    out.push('T');
    out.push('C');
    assert(out@ =~= payload_of(nonce as nat, token@, user@, imei@, ip@, mac@));
    string_of(out.as_slice())
}

/// The `authinfo` that the token request carries, for a given nonce.
pub open spec fn auth_info_of(
    password: Seq<char>,
    nonce: nat,
    token: Seq<char>,
    user: Seq<char>,
    imei: Seq<char>,
    ip: Seq<char>,
    mac: Seq<char>,
) -> Seq<char> {
    upper_hex(
        tdes_ecb_pkcs7_of(
            auth_key(password),
            encode_utf8(payload_of(nonce, token, user, imei, ip, mac)),
        ),
    )
}

/// The encrypted authentication payload for `token`, with the given nonce.
pub fn derive_auth_info(creds: &Credentials, token: &str, nonce: u32) -> (r: String)
    ensures
        r@ == auth_info_of(
            creds.passwd@,
            nonce as nat,
            token@,
            creds.user@,
            creds.imei@,
            creds.address@,
            creds.mac@,
        ),
{
    let key = derive_key(creds.passwd.as_str());
    let payload = auth_payload(
        nonce,
        token,
        creds.user.as_str(),
        creds.imei.as_str(),
        creds.address.as_str(),
        creds.mac.as_str(),
    );
    let sealed = tdes_ecb_encrypt(key.as_slice(), payload.as_str().as_bytes());
    hex_upper(sealed.as_slice())
}

/// The encrypted authentication payload for `token`, with a fresh random nonce.
pub fn make_auth_info(creds: &Credentials, token: &str) -> (r: String)
    ensures
        exists|n: nat|
            n < 10000000 && r@ == #[trigger] auth_info_of(
                creds.passwd@,
                n,
                token@,
                creds.user@,
                creds.imei@,
                creds.address@,
                creds.mac@,
            ),
{
    let nonce = random_nonce();
    derive_auth_info(creds, token, nonce)
}

} // verus!
