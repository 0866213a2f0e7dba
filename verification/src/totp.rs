//! The OTP derivation engine: the time counter, its big-endian encoding, the
//! dynamic truncation of the MAC, and the zero-padded decimal rendering. The
//! HMAC primitives and the Base32 decoding come from outside crates behind
//! trusted wrappers; everything around them is verified.
use vstd::prelude::*;

verus! {

use hmac::{KeyInit, Mac};
use crate::digits::{
    all_dec_digits,
    dec_digits,
    lemma_dec_digits_all_digits,
    lemma_dec_digits_len,
    lemma_pow10_monotone,
    lemma_pow10_u64_range,
    pow10,
    pow10_u64,
};
use crate::entry::{EntryView, HashFn, OtpEntry};

/// What HMAC-SHA-1 returns for a key and a message.
pub uninterp spec fn hmac_sha1_of(key: Seq<u8>, msg: Seq<u8>) -> Seq<u8>;

/// What HMAC-SHA-256 returns for a key and a message.
pub uninterp spec fn hmac_sha256_of(key: Seq<u8>, msg: Seq<u8>) -> Seq<u8>;

/// What HMAC-SHA-512 returns for a key and a message.
pub uninterp spec fn hmac_sha512_of(key: Seq<u8>, msg: Seq<u8>) -> Seq<u8>;

/// Relies on `hmac::Hmac<sha1::Sha1>`: the MAC is a function of key and
/// message alone, 20 bytes (SHA-1 output size) long, and keys of any length
/// are accepted (short keys are padded, long ones hashed first).
#[verifier::external_body]
fn hmac_sha1(key: &[u8], msg: &[u8]) -> (r: Vec<u8>)
    ensures
        r@ == hmac_sha1_of(key@, msg@),
        r@.len() == 20,
{
    let mut mac = <hmac::Hmac<sha1::Sha1> as KeyInit>::new_from_slice(key)
        .expect("HMAC accepts keys of any length");
    mac.update(msg);
    let out = mac.finalize().into_bytes();
    AsRef::<[u8]>::as_ref(&out).to_vec()
}

/// Relies on `hmac::Hmac<sha2::Sha256>`: as for SHA-1, with 32 output bytes.
#[verifier::external_body]
fn hmac_sha256(key: &[u8], msg: &[u8]) -> (r: Vec<u8>)
    ensures
        r@ == hmac_sha256_of(key@, msg@),
        r@.len() == 32,
{
    let mut mac = <hmac::Hmac<sha2::Sha256> as KeyInit>::new_from_slice(key)
        .expect("HMAC accepts keys of any length");
    mac.update(msg);
    let out = mac.finalize().into_bytes();
    AsRef::<[u8]>::as_ref(&out).to_vec()
}

/// Relies on `hmac::Hmac<sha2::Sha512>`: as for SHA-1, with 64 output bytes.
#[verifier::external_body]
fn hmac_sha512(key: &[u8], msg: &[u8]) -> (r: Vec<u8>)
    ensures
        r@ == hmac_sha512_of(key@, msg@),
        r@.len() == 64,
{
    let mut mac = <hmac::Hmac<sha2::Sha512> as KeyInit>::new_from_slice(key)
        .expect("HMAC accepts keys of any length");
    mac.update(msg);
    let out = mac.finalize().into_bytes();
    AsRef::<[u8]>::as_ref(&out).to_vec()
}

/// The MAC of the selected hash function.
pub open spec fn spec_hmac(alg: HashFn, key: Seq<u8>, msg: Seq<u8>) -> Seq<u8> {
    match alg {
        HashFn::Sha1 => hmac_sha1_of(key, msg),
        HashFn::Sha256 => hmac_sha256_of(key, msg),
        HashFn::Sha512 => hmac_sha512_of(key, msg),
    }
}

/// What `base32::decode` returns for a text under the unpadded RFC 4648
/// alphabet: `None` for text that is not valid Base32, the bytes otherwise.
pub uninterp spec fn b32_decode_of(s: Seq<char>) -> Option<Seq<u8>>;

/// Relies on `base32::decode` with `Alphabet::Rfc4648 { padding: false }`:
/// the result is a function of the input text alone.
#[verifier::external_body]
fn b32_decode(s: &str) -> (r: Option<Vec<u8>>)
    ensures
        match r {
            Some(v) => b32_decode_of(s@) == Some(v@),
            None => b32_decode_of(s@) is None,
        },
{
    base32::decode(base32::Alphabet::Rfc4648 { padding: false }, s)
}

/// Relies on `std::time::SystemTime::now`: seconds since the Unix epoch, or 0
/// should the clock read earlier than the epoch. Nothing is promised of the
/// value; callers state what holds for every time.
#[verifier::external_body]
fn now_unix_seconds() -> u64 {
    std::time::SystemTime::now().duration_since(std::time::UNIX_EPOCH).map(
        |d| d.as_secs(),
    ).unwrap_or(0)
}

/// The key material an entry derives from: its decoded secret, or no bytes at
/// all when the text is not valid Base32 (the menu must keep rendering).
pub open spec fn spec_key_of(secret: Seq<char>) -> Seq<u8> {
    match b32_decode_of(secret) {
        Some(k) => k,
        None => Seq::empty(),
    }
}

fn b32_decode_or_empty(s: &String) -> (r: Vec<u8>)
    ensures
        r@ == spec_key_of(s@),
{
    match b32_decode(s.as_str()) {
        Some(v) => v,
        None => Vec::new(),
    }
}

/// The eight bytes of `n`, most significant first.
pub open spec fn spec_be_bytes8(n: u64) -> Seq<u8> {
    seq![
        ((n >> 56) & 0xff) as u8,
        ((n >> 48) & 0xff) as u8,
        ((n >> 40) & 0xff) as u8,
        ((n >> 32) & 0xff) as u8,
        ((n >> 24) & 0xff) as u8,
        ((n >> 16) & 0xff) as u8,
        ((n >> 8) & 0xff) as u8,
        (n & 0xff) as u8,
    ]
}

fn be_bytes8(n: u64) -> (r: Vec<u8>)
    ensures
        r@ == spec_be_bytes8(n),
{
    let mut r: Vec<u8> = Vec::new();
    assert(((n >> 56) & 0xff) < 256 && ((n >> 48) & 0xff) < 256 && ((n >> 40) & 0xff) < 256 && ((n
        >> 32) & 0xff) < 256 && ((n >> 24) & 0xff) < 256 && ((n >> 16) & 0xff) < 256 && ((n >> 8)
        & 0xff) < 256 && (n & 0xff) < 256) by (bit_vector);
    r.push(((n >> 56) & 0xff) as u8);
    r.push(((n >> 48) & 0xff) as u8);
    r.push(((n >> 40) & 0xff) as u8);
    r.push(((n >> 32) & 0xff) as u8);
    r.push(((n >> 24) & 0xff) as u8);
    r.push(((n >> 16) & 0xff) as u8);
    r.push(((n >> 8) & 0xff) as u8);
    r.push((n & 0xff) as u8);
    assert(r@ =~= spec_be_bytes8(n));
    r
}

/// RFC 4226 dynamic truncation: a 4-bit offset from the low nibble of the
/// last MAC byte selects four bytes, read big-endian with the top bit masked.
pub open spec fn spec_dyn_trunc(mac: Seq<u8>) -> nat
    recommends
        mac.len() >= 20,
{
    let off = (mac.last() & 0x0f) as int;
    ((mac[off] & 0x7f) as nat) * 0x1000000 + (mac[off + 1] as nat) * 0x10000 + (mac[off + 2] as nat)
        * 0x100 + (mac[off + 3] as nat)
}

fn dyn_trunc(mac: &Vec<u8>) -> (r: u64)
    requires
        mac@.len() >= 20,
    ensures
        r == spec_dyn_trunc(mac@),
        r < 0x80000000,
{
    let last = mac[mac.len() - 1];
    let off = (last & 0x0f) as usize;
    assert((last & 0x0f) <= 0x0f) by (bit_vector);
    let top = mac[off];
    let b0 = top & 0x7f;
    assert((top & 0x7f) <= 0x7f) by (bit_vector);
    let b1 = mac[off + 1];
    let b2 = mac[off + 2];
    let b3 = mac[off + 3];
    (b0 as u64) * 0x1000000 + (b1 as u64) * 0x10000 + (b2 as u64) * 0x100 + (b3 as u64)
}

/// The code an entry shows at second `now`: the counter is the number of
/// whole time steps; its MAC is truncated, reduced modulo 10^digits, and
/// written as exactly `digits` decimal digits.
pub open spec fn spec_totp(alg: HashFn, key: Seq<u8>, step: u64, digits: u8, now: u64) -> Seq<char>
    recommends
        step >= 1,
{
    let counter = now / step;
    let mac = spec_hmac(alg, key, spec_be_bytes8(counter));
    dec_digits(spec_dyn_trunc(mac) % pow10(digits as nat), digits as nat)
}

/// The code of an entry at second `now`, including the decode of its secret.
pub open spec fn spec_entry_code(e: EntryView, now: u64) -> Seq<char>
    recommends
        e.step >= 1,
{
    spec_totp(e.hash_fn, spec_key_of(e.secret_hash), e.step, e.digit_count, now)
}

/// Codes are stable within one time-step window: any two seconds with the
/// same whole number of steps give the identical code string.
pub proof fn lemma_code_stable_in_window(e: EntryView, now1: u64, now2: u64)
    requires
        e.step >= 1,
        now1 / e.step == now2 / e.step,
    ensures
        spec_entry_code(e, now1) == spec_entry_code(e, now2),
{
}

/// A code is always exactly `digit_count` characters, all decimal digits.
pub proof fn lemma_code_shape(e: EntryView, now: u64)
    ensures
        spec_entry_code(e, now).len() == e.digit_count,
        all_dec_digits(spec_entry_code(e, now)),
{
    let mac = spec_hmac(e.hash_fn, spec_key_of(e.secret_hash), spec_be_bytes8(now / e.step));
    let v = spec_dyn_trunc(mac) % pow10(e.digit_count as nat);
    lemma_dec_digits_len(v, e.digit_count as nat);
    lemma_dec_digits_all_digits(v, e.digit_count as nat);
}

/// The value an OTP source renders in the menu: its name and current code.
pub struct OtpValue {
    pub name: String,
    pub otp: String,
}

impl OtpValue {
    /// The menu line for this value.
    pub fn formatted_menu_display(&self) -> (r: String)
        ensures
            r@ == self.name@ + ": "@ + self.otp@,
    {
        let mut out = self.name.clone();
        out.append(": ");
        out.append(self.otp.as_str());
        out
    }
}

impl OtpEntry {
    /// Compute the entry's code for second `now`. This must reproduce the
    /// standard time-based derivation exactly for each selectable hash
    /// function; a secret that is not valid Base32 degrades to empty key
    /// material rather than failing the render.
    pub fn derive_code(&self, now: u64) -> (r: String)
        requires
            self.step >= 1,
        ensures
            r@ == spec_entry_code(self@, now),
            r@.len() == self.digit_count,
            all_dec_digits(r@),
    {
        let key = b32_decode_or_empty(&self.secret_hash);
        let counter = now / self.step;
        let msg = be_bytes8(counter);
        let mac = match self.hash_fn {
            HashFn::Sha1 => hmac_sha1(key.as_slice(), msg.as_slice()),
            HashFn::Sha256 => hmac_sha256(key.as_slice(), msg.as_slice()),
            HashFn::Sha512 => hmac_sha512(key.as_slice(), msg.as_slice()),
        };
        let trunc = dyn_trunc(&mac);
        let value: u64 = if self.digit_count < 10 {
            let m = pow10_u64(self.digit_count);
            proof {
                crate::digits::lemma_pow10_positive(self.digit_count as nat);
            }
            trunc % m
        } else {
            proof {
                lemma_pow10_u64_range();
                lemma_pow10_monotone(10, self.digit_count as nat);
                vstd::arithmetic::div_mod::lemma_small_mod(
                    trunc as nat,
                    pow10(self.digit_count as nat),
                );
            }
            trunc
        };
        let mut out = String::new();
        crate::digits::push_decimal_padded(&mut out, value, self.digit_count);
        proof {
            lemma_code_shape(self@, now);
        }
        out
    }

    /// The entry's name and current code, read off the system clock.
    pub fn get_otp_value(&self) -> (r: OtpValue)
        requires
            self.step >= 1,
        ensures
            r.name@ == self.name@,
            exists|now: u64| r.otp@ == spec_entry_code(self@, now),
            r.otp@.len() == self.digit_count,
            all_dec_digits(r.otp@),
    {
        let now = now_unix_seconds();
        let otp = self.derive_code(now);
        OtpValue { name: self.name.clone(), otp }
    }
}

} // verus!
