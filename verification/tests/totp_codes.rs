use otptray::{HashFn, OtpEntry, OtpValue};

fn entry(name: &str, secret_b32: &str, hash_fn: HashFn, step: u64, digit_count: u8) -> OtpEntry {
    OtpEntry {
        name: name.to_string(),
        step,
        secret_hash: secret_b32.to_string(),
        hash_fn,
        digit_count,
    }
}

fn rfc_entry(raw_secret: &[u8], hash_fn: HashFn, digit_count: u8) -> OtpEntry {
    let secret_b32 = base32::encode(base32::Alphabet::Rfc4648 { padding: false }, raw_secret);
    entry("rfc", &secret_b32, hash_fn, 30, digit_count)
}

const SHA1_SECRET: &[u8] = b"12345678901234567890";
const SHA256_SECRET: &[u8] = b"12345678901234567890123456789012";
const SHA512_SECRET: &[u8] = b"1234567890123456789012345678901234567890123456789012345678901234";

#[test]
fn rfc6238_vectors_sha1() {
    let e = rfc_entry(SHA1_SECRET, HashFn::Sha1, 8);
    assert_eq!(e.derive_code(59), "94287082");
    assert_eq!(e.derive_code(1111111109), "07081804");
    assert_eq!(e.derive_code(1111111111), "14050471");
    assert_eq!(e.derive_code(1234567890), "89005924");
    assert_eq!(e.derive_code(2000000000), "69279037");
    assert_eq!(e.derive_code(20000000000), "65353130");
}

#[test]
fn rfc6238_vectors_sha256() {
    let e = rfc_entry(SHA256_SECRET, HashFn::Sha256, 8);
    assert_eq!(e.derive_code(59), "46119246");
    assert_eq!(e.derive_code(1111111109), "68084774");
    assert_eq!(e.derive_code(1111111111), "67062674");
    assert_eq!(e.derive_code(1234567890), "91819424");
    assert_eq!(e.derive_code(2000000000), "90698825");
    assert_eq!(e.derive_code(20000000000), "77737706");
}

#[test]
fn rfc6238_vectors_sha512() {
    let e = rfc_entry(SHA512_SECRET, HashFn::Sha512, 8);
    assert_eq!(e.derive_code(59), "90693936");
    assert_eq!(e.derive_code(1111111109), "25091201");
    assert_eq!(e.derive_code(1111111111), "99943326");
    assert_eq!(e.derive_code(1234567890), "93441116");
    assert_eq!(e.derive_code(2000000000), "38618901");
    assert_eq!(e.derive_code(20000000000), "47863826");
}

#[test]
fn agrees_with_totp_lite() {
    let raw: &[u8] = b"such secret much wow";
    let e = rfc_entry(raw, HashFn::Sha1, 6);
    for &t in &[0u64, 1, 29, 30, 59, 1234567890, u64::MAX] {
        assert_eq!(e.derive_code(t), totp_lite::totp_custom::<totp_lite::Sha1>(30, 6, raw, t));
    }
    let e256 = rfc_entry(raw, HashFn::Sha256, 10);
    assert_eq!(
        e256.derive_code(424242),
        totp_lite::totp_custom::<totp_lite::Sha256>(30, 10, raw, 424242)
    );
}

#[test]
fn same_window_same_code() {
    let e = rfc_entry(SHA1_SECRET, HashFn::Sha1, 6);
    // 90..119 all lie in window 3 of a 30-second step.
    let c = e.derive_code(90);
    assert_eq!(e.derive_code(105), c);
    assert_eq!(e.derive_code(119), c);
    // The next window gives a different code for these vectors.
    assert_ne!(e.derive_code(120), c);
}

#[test]
fn code_length_and_digits() {
    for d in 1u8..=12 {
        let e = rfc_entry(SHA1_SECRET, HashFn::Sha1, d);
        let code = e.derive_code(59);
        assert_eq!(code.len(), d as usize);
        assert!(code.chars().all(|c| c.is_ascii_digit()));
    }
}

#[test]
fn invalid_base32_degrades_to_empty_secret() {
    // "1" is not in the RFC 4648 alphabet; the entry derives from no bytes,
    // as deriving directly from an empty secret does.
    let bad = entry("bad", "1", HashFn::Sha1, 30, 6);
    let empty = rfc_entry(b"", HashFn::Sha1, 6);
    assert_eq!(bad.derive_code(59), empty.derive_code(59));
}

#[test]
fn get_otp_value_keeps_name_and_shape() {
    let e = rfc_entry(SHA1_SECRET, HashFn::Sha1, 7);
    let v = e.get_otp_value();
    assert_eq!(v.name, "rfc");
    assert_eq!(v.otp.len(), 7);
    assert!(v.otp.chars().all(|c| c.is_ascii_digit()));
}

#[test]
fn menu_display_format() {
    let v = OtpValue { name: "GitHub".to_string(), otp: "123456".to_string() };
    assert_eq!(v.formatted_menu_display(), "GitHub: 123456");
}
