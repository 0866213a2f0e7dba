use otptray::{EntryAction, HashFn, OtpEntry, ValidationError};

fn validate(
    name: &str,
    step: &str,
    secret: &str,
    hash_fn: &str,
    digits: &str,
) -> Result<OtpEntry, ValidationError> {
    OtpEntry::input_validate(
        name.to_string(),
        step.to_string(),
        secret.to_string(),
        hash_fn.to_string(),
        digits.to_string(),
    )
}

#[test]
fn accepts_well_formed_input() {
    let e = validate("GitHub", "30", "JBSWY3DPEHPK3PXP", "sha1", "6").unwrap();
    assert_eq!(e.name, "GitHub");
    assert_eq!(e.step, 30);
    assert_eq!(e.secret_hash, "JBSWY3DPEHPK3PXP");
    assert!(matches!(e.hash_fn, HashFn::Sha1));
    assert_eq!(e.digit_count, 6);
    let e256 = validate("a", "60", "MFRGG", "sha256", "8").unwrap();
    assert!(matches!(e256.hash_fn, HashFn::Sha256));
    let e512 = validate("a", "60", "MFRGG", "sha512", "8").unwrap();
    assert!(matches!(e512.hash_fn, HashFn::Sha512));
}

#[test]
fn rejects_empty_name() {
    let r = validate("", "30", "MFRGG", "sha1", "6");
    assert!(matches!(r, Err(ValidationError::Empty { field: "name" })));
}

#[test]
fn rejects_name_of_256_bytes() {
    let name = "x".repeat(256);
    let r = validate(&name, "30", "MFRGG", "sha1", "6");
    assert!(
        matches!(r, Err(ValidationError::Length { field: "name", upper_bound: 255, length: 256 }))
    );
}

#[test]
fn accepts_name_of_255_bytes() {
    let name = "x".repeat(255);
    assert!(validate(&name, "30", "MFRGG", "sha1", "6").is_ok());
}

#[test]
fn name_length_counts_bytes_not_chars() {
    // 128 two-byte characters: 128 chars, 256 bytes.
    let name = "\u{00e9}".repeat(128);
    let r = validate(&name, "30", "MFRGG", "sha1", "6");
    assert!(matches!(r, Err(ValidationError::Length { field: "name", .. })));
}

#[test]
fn rejects_empty_secret() {
    let r = validate("a", "30", "", "sha1", "6");
    assert!(matches!(r, Err(ValidationError::Empty { field: "secret" })));
}

#[test]
fn rejects_md5_hash_function() {
    let r = validate("a", "30", "MFRGG", "md5", "6");
    match r {
        Err(ValidationError::InvalidSelection { field, candidate }) => {
            assert_eq!(field, "hash function");
            assert_eq!(candidate, "md5");
        }
        _ => panic!("md5 must be rejected as an invalid selection"),
    }
}

#[test]
fn accepts_one_leading_plus_sign() {
    let e = validate("a", "+30", "MFRGG", "sha1", "+6").unwrap();
    assert_eq!(e.step, 30);
    assert_eq!(e.digit_count, 6);
    assert!(matches!(
        validate("a", "+", "MFRGG", "sha1", "6"),
        Err(ValidationError::IntegerFormat { field: "step" })
    ));
    assert!(matches!(
        validate("a", "++3", "MFRGG", "sha1", "6"),
        Err(ValidationError::IntegerFormat { field: "step" })
    ));
}

#[test]
fn rejects_non_numeric_step() {
    let r = validate("a", "abc", "MFRGG", "sha1", "6");
    assert!(matches!(r, Err(ValidationError::IntegerFormat { field: "step" })));
}

#[test]
fn rejects_negative_digit_count() {
    let r = validate("a", "30", "MFRGG", "sha1", "-1");
    assert!(matches!(r, Err(ValidationError::IntegerFormat { field: "digit count" })));
}

#[test]
fn rejects_oversized_numbers() {
    // One past u64::MAX.
    let r = validate("a", "18446744073709551616", "MFRGG", "sha1", "6");
    assert!(matches!(r, Err(ValidationError::IntegerFormat { field: "step" })));
    let r = validate("a", "30", "MFRGG", "sha1", "256");
    assert!(matches!(r, Err(ValidationError::IntegerFormat { field: "digit count" })));
}

#[test]
fn first_violated_rule_wins() {
    // Empty name and empty secret: the name is reported.
    let r = validate("", "30", "", "sha1", "6");
    assert!(matches!(r, Err(ValidationError::Empty { field: "name" })));
    // Empty secret and bad hash function: the secret is reported.
    let r = validate("a", "30", "", "md5", "6");
    assert!(matches!(r, Err(ValidationError::Empty { field: "secret" })));
    // Bad hash function and bad step: the hash function is reported.
    let r = validate("a", "abc", "MFRGG", "md5", "6");
    assert!(matches!(r, Err(ValidationError::InvalidSelection { .. })));
    // Bad step and bad digit count: the step is reported.
    let r = validate("a", "abc", "MFRGG", "sha1", "-1");
    assert!(matches!(r, Err(ValidationError::IntegerFormat { field: "step" })));
}

#[test]
fn default_entry_is_authenticator_compatible() {
    let e = OtpEntry::default();
    assert_eq!(e.name, "");
    assert_eq!(e.secret_hash, "");
    assert!(matches!(e.hash_fn, HashFn::Sha1));
    assert_eq!(e.step, 30);
    assert_eq!(e.digit_count, 6);
}

#[test]
fn window_titles() {
    assert_eq!(EntryAction::Add.window_title(), "Add Entry");
    assert_eq!(EntryAction::Edit(3).window_title(), "Edit Entry");
}
