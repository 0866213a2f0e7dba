use otptray::{Error, HashFn, OtpEntry, OtpTrayConfig};

fn entry(name: &str, secret: &str, hash_fn: HashFn, step: u64, digit_count: u8) -> OtpEntry {
    OtpEntry { name: name.to_string(), step, secret_hash: secret.to_string(), hash_fn, digit_count }
}

fn assert_same(a: &OtpEntry, b: &OtpEntry) {
    assert_eq!(a.name, b.name);
    assert_eq!(a.step, b.step);
    assert_eq!(a.secret_hash, b.secret_hash);
    assert_eq!(a.hash_fn, b.hash_fn);
    assert_eq!(a.digit_count, b.digit_count);
}

fn round_trip(entries: Vec<OtpEntry>) {
    let cfg = OtpTrayConfig { entries };
    let text = cfg.to_yaml();
    let loaded = OtpTrayConfig::from_yaml(&text).unwrap();
    assert_eq!(loaded.entries.len(), cfg.entries.len());
    for (a, b) in cfg.entries.iter().zip(loaded.entries.iter()) {
        assert_same(a, b);
    }
}

#[test]
fn round_trip_empty() {
    round_trip(Vec::new());
}

#[test]
fn round_trip_one_entry() {
    round_trip(vec![entry("GitHub", "JBSWY3DPEHPK3PXP", HashFn::Sha1, 30, 6)]);
}

#[test]
fn round_trip_many_entries() {
    round_trip(vec![
        entry("GitHub", "JBSWY3DPEHPK3PXP", HashFn::Sha1, 30, 6),
        entry("mail", "MFRGGZDF", HashFn::Sha256, 60, 8),
        entry("bank", "NBSWY3DP", HashFn::Sha512, 10, 10),
    ]);
}

#[test]
fn round_trip_awkward_names() {
    round_trip(vec![
        entry("with \"quotes\"", "MFRGG", HashFn::Sha1, 30, 6),
        entry("back\\slash", "MFRGG", HashFn::Sha1, 30, 6),
        entry("new\nline", "MFRGG", HashFn::Sha1, 30, 6),
        entry("colon: and - dash", "MFRGG", HashFn::Sha1, 30, 6),
        entry("\u{00fc}nicode \u{2764}", "MFRGG", HashFn::Sha1, 30, 6),
    ]);
}

#[test]
fn emitted_text_is_wellformed_yaml() {
    let cfg = OtpTrayConfig {
        entries: vec![
            entry("GitHub", "JBSWY3DPEHPK3PXP", HashFn::Sha1, 30, 6),
            entry("name with spaces", "MFRGG", HashFn::Sha512, 60, 8),
        ],
    };
    let text = cfg.to_yaml();
    let value: serde_yaml::Value = serde_yaml::from_str(&text).unwrap();
    let entries = value.get("entries").unwrap().as_sequence().unwrap();
    assert_eq!(entries.len(), 2);
    assert_eq!(entries[0].get("name").unwrap().as_str().unwrap(), "GitHub");
    assert_eq!(entries[0].get("step").unwrap().as_u64().unwrap(), 30);
    assert_eq!(entries[0].get("secret_hash").unwrap().as_str().unwrap(), "JBSWY3DPEHPK3PXP");
    assert_eq!(entries[0].get("hash_fn").unwrap().as_str().unwrap(), "sha1");
    assert_eq!(entries[0].get("digit_count").unwrap().as_u64().unwrap(), 6);
    assert_eq!(entries[1].get("hash_fn").unwrap().as_str().unwrap(), "sha512");
}

#[test]
fn empty_config_text_shape() {
    let cfg = OtpTrayConfig { entries: Vec::new() };
    assert_eq!(cfg.to_yaml(), "entries: []\n");
    let value: serde_yaml::Value = serde_yaml::from_str("entries: []\n").unwrap();
    assert_eq!(value.get("entries").unwrap().as_sequence().unwrap().len(), 0);
}

#[test]
fn structurally_invalid_texts_are_fatal() {
    for text in ["", "nonsense", "entries: []\nleftover", "entries:\n- name: \"a\"\n"] {
        let r = OtpTrayConfig::from_yaml(text);
        assert!(matches!(r, Err(Error::YAML)), "{:?} must be structurally invalid", text);
    }
}

#[test]
fn unparseable_record_is_dropped_not_fatal() {
    let good = OtpTrayConfig {
        entries: vec![
            entry("keep me", "MFRGG", HashFn::Sha1, 30, 6),
            entry("and me", "NBSWY3DP", HashFn::Sha256, 60, 8),
        ],
    };
    let text = good.to_yaml();
    // Corrupt the first record's hash function token.
    let corrupted = text.replace("hash_fn: sha1", "hash_fn: md5");
    let loaded = OtpTrayConfig::from_yaml(&corrupted).unwrap();
    assert_eq!(loaded.entries.len(), 1);
    assert_eq!(loaded.entries[0].name, "and me");
}

#[test]
fn record_with_bad_number_is_dropped() {
    let good = OtpTrayConfig { entries: vec![entry("a", "MFRGG", HashFn::Sha1, 30, 6)] };
    let text = good.to_yaml().replace("step: 30", "step: soon");
    let loaded = OtpTrayConfig::from_yaml(&text).unwrap();
    assert_eq!(loaded.entries.len(), 0);
}
