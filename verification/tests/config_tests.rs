use bif::cli::config::GlobalConfig;

#[test]
fn same_config_same_hash() {
    let a = GlobalConfig::default();
    let b = GlobalConfig::default();
    assert_eq!(a.canonical_json_bytes(), b.canonical_json_bytes());
    assert_eq!(a.cfg_hash_hex(), b.cfg_hash_hex());
}

#[test]
fn hash_changes_if_config_changes() {
    let a = GlobalConfig::default();
    let mut b = GlobalConfig::default();
    b.new_stamp_ids.push("time".to_string());

    assert_ne!(a.canonical_json_bytes(), b.canonical_json_bytes());
    assert_ne!(a.cfg_hash_hex(), b.cfg_hash_hex());
}

#[test]
fn hash_is_lowercase_hex_len_64() {
    let h = GlobalConfig::default().cfg_hash_hex();
    assert_eq!(h.len(), 64);
    assert!(
        h.chars()
            .all(|c| c.is_ascii_hexdigit() && !c.is_ascii_uppercase())
    );
}
