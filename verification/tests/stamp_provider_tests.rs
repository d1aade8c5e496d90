use bif::domain::entry::{EntryLevel, Stamp};
use bif::domain::stamp_provider::{ProviderContext, Registry, StampProvider};

fn ctx() -> ProviderContext {
    ProviderContext {
        stamp: Stamp::new("0".to_string(), EntryLevel::INFO, Some("src".to_string())),
        cwd: "/tmp".to_string(),
    }
}

#[test]
fn registry_computes_known_providers_in_order() {
    let reg = Registry::default();
    let ids = vec!["level".to_string(), "time".to_string(), "nope".to_string()];
    let m = reg.compute_meta_for_ids(&ids, &ctx());

    assert_eq!(m.get("level"), Some(&"INFO".to_string()));
    assert_eq!(m.get("time"), Some(&"0".to_string()));
    assert!(!m.contains_key("nope"));
}

#[test]
fn date_and_datetime_are_parseable() {
    let reg = Registry::default();
    let c = ctx();

    let date = reg.get("date").unwrap().compute(&c).unwrap();
    // Local time zone may render epoch as 1969-12-31 in negative offsets.
    assert_eq!(date.len(), 10);
    assert!(date.chars().all(|ch| ch.is_ascii_digit() || ch == '-'));

    let dt = reg.get("datetime").unwrap().compute(&c).unwrap();
    assert!(dt.contains('T'));
}
