use bif::domain::entry::{escape_field, Entry, EntryLevel, EntryParseError, Stamp};

fn stamp() -> Stamp {
    Stamp::new("123".to_string(), EntryLevel::INFO, None)
}

#[test]
fn legacy_roundtrip_unchanged() {
    let mut e = Entry::new(stamp(), "hello\\tworld".to_string());
    e.tags = vec!["a".to_string(), "b".to_string()];

    let record = e.to_record();
    assert!(!record.contains("\t{"));

    let parsed = Entry::from_record(&record).unwrap();
    assert_eq!(parsed.to_record(), record);
    assert!(parsed.meta.is_empty());
}

#[test]
fn meta_roundtrip() {
    let mut e = Entry::new(stamp(), "body".to_string());
    e.meta.insert("k".to_string(), "v".to_string());

    let record = e.to_record();
    let parsed = Entry::from_record(&record).unwrap();

    assert_eq!(parsed.meta.get("k"), Some(&"v".to_string()));
    assert_eq!(parsed.to_record(), record);
}

#[test]
fn invalid_json_error() {
    let line = format!(
        "{}\t\t{}\t{}",
        stamp().to_record(),
        escape_field("b"),
        escape_field("{not json")
    );
    let err = Entry::from_record(&line).unwrap_err();
    match err {
        EntryParseError::InvalidMetaJson { .. } => {}
        other => panic!("expected InvalidMetaJson, got: {other:?}"),
    }
}
