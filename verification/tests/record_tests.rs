use bif::domain::entry::{escape_field, unescape_field, Entry, EntryLevel, EntryParseError, Stamp};

fn info_stamp() -> Stamp {
    Stamp::new("1700000000".to_string(), EntryLevel::INFO, None)
}

#[test]
fn escape_field_escapes_backslash_tab_newline_cr() {
    assert_eq!(escape_field("a\\b\tc\nd\re"), "a\\\\b\\tc\\nd\\re");
    assert_eq!(escape_field("plain text"), "plain text");
    assert_eq!(escape_field(""), "");
}

#[test]
fn unescape_field_reverses_escape_field() {
    let raw = "tab\there\nnew line\r\\ back";
    let escaped = escape_field(raw);
    assert!(!escaped.contains('\n'));
    assert!(!escaped.contains('\t'));
    assert_eq!(unescape_field(&escaped), Ok(raw.to_string()));
}

#[test]
fn unescape_field_reports_trailing_backslash() {
    assert_eq!(
        unescape_field("abc\\"),
        Err("trailing backslash in escape sequence".to_string())
    );
}

#[test]
fn unescape_field_reports_unknown_escape() {
    assert_eq!(
        unescape_field("a\\xb"),
        Err("unknown escape sequence: \\x".to_string())
    );
}

#[test]
fn level_text_roundtrip() {
    for (text, level) in [
        ("DEBUG", EntryLevel::DEBUG),
        ("INFO", EntryLevel::INFO),
        ("WARN", EntryLevel::WARN),
        ("ERROR", EntryLevel::ERROR),
    ] {
        assert_eq!(EntryLevel::from_str(text), Some(level));
        assert_eq!(level.to_record(), text);
    }
    assert_eq!(EntryLevel::from_str("info"), None);
    assert_eq!(EntryLevel::from_str(""), None);
}

#[test]
fn stamp_record_with_and_without_source() {
    let a = Stamp::new("42".to_string(), EntryLevel::WARN, Some("cli".to_string()));
    assert_eq!(a.to_record(), "42|WARN|cli");
    assert_eq!(Stamp::from_record("42|WARN|cli"), Ok(a));

    let b = Stamp::new("42".to_string(), EntryLevel::ERROR, None);
    assert_eq!(b.to_record(), "42|ERROR|");
    assert_eq!(Stamp::from_record("42|ERROR|"), Ok(b));
}

#[test]
fn stamp_source_keeps_everything_after_second_bar_and_is_then_refused() {
    // The source is the rest of the record after the second `|`; a `|` in it is refused.
    assert_eq!(
        Stamp::from_record("1|INFO|a|b"),
        Err(EntryParseError::InvalidSourceContainsDelimiter)
    );
}

#[test]
fn stamp_from_record_errors() {
    assert_eq!(
        Stamp::from_record("123"),
        Err(EntryParseError::InvalidStampFormat {
            expected: "TIMESTAMP|LEVEL|SOURCE?",
            got: "123".to_string(),
        })
    );
    assert_eq!(
        Stamp::from_record("123|INFO"),
        Err(EntryParseError::InvalidStampFormat {
            expected: "TIMESTAMP|LEVEL|SOURCE?",
            got: "123|INFO".to_string(),
        })
    );
    assert_eq!(
        Stamp::from_record("123|LOUD|"),
        Err(EntryParseError::InvalidLevel { got: "LOUD".to_string() })
    );
    assert_eq!(Stamp::from_record(" |INFO|"), Err(EntryParseError::EmptyTimestamp));
    assert_eq!(Stamp::from_record("1|INFO| "), Err(EntryParseError::EmptySource));
}

#[test]
fn stamp_validate_checks_each_invariant() {
    assert_eq!(info_stamp().validate(), Ok(()));
    assert_eq!(
        Stamp::new("".to_string(), EntryLevel::INFO, None).validate(),
        Err(EntryParseError::EmptyTimestamp)
    );
    assert_eq!(
        Stamp::new("1".to_string(), EntryLevel::INFO, Some("  ".to_string())).validate(),
        Err(EntryParseError::EmptySource)
    );
    assert_eq!(
        Stamp::new("1".to_string(), EntryLevel::INFO, Some("a|b".to_string())).validate(),
        Err(EntryParseError::InvalidSourceContainsDelimiter)
    );
}

#[test]
fn entry_validate_checks_body_and_tags() {
    let mut e = Entry::new(info_stamp(), "body".to_string());
    assert_eq!(e.validate(), Ok(()));

    e.tags = vec!["ok".to_string(), " ".to_string()];
    assert_eq!(e.validate(), Err(EntryParseError::EmptyTag));

    e.tags = vec!["a,b".to_string()];
    assert_eq!(
        e.validate(),
        Err(EntryParseError::InvalidTagContainsComma { tag: "a,b".to_string() })
    );

    let blank = Entry::new(info_stamp(), " \t".to_string());
    assert_eq!(blank.validate(), Err(EntryParseError::EmptyBody));
}

#[test]
fn entry_to_record_layout() {
    let mut e = Entry::new(info_stamp(), "line one\nline two".to_string());
    e.tags = vec!["x".to_string(), "y".to_string()];
    assert_eq!(e.to_record(), "1700000000|INFO|\tx,y\tline one\\nline two");

    e.meta.insert("b".to_string(), "2".to_string());
    e.meta.insert("a".to_string(), "1\t".to_string());
    // Keys come out sorted; the JSON is escaped like the body.
    assert_eq!(
        e.to_record(),
        "1700000000|INFO|\tx,y\tline one\\nline two\t{\"a\":\"1\\\\t\",\"b\":\"2\"}"
    );
}

#[test]
fn entry_roundtrip_with_special_characters_and_meta() {
    let mut e = Entry::new(
        Stamp::new("7".to_string(), EntryLevel::DEBUG, Some("src".to_string())),
        "tab\tnew\nline \\ end".to_string(),
    );
    e.tags = vec!["t1".to_string(), "t 2".to_string()];
    e.meta.insert("quote".to_string(), "say \"hi\"".to_string());
    e.meta.insert("uni".to_string(), "é\u{1F600}".to_string());

    let record = e.to_record();
    assert!(!record.contains('\n'));
    let parsed = Entry::from_record(&record).unwrap();
    assert_eq!(parsed.stamp, e.stamp);
    assert_eq!(parsed.body, e.body);
    assert_eq!(parsed.tags, e.tags);
    assert_eq!(parsed.meta.get("quote"), Some(&"say \"hi\"".to_string()));
    assert_eq!(parsed.meta.get("uni"), Some(&"é\u{1F600}".to_string()));
    assert_eq!(parsed.to_record(), record);
}

#[test]
fn entry_from_record_needs_three_fields() {
    let err = Entry::from_record("1|INFO|\tonly-two").unwrap_err();
    assert_eq!(
        err,
        EntryParseError::InvalidEntryFormat {
            expected: "STAMP<TAB>TAGS<TAB>BODY[<TAB>META_JSON]",
            got: "1|INFO|\tonly-two".to_string(),
        }
    );
}

#[test]
fn entry_from_record_refuses_empty_stamp() {
    let err = Entry::from_record("\t\tbody").unwrap_err();
    assert_eq!(
        err,
        EntryParseError::InvalidEntryFormat {
            expected: "non-empty STAMP",
            got: "\t\tbody".to_string(),
        }
    );
}

#[test]
fn entry_from_record_reports_bad_escapes() {
    let err = Entry::from_record("1|INFO|\t\tbad\\q").unwrap_err();
    assert_eq!(
        err,
        EntryParseError::InvalidEscape {
            field: "body",
            reason: "unknown escape sequence: \\q".to_string(),
        }
    );
    let err = Entry::from_record("1|INFO|\t\tbody\t{}\\").unwrap_err();
    assert_eq!(
        err,
        EntryParseError::InvalidEscape {
            field: "meta",
            reason: "trailing backslash in escape sequence".to_string(),
        }
    );
}

#[test]
fn entry_from_record_meta_json_must_be_string_map() {
    let err = Entry::from_record("1|INFO|\t\tbody\t{\"k\":1}").unwrap_err();
    match err {
        EntryParseError::InvalidMetaJson { got, .. } => assert_eq!(got, "{\"k\":1}"),
        other => panic!("expected InvalidMetaJson, got: {other:?}"),
    }
}

#[test]
fn entry_from_record_validates_parsed_entry() {
    assert_eq!(
        Entry::from_record("1|INFO|\t\t   ").unwrap_err(),
        EntryParseError::EmptyBody
    );
    assert_eq!(
        Entry::from_record("1|INFO|\ta,,b\tbody").unwrap_err(),
        EntryParseError::EmptyTag
    );
}

#[test]
fn entry_from_record_keeps_tabs_of_meta_field_escaped() {
    // The fourth field runs to the end of the line.
    let parsed = Entry::from_record("1|INFO|\t\tbody\t{\"k\":\"a\\\\tb\"}").unwrap();
    assert_eq!(parsed.meta.get("k"), Some(&"a\tb".to_string()));
}

#[test]
fn entry_from_record_empty_meta_object() {
    let parsed = Entry::from_record("1|INFO|\t\tbody\t{}").unwrap();
    assert!(parsed.meta.is_empty());
    // Written back, an empty map is left out.
    assert_eq!(parsed.to_record(), "1|INFO|\t\tbody");
}
