use bif::domain::domain_error::DomainError;
use bif::domain::entry::{EntryLevel, Stamp};
use bif::domain::log_filename::normalize_log_filename;
use bif::domain::meta::MetaMap;
use bif::domain::note::{Note, NoteParseError};
use bif::domain::record_filename::normalize_record_filename;
use bif::domain::stamp_format::{render_stamp, StampFormat, StampPart};
use bif::domain::stamp_provider::{local_time_value, ProviderContext, Registry, StampProvider};
use bif::number::{parse_i64, IntErrorKind};

fn invalid_name(r: Result<String, DomainError>) -> (String, String) {
    match r {
        Err(DomainError::InvalidRecordName { name, reason }) => (name, reason),
        other => panic!("unexpected: {other:?}"),
    }
}

#[test]
fn normalize_log_filename_cases() {
    assert_eq!(normalize_log_filename(None).unwrap(), "log.bif");
    assert_eq!(normalize_log_filename(Some("  notes ")).unwrap(), "notes.bif");
    assert_eq!(normalize_log_filename(Some("notes.bif")).unwrap(), "notes.bif");
    assert_eq!(
        invalid_name(normalize_log_filename(Some("   "))),
        ("".to_string(), "new log name cannot be empty".to_string())
    );
    assert_eq!(
        invalid_name(normalize_log_filename(Some(" a/b "))),
        ("a/b".to_string(), "new log name must not contain path separators".to_string())
    );
    assert_eq!(
        invalid_name(normalize_log_filename(Some("a\\b"))),
        ("a\\b".to_string(), "new log name must not contain path separators".to_string())
    );
}

#[test]
fn normalize_log_filename_is_idempotent() {
    for raw in ["x", " y.bif ", "z.txt", ".bif"] {
        let once = normalize_log_filename(Some(raw)).unwrap();
        let twice = normalize_log_filename(Some(&once)).unwrap();
        assert_eq!(once, twice);
        assert!(once.ends_with(".bif"));
    }
}

#[test]
fn normalize_record_filename_cases() {
    assert_eq!(normalize_record_filename(None).unwrap(), "Record.bif");
    assert_eq!(normalize_record_filename(Some("diary")).unwrap(), "diary.bif");
    assert_eq!(normalize_record_filename(Some(" diary.bif\t")).unwrap(), "diary.bif");
    assert_eq!(
        invalid_name(normalize_record_filename(Some(""))),
        ("".to_string(), "record name cannot be empty".to_string())
    );
    assert_eq!(
        invalid_name(normalize_record_filename(Some("x/y"))),
        ("x/y".to_string(), "record name must not contain path separators".to_string())
    );
}

#[test]
fn render_default_pretty_leap_day_2000() {
    let stamp = Stamp::new("951782400".to_string(), EntryLevel::INFO, None);
    assert_eq!(
        render_stamp(&stamp, &StampFormat::default_pretty()),
        "[2000-02-29 00:00:00] INFO"
    );
}

#[test]
fn render_default_pretty_end_of_leap_day_2024() {
    let stamp = Stamp::new("1709251199".to_string(), EntryLevel::ERROR, None);
    assert_eq!(
        render_stamp(&stamp, &StampFormat::default_pretty()),
        "[2024-02-29 23:59:59] ERROR"
    );
}

#[test]
fn render_trims_timestamp_before_reading_it() {
    let stamp = Stamp::new(" 86399 ".to_string(), EntryLevel::DEBUG, None);
    assert_eq!(
        render_stamp(&stamp, &StampFormat::default_pretty()),
        "[1970-01-01 23:59:59] DEBUG"
    );
}

#[test]
fn render_negative_timestamp_falls_back_to_raw_text() {
    let stamp = Stamp::new("-1".to_string(), EntryLevel::INFO, None);
    let fmt = StampFormat::new(vec![
        StampPart::DateYYYY,
        StampPart::Literal("/".to_string()),
        StampPart::DateMM,
        StampPart::Literal("/".to_string()),
        StampPart::TimeSS,
    ]);
    assert_eq!(render_stamp(&stamp, &fmt), "-1/-1/-1");
}

#[test]
fn render_source_part_is_empty_without_source() {
    let stamp = Stamp::new("0".to_string(), EntryLevel::INFO, None);
    let fmt = StampFormat::new(vec![
        StampPart::Literal("<".to_string()),
        StampPart::Source,
        StampPart::Literal(">".to_string()),
    ]);
    assert_eq!(render_stamp(&stamp, &fmt), "<>");
    assert_eq!(render_stamp(&stamp, &StampFormat::new(vec![])), "");
}

#[test]
fn render_far_future_year_has_more_digits() {
    // 10000-01-01T00:00:00Z
    let stamp = Stamp::new("253402300800".to_string(), EntryLevel::INFO, None);
    let fmt = StampFormat::new(vec![
        StampPart::DateYYYY,
        StampPart::Literal("-".to_string()),
        StampPart::DateMM,
        StampPart::Literal("-".to_string()),
        StampPart::DateDD,
    ]);
    assert_eq!(render_stamp(&stamp, &fmt), "10000-01-01");
}

#[test]
fn parse_i64_cases() {
    assert_eq!(parse_i64("0"), Ok(0));
    assert_eq!(parse_i64("+17"), Ok(17));
    assert_eq!(parse_i64("-9223372036854775808"), Ok(i64::MIN));
    assert_eq!(parse_i64("9223372036854775807"), Ok(i64::MAX));
    assert_eq!(parse_i64("9223372036854775808"), Err(IntErrorKind::PosOverflow));
    assert_eq!(parse_i64("-9223372036854775809"), Err(IntErrorKind::NegOverflow));
    assert_eq!(parse_i64(""), Err(IntErrorKind::Empty));
    assert_eq!(parse_i64("-"), Err(IntErrorKind::InvalidDigit));
    assert_eq!(parse_i64(" 1"), Err(IntErrorKind::InvalidDigit));
    assert_eq!(parse_i64("1a"), Err(IntErrorKind::InvalidDigit));
}

fn ctx(ts: &str, source: Option<&str>) -> ProviderContext {
    ProviderContext {
        stamp: Stamp::new(ts.to_string(), EntryLevel::WARN, source.map(|s| s.to_string())),
        cwd: "/work/dir".to_string(),
    }
}

#[test]
fn registry_fixed_providers_values() {
    let reg = Registry::default();
    let ids = vec![
        "cwd".to_string(),
        "source".to_string(),
        "level".to_string(),
        "time".to_string(),
    ];
    let m = reg.compute_meta_for_ids(&ids, &ctx("12", Some("cli")));
    assert_eq!(m.len(), 4);
    assert_eq!(m.get("cwd"), Some(&"/work/dir".to_string()));
    assert_eq!(m.get("source"), Some(&"cli".to_string()));
    assert_eq!(m.get("level"), Some(&"WARN".to_string()));
    assert_eq!(m.get("time"), Some(&"12".to_string()));
    // Keys come out in ascending order.
    let keys: Vec<&String> = m.pairs().iter().map(|p| &p.0).collect();
    assert_eq!(keys, vec!["cwd", "level", "source", "time"]);
}

#[test]
fn registry_source_without_source_is_empty_text() {
    let reg = Registry::default();
    let m = reg.compute_meta_for_ids(&vec!["source".to_string()], &ctx("1", None));
    assert_eq!(m.get("source"), Some(&"".to_string()));
}

#[test]
fn registry_date_provider_refuses_non_integer_timestamp() {
    let reg = Registry::default();
    let c = ctx("soon", None);
    assert_eq!(
        reg.get("date").unwrap().compute(&c),
        Err("invalid timestamp: invalid digit found in string".to_string())
    );
    assert_eq!(
        reg.get("datetime").unwrap().compute(&ctx("", None)),
        Err("invalid timestamp: cannot parse integer from empty string".to_string())
    );
    // A failing provider leaves no key; the others still run.
    let m = reg.compute_meta_for_ids(&vec!["date".to_string(), "time".to_string()], &c);
    assert!(!m.contains_key("date"));
    assert_eq!(m.get("time"), Some(&"soon".to_string()));
}

#[test]
fn registry_get_unknown_and_ids() {
    let reg = Registry::default();
    assert!(reg.get("weather").is_none());
    for id in ["time", "date", "datetime", "level", "source", "cwd"] {
        assert_eq!(reg.get(id).unwrap().id(), id);
    }
}

#[test]
fn meta_map_insert_replaces_and_keeps_order() {
    let mut m = MetaMap::new();
    assert!(m.is_empty());
    m.insert("zeta".to_string(), "1".to_string());
    m.insert("alpha".to_string(), "2".to_string());
    m.insert("mid".to_string(), "3".to_string());
    m.insert("alpha".to_string(), "4".to_string());
    assert_eq!(m.len(), 3);
    assert_eq!(m.get("alpha"), Some(&"4".to_string()));
    assert_eq!(m.get("zeta"), Some(&"1".to_string()));
    assert_eq!(m.get("nope"), None);
    assert!(m.contains_key("mid"));
    let (k, v) = m.pair_at(0);
    assert_eq!((k.as_str(), v.as_str()), ("alpha", "4"));
    let keys: Vec<&str> = m.pairs().iter().map(|p| p.0.as_str()).collect();
    assert_eq!(keys, vec!["alpha", "mid", "zeta"]);
}

#[test]
fn note_split_frontmatter_and_body() {
    let md = "---\nid: 1\nanchor: true\n---\n\n# Title\nText\n";
    let (front, body) = Note::split_frontmatter_and_body(md).unwrap();
    assert_eq!(front, "id: 1\nanchor: true");
    assert_eq!(body, "# Title\nText");
}

#[test]
fn note_split_refuses_missing_fences() {
    assert_eq!(
        Note::split_frontmatter_and_body("no front matter"),
        Err(NoteParseError::InvalidFormat)
    );
    assert_eq!(
        Note::split_frontmatter_and_body("---\nid: 1\n"),
        Err(NoteParseError::InvalidFormat)
    );
    assert_eq!(
        Note::split_frontmatter_and_body("--"),
        Err(NoteParseError::InvalidFormat)
    );
}

#[test]
fn local_time_value_for_each_answer() {
    assert_eq!(local_time_value(Some("2024-01-02".to_string())), Ok("2024-01-02".to_string()));
    assert_eq!(local_time_value(None), Err("timestamp out of range".to_string()));
}

#[test]
fn domain_entry_parse_error_keeps_message() {
    let e = bif::domain::domain_error::EntryParseError::new("bad entry".to_string());
    match e {
        bif::domain::domain_error::EntryParseError::Message(m) => assert_eq!(m, "bad entry"),
    }
}

#[test]
fn render_year_past_i32_falls_back_to_raw_timestamp() {
    let stamp = Stamp::new("9223372036854775807".to_string(), EntryLevel::INFO, None);
    let fmt = StampFormat::new(vec![StampPart::DateYYYY, StampPart::Literal("|".to_string()), StampPart::TimeSS]);
    assert_eq!(render_stamp(&stamp, &fmt), "9223372036854775807|9223372036854775807");
}

#[test]
fn date_and_datetime_texts_have_their_shape() {
    let reg = Registry::default();
    for ts in ["0", "1709251199", "253402300800"] {
        let c = ctx(ts, None);
        let date = reg.get("date").unwrap().compute(&c).unwrap();
        assert!(date.chars().all(|ch| ch.is_ascii_digit() || ch == '-' || ch == '+'));
        let dt = reg.get("datetime").unwrap().compute(&c).unwrap();
        assert!(dt.contains('T'));
        assert!(dt.chars().all(|ch| ch.is_ascii_digit() || "-+T:".contains(ch)));
    }
}

#[test]
fn meta_for_ids_given_uses_the_given_local_values() {
    let reg = Registry::default();
    let ids = vec!["date".to_string(), "datetime".to_string(), "time".to_string(), "x".to_string()];
    let c = ctx("5", None);
    let m = reg.meta_for_ids_given(&ids, &c, &Ok("2020-01-02".to_string()), &Err("timestamp out of range".to_string()));
    assert_eq!(m.get("date"), Some(&"2020-01-02".to_string()));
    assert!(!m.contains_key("datetime"));
    assert_eq!(m.get("time"), Some(&"5".to_string()));
    assert_eq!(m.len(), 2);
}

#[test]
fn compute_meta_stores_date_values_when_asked() {
    let reg = Registry::default();
    let ids = vec!["date".to_string(), "datetime".to_string()];
    let m = reg.compute_meta_for_ids(&ids, &ctx("0", None));
    assert_eq!(m.len(), 2);
    assert_eq!(m.get("date").unwrap().len(), 10);
    assert!(m.get("datetime").unwrap().contains('T'));
}

#[test]
fn local_texts_have_fixed_width_fields() {
    let reg = Registry::default();
    let c = ctx("0", None);
    let date = reg.get("date").unwrap().compute(&c).unwrap();
    assert!(date == "1970-01-01" || date == "1969-12-31", "date was {date}");
    let dt: Vec<char> = reg.get("datetime").unwrap().compute(&c).unwrap().chars().collect();
    assert_eq!(dt.len(), 25);
    assert_eq!(dt[10], 'T');
    assert_eq!((dt[4], dt[7], dt[13], dt[16], dt[22]), ('-', '-', ':', ':', ':'));
    assert!(dt[19] == '+' || dt[19] == '-');
    let date_part: String = dt[..10].iter().collect();
    assert_eq!(date_part, date);
}
