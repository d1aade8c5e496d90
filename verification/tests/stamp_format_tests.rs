use bif::domain::entry::{EntryLevel, Stamp};
use bif::domain::stamp_format::{render_stamp, StampFormat, StampPart};

#[test]
fn render_default_pretty_epoch_zero_is_1970_01_01_midnight_utc() {
    let stamp = Stamp::new("0".to_string(), EntryLevel::INFO, None);
    let s = render_stamp(&stamp, &StampFormat::default_pretty());
    assert_eq!(s, "[1970-01-01 00:00:00] INFO");
}

#[test]
fn render_includes_source_when_requested() {
    let stamp = Stamp::new("0".to_string(), EntryLevel::WARN, Some("cli".to_string()));
    let fmt = StampFormat::new(vec![
        StampPart::Level,
        StampPart::Literal("(".to_string()),
        StampPart::Source,
        StampPart::Literal(")".to_string()),
    ]);

    let s = render_stamp(&stamp, &fmt);
    assert_eq!(s, "WARN(cli)");
}

#[test]
fn render_time_part_falls_back_to_raw_timestamp_if_unparseable() {
    let stamp = Stamp::new("not-a-number".to_string(), EntryLevel::DEBUG, None);
    let fmt = StampFormat::new(vec![StampPart::TimeHH]);
    let s = render_stamp(&stamp, &fmt);
    assert_eq!(s, "not-a-number");
}
