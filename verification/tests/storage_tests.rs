use bif::domain::entry::{Entry, EntryLevel, Stamp};
use bif::storage::fs_store::{
    check_record_line, file_name_verdict, records_text, delete_last_n_record_lines, delete_last_record_line,
    delete_record_line_by_index_from_end, read_last_n_record_lines,
    read_record_line_by_index_from_end, validate_file_name,
};
use bif::storage::storage_error::{IoFailure, IoKind, StorageError};
use bif::storage::tracking::{check_bif_file_name, tracked_file_record, tracked_path_from_contents};

const LOG: &str = "one\ntwo\r\nthree\n";

fn failure(r: Result<String, IoFailure>) -> (IoKind, String) {
    let e = r.unwrap_err();
    (e.kind, e.message)
}

fn unit_failure(r: Result<(), IoFailure>) -> (IoKind, String) {
    let e = r.unwrap_err();
    (e.kind, e.message)
}

#[test]
fn check_record_line_refuses_newlines() {
    assert!(check_record_line("a\tb").is_ok());
    assert_eq!(
        unit_failure(check_record_line("a\nb")),
        (IoKind::InvalidInput, "record line must not contain newline".to_string())
    );
}

#[test]
fn read_last_n_lines() {
    assert_eq!(read_last_n_record_lines(LOG, 2), vec!["two", "three"]);
    assert_eq!(read_last_n_record_lines(LOG, 10), vec!["one", "two", "three"]);
    assert!(read_last_n_record_lines(LOG, 0).is_empty());
    assert!(read_last_n_record_lines("", 3).is_empty());
}

#[test]
fn read_line_by_index_from_end() {
    assert_eq!(read_record_line_by_index_from_end(LOG, 1).unwrap(), "three");
    assert_eq!(read_record_line_by_index_from_end(LOG, 2).unwrap(), "two");
    assert_eq!(read_record_line_by_index_from_end(LOG, 3).unwrap(), "one");
    let out_of_range = (IoKind::InvalidInput, "entry index out of range".to_string());
    assert_eq!(failure(read_record_line_by_index_from_end(LOG, 4)), out_of_range);
    assert_eq!(failure(read_record_line_by_index_from_end(LOG, 0)), out_of_range);
}

#[test]
fn delete_last_line_rewrites_rest() {
    assert_eq!(delete_last_record_line(LOG).unwrap(), "one\ntwo\n");
    assert_eq!(delete_last_record_line("only").unwrap(), "");
    assert_eq!(
        failure(delete_last_record_line(" \n \n")),
        (IoKind::InvalidInput, "no entries to delete".to_string())
    );
}

#[test]
fn delete_last_n_lines() {
    assert_eq!(delete_last_n_record_lines(LOG, 2).unwrap(), "one\n");
    assert_eq!(delete_last_n_record_lines(LOG, 3).unwrap(), "");
    assert_eq!(delete_last_n_record_lines(LOG, 0).unwrap(), "one\ntwo\nthree\n");
    assert_eq!(
        failure(delete_last_n_record_lines(LOG, 4)),
        (IoKind::InvalidInput, "not enough entries to delete".to_string())
    );
    assert_eq!(
        failure(delete_last_n_record_lines("", 1)),
        (IoKind::InvalidInput, "no entries to delete".to_string())
    );
}

#[test]
fn delete_line_by_index_from_end() {
    assert_eq!(delete_record_line_by_index_from_end(LOG, 2).unwrap(), "one\nthree\n");
    assert_eq!(delete_record_line_by_index_from_end(LOG, 1).unwrap(), "one\ntwo\n");
    assert_eq!(
        failure(delete_record_line_by_index_from_end(LOG, 0)),
        (IoKind::InvalidInput, "entry index out of range".to_string())
    );
    assert_eq!(
        failure(delete_record_line_by_index_from_end(LOG, 9)),
        (IoKind::InvalidInput, "entry index out of range".to_string())
    );
    assert_eq!(
        failure(delete_record_line_by_index_from_end("\n", 1)),
        (IoKind::InvalidInput, "no entries to delete".to_string())
    );
}

#[test]
fn validate_file_name_cases() {
    assert!(validate_file_name("log.bif").is_ok());
    assert_eq!(
        unit_failure(validate_file_name("  ")),
        (IoKind::InvalidInput, "record file name cannot be empty".to_string())
    );
    assert_eq!(
        unit_failure(validate_file_name("a/b.bif")),
        (IoKind::InvalidInput, "record file name must not contain path separators".to_string())
    );
    assert_eq!(
        unit_failure(validate_file_name("a\\b.bif")),
        (IoKind::InvalidInput, "record file name must not contain path separators".to_string())
    );
    assert_eq!(
        unit_failure(validate_file_name("..")),
        (IoKind::InvalidInput, "record file name is invalid".to_string())
    );
}

#[test]
fn check_bif_file_name_cases() {
    assert!(check_bif_file_name("log.bif").is_ok());
    assert!(check_bif_file_name("LOG.BiF").is_ok());
    let no_ext = (IoKind::InvalidInput, "tracked file must have .bif extension".to_string());
    assert_eq!(unit_failure(check_bif_file_name("log.txt")), no_ext);
    assert_eq!(unit_failure(check_bif_file_name(".bif")), no_ext);
    assert_eq!(unit_failure(check_bif_file_name("log")), no_ext);
    assert_eq!(
        unit_failure(check_bif_file_name("dir/log.bif")),
        (IoKind::InvalidInput, "record file name must not contain path separators".to_string())
    );
}

#[test]
fn tracked_file_record_and_read_back() {
    let rec = tracked_file_record("/home/u/log.bif").unwrap();
    assert_eq!(rec, "/home/u/log.bif\n");
    assert_eq!(tracked_path_from_contents(&rec).unwrap(), "/home/u/log.bif");
    assert_eq!(
        failure(tracked_file_record(" \t")),
        (IoKind::InvalidInput, "tracked file path cannot be empty".to_string())
    );
}

#[test]
fn tracked_path_uses_trimmed_first_line() {
    assert_eq!(tracked_path_from_contents("  a.bif  \r\nignored\n").unwrap(), "a.bif");
    assert_eq!(
        failure(tracked_path_from_contents("")),
        (IoKind::InvalidData, "tracked file path is empty".to_string())
    );
    assert_eq!(
        failure(tracked_path_from_contents("   \nsecond\n")),
        (IoKind::InvalidData, "tracked file path is empty".to_string())
    );
}

#[test]
fn storage_error_from_io() {
    let e = StorageError::from_io(
        IoFailure::new(IoKind::AlreadyExists, "exists".to_string()),
        Some("x.bif".to_string()),
    );
    match e {
        StorageError::AlreadyExists { path } => assert_eq!(path, "x.bif"),
        other => panic!("unexpected: {other:?}"),
    }
    let e = StorageError::from_io(IoFailure::new(IoKind::AlreadyExists, "exists".to_string()), None);
    match e {
        StorageError::AlreadyExists { path } => assert_eq!(path, "<unknown>"),
        other => panic!("unexpected: {other:?}"),
    }
    let e = StorageError::from_io(IoFailure::new(IoKind::NotFound, "gone".to_string()), None);
    match e {
        StorageError::Io(f) => {
            assert_eq!(f.kind, IoKind::NotFound);
            assert_eq!(f.message, "gone");
        }
        other => panic!("unexpected: {other:?}"),
    }
}

#[test]
fn records_text_ends_each_line() {
    assert_eq!(records_text(&vec![]), "");
    assert_eq!(records_text(&vec!["a".to_string()]), "a\n");
    assert_eq!(records_text(&vec!["a".to_string(), "b".to_string()]), "a\nb\n");
}

#[test]
fn appended_record_is_read_back_last() {
    let existing = vec!["1|INFO|\t\tfirst".to_string(), "2|INFO|\t\tsecond".to_string()];
    let mut e = Entry::new(
        Stamp::new("3".to_string(), EntryLevel::INFO, None),
        "third\nwith newline".to_string(),
    );
    e.meta.insert("_cfg_hash".to_string(), "abc".to_string());
    let record = e.to_record();
    assert!(check_record_line(&record).is_ok());

    // What appending writes: the line and a newline.
    let contents = format!("{}{}\n", records_text(&existing), record);
    let last = read_record_line_by_index_from_end(&contents, 1).unwrap();
    assert_eq!(last, record);
    let parsed = Entry::from_record(&last).unwrap();
    assert_eq!(parsed.body, "third\nwith newline");
    assert_eq!(parsed.meta.get("_cfg_hash"), Some(&"abc".to_string()));
    assert_eq!(read_last_n_record_lines(&contents, 3)[..2], existing[..]);
}

#[test]
fn file_name_verdict_for_each_answer() {
    assert!(file_name_verdict("log.bif", false).is_ok());
    assert_eq!(
        unit_failure(file_name_verdict("log.bif", true)),
        (IoKind::InvalidInput, "record file name is invalid".to_string())
    );
    assert_eq!(
        unit_failure(file_name_verdict(" ", true)),
        (IoKind::InvalidInput, "record file name cannot be empty".to_string())
    );
    assert_eq!(
        unit_failure(file_name_verdict("a/b", false)),
        (IoKind::InvalidInput, "record file name must not contain path separators".to_string())
    );
}

#[test]
fn plain_names_pass_and_dot_names_fail() {
    assert!(validate_file_name("notes.bif").is_ok());
    for name in [".", ".."] {
        assert_eq!(
            unit_failure(validate_file_name(name)),
            (IoKind::InvalidInput, "record file name is invalid".to_string())
        );
        assert!(check_bif_file_name(name).is_err());
    }
}

#[test]
fn append_keeps_lines_ending_in_carriage_return_parseable() {
    let mut e = Entry::new(Stamp::new("9".to_string(), EntryLevel::INFO, None), "new".to_string());
    e.meta.insert("_cfg_hash".to_string(), "h".to_string());
    let contents = format!("1|INFO|\t\told\r\n{}\n", e.to_record());
    for line in read_last_n_record_lines(&contents, 10) {
        assert!(Entry::from_record(&line).is_ok(), "line {line:?}");
    }
    assert_eq!(read_record_line_by_index_from_end(&contents, 1).unwrap(), e.to_record());
}
