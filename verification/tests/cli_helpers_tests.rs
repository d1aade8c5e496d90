use bif::cli::cli_error::CliError;
use bif::cli::config::{GlobalConfig, PrettyConfig};
use bif::cli::config_resolver::{
    config_path_from, dotfile_reference, dotfile_verdict, global_effective_config, global_origin,
    ConfigOrigin,
};
use bif::domain::domain_error::{DomainError, EntryParseError as DomainEntryParseError};
use bif::cli::execution::{
    cfg_hash_warning, check_config_path, config_dotfile_text, config_path_verdict, init_checks, config_show_lines, init_message,
    pretty_line, pretty_record_lines, render_pretty_stamp_from_meta, require_tracked_log, set_local_message,
    stamped_entry, track_message,
};
use bif::digest::sha256_hex;
use bif::domain::entry::{Entry, EntryLevel, Stamp};
use bif::domain::meta::MetaMap;
use bif::domain::stamp_format::{StampFormat, StampPart};
use bif::storage::storage_error::{IoFailure, IoKind};
use bif::welcome;

const DEFAULT_JSON: &str = "{\"new_stamp_ids\":[],\"pretty\":{\"meta_keys\":[],\"meta_sep\":\" \",\"legacy_stamp_format\":{\"parts\":[{\"Literal\":\"[\"},\"DateYYYY\",{\"Literal\":\"-\"},\"DateMM\",{\"Literal\":\"-\"},\"DateDD\",{\"Literal\":\" \"},\"TimeHH\",{\"Literal\":\":\"},\"TimeMM\",{\"Literal\":\":\"},\"TimeSS\",{\"Literal\":\"] \"},\"Level\"]}}}";

#[test]
fn welcome_text() {
    assert_eq!(welcome(), "Welcome to BIF! A lazy CLI note-taking app.");
}

#[test]
fn sha256_hex_known_values() {
    assert_eq!(
        sha256_hex(b""),
        "e3b0c44298fc1c149afbf4c8996fb92427ae41e4649b934ca495991b7852b855"
    );
    assert_eq!(
        sha256_hex(b"abc"),
        "ba7816bf8f01cfea414140de5dae2223b00361a396177a9cb410ff61f20015ad"
    );
}

#[test]
fn default_config_canonical_json_and_hash() {
    let cfg = GlobalConfig::default();
    assert_eq!(cfg.canonical_json(), DEFAULT_JSON);
    assert_eq!(cfg.canonical_json_bytes(), DEFAULT_JSON.as_bytes().to_vec());
    assert_eq!(
        cfg.cfg_hash_hex(),
        "46d8f1751473a3fe4551d127e9599bc9577b79b2c97c22e4e38289f725862eac"
    );
}

#[test]
fn canonical_json_escapes_strings() {
    let mut cfg = GlobalConfig::default();
    cfg.new_stamp_ids = vec!["time".to_string(), "cwd".to_string()];
    cfg.pretty.meta_keys = vec!["a\"b".to_string()];
    cfg.pretty.meta_sep = "\t".to_string();
    cfg.pretty.legacy_stamp_format = StampFormat::new(vec![
        StampPart::Source,
        StampPart::Literal("\\".to_string()),
    ]);
    assert_eq!(
        cfg.canonical_json(),
        "{\"new_stamp_ids\":[\"time\",\"cwd\"],\"pretty\":{\"meta_keys\":[\"a\\\"b\"],\"meta_sep\":\"\\t\",\"legacy_stamp_format\":{\"parts\":[\"Source\",{\"Literal\":\"\\\\\"}]}}}"
    );
}

#[test]
fn global_origin_follows_whether_the_file_existed() {
    assert!(matches!(global_origin(true), ConfigOrigin::Global));
    assert!(matches!(global_origin(false), ConfigOrigin::Default));

    // A file holding exactly the defaults still counts as the user-level config.
    let e = global_effective_config(Some(GlobalConfig::default()));
    assert!(matches!(e.origin, ConfigOrigin::Global));
    assert_eq!(e.cfg, GlobalConfig::default());

    let mut other = GlobalConfig::default();
    other.pretty.meta_sep = "|".to_string();
    let e = global_effective_config(Some(other.clone()));
    assert!(matches!(e.origin, ConfigOrigin::Global));
    assert_eq!(e.cfg, other);

    let e = global_effective_config(None);
    assert!(matches!(e.origin, ConfigOrigin::Default));
    assert_eq!(e.cfg, GlobalConfig::default());
}

#[test]
fn config_path_from_environment() {
    let s = |x: &str| Some(x.to_string());
    assert_eq!(
        config_path_from(s("C:\\Users\\u\\AppData"), s("/xdg"), s("/home/u")).unwrap(),
        vec!["C:\\Users\\u\\AppData", "bif", "config.json"]
    );
    assert_eq!(
        config_path_from(None, s("/xdg"), s("/home/u")).unwrap(),
        vec!["/xdg", "bif", "config.json"]
    );
    assert_eq!(
        config_path_from(None, s("  "), s("/home/u")).unwrap(),
        vec!["/home/u", ".config", "bif", "config.json"]
    );
    assert_eq!(
        config_path_from(None, None, s("/home/u")).unwrap(),
        vec!["/home/u", ".config", "bif", "config.json"]
    );
    let e = config_path_from(None, s(""), None).unwrap_err();
    assert_eq!(e.kind, IoKind::NotFound);
    assert_eq!(e.message, "HOME not set; cannot resolve default config path");
}

#[test]
fn dotfile_reference_cases() {
    assert_eq!(dotfile_reference("  cfg.json \n", "/p/.bif-config").unwrap(), "cfg.json");
    let e = dotfile_reference(" \n", "/p/.bif-config").unwrap_err();
    assert_eq!(e.kind, IoKind::InvalidData);
    assert_eq!(
        e.message,
        ".bif-config at '/p/.bif-config' is empty; expected relative path to a JSON config file"
    );
    let e = dotfile_reference("/etc/cfg.json", "/p/.bif-config").unwrap_err();
    assert_eq!(e.kind, IoKind::InvalidData);
    assert_eq!(
        e.message,
        ".bif-config at '/p/.bif-config' must contain a relative path, got absolute path '/etc/cfg.json"
    );
}

#[test]
fn require_tracked_log_cases() {
    assert_eq!(require_tracked_log(Ok("/x/log.bif".to_string())).unwrap(), "/x/log.bif");
    match require_tracked_log(Err(IoFailure::new(IoKind::NotFound, "missing".to_string()))) {
        Err(CliError::InvalidArgs { message }) => {
            assert_eq!(message, "no tracked log. Run `bif init` or `bif track <name>`.")
        }
        other => panic!("unexpected: {other:?}"),
    }
}

#[test]
fn check_config_path_cases() {
    assert!(check_config_path("cfg/local.json").is_ok());
    match check_config_path("") {
        Err(CliError::InvalidArgs { message }) => assert_eq!(message, "config path cannot be empty"),
        other => panic!("unexpected: {other:?}"),
    }
    match check_config_path("/abs/cfg.json") {
        Err(CliError::InvalidArgs { message }) => {
            assert_eq!(message, "config path must be relative to the current directory")
        }
        other => panic!("unexpected: {other:?}"),
    }
}

#[test]
fn messages() {
    assert_eq!(set_local_message("c.json", true), "Updated local config tracking: c.json");
    assert_eq!(set_local_message("c.json", false), "Tracked local config: c.json");
    assert_eq!(config_dotfile_text("c.json"), "c.json\n");
    assert_eq!(init_message("/w/log.bif"), "Initialized empty record: /w/log.bif");
    assert_eq!(track_message("/w/log.bif"), "Tracked record: /w/log.bif");
}

#[test]
fn config_show_lines_for_each_origin() {
    let local = ConfigOrigin::Local {
        dotfile_path: "/p/.bif-config".to_string(),
        json_path: "/p/cfg.json".to_string(),
    };
    assert_eq!(
        config_show_lines(&local, None),
        vec!["local", ".bif-config: /p/.bif-config", "config: /p/cfg.json"]
    );
    assert_eq!(
        config_show_lines(&ConfigOrigin::Global, Some("/h/bif/config.json".to_string())),
        vec!["global", "config: /h/bif/config.json"]
    );
    assert_eq!(
        config_show_lines(&ConfigOrigin::Global, None),
        vec!["global", "config: default"]
    );
    assert_eq!(
        config_show_lines(&ConfigOrigin::Default, Some("ignored".to_string())),
        vec!["default", "config: default"]
    );
}

fn meta_entry(body: &str, meta: &[(&str, &str)]) -> Entry {
    let mut e = Entry::new(Stamp::new("0".to_string(), EntryLevel::INFO, None), body.to_string());
    for (k, v) in meta {
        e.meta.insert(k.to_string(), v.to_string());
    }
    e
}

#[test]
fn pretty_line_legacy_layout_without_meta_keys() {
    let e = meta_entry("Hello", &[]);
    let cfg = PrettyConfig::default();
    assert_eq!(pretty_line(&e, &cfg), "[1970-01-01 00:00:00] INFO\tHello");

    let empty_layout = PrettyConfig {
        meta_keys: vec![],
        meta_sep: " ".to_string(),
        legacy_stamp_format: StampFormat::new(vec![]),
    };
    assert_eq!(pretty_line(&e, &empty_layout), "\tHello");
}

#[test]
fn pretty_line_uses_chosen_meta_keys() {
    let e = meta_entry("Body", &[("a", "AAA"), ("b", "BBB")]);
    let cfg = PrettyConfig {
        meta_keys: vec!["b".to_string()],
        meta_sep: " ".to_string(),
        legacy_stamp_format: StampFormat::new(vec![]),
    };
    let line = pretty_line(&e, &cfg);
    assert_eq!(line, "BBB\tBody");
    assert!(!line.contains("AAA"));

    let cfg = PrettyConfig {
        meta_keys: vec!["a".to_string(), "missing".to_string(), "b".to_string()],
        meta_sep: "|".to_string(),
        legacy_stamp_format: StampFormat::new(vec![]),
    };
    assert_eq!(render_pretty_stamp_from_meta(&e, &cfg), "AAA||BBB");
}

#[test]
fn cfg_hash_warning_on_mismatch_only() {
    let e = meta_entry("Hi", &[("_cfg_hash", "deadbeef"), ("display", "ZZZ")]);
    let w = cfg_hash_warning(&e, "cafe").unwrap();
    assert_eq!(w, "bif: pretty: cfg hash mismatch (entry _cfg_hash=deadbeef, current=cafe)");
    assert!(w.contains("cfg hash mismatch") && w.contains("deadbeef"));
    assert!(cfg_hash_warning(&e, "deadbeef").is_none());
    assert!(cfg_hash_warning(&meta_entry("Hi", &[]), "cafe").is_none());
    assert!(cfg_hash_warning(&meta_entry("Hi", &[("k", "v")]), "cafe").is_none());
}

#[test]
fn stamped_entry_carries_provider_meta_and_hash() {
    let mut provider_meta = MetaMap::new();
    provider_meta.insert("level".to_string(), "INFO".to_string());
    provider_meta.insert("time".to_string(), "99".to_string());
    let e = stamped_entry(
        "99".to_string(),
        "note body".to_string(),
        provider_meta,
        "abc123".to_string(),
    )
    .unwrap();
    assert_eq!(e.stamp, Stamp::new("99".to_string(), EntryLevel::INFO, None));
    assert_eq!(e.body, "note body");
    assert!(e.tags.is_empty());
    assert_eq!(e.meta.get("_cfg_hash"), Some(&"abc123".to_string()));
    assert_eq!(e.meta.get("level"), Some(&"INFO".to_string()));
    assert_eq!(e.meta.get("time"), Some(&"99".to_string()));
    assert_eq!(e.meta.len(), 3);
    assert_eq!(
        e.to_record(),
        "99|INFO|\t\tnote body\t{\"_cfg_hash\":\"abc123\",\"level\":\"INFO\",\"time\":\"99\"}"
    );
}

#[test]
fn pretty_record_lines_skip_blank_lines() {
    let contents = "0|INFO|\t\tA\n\n   \r\n0|INFO|\t\tB\r\n\t\n";
    assert_eq!(pretty_record_lines(contents), vec!["0|INFO|\t\tA", "0|INFO|\t\tB"]);
    assert!(pretty_record_lines("").is_empty());
    assert!(pretty_record_lines(" \n\n").is_empty());
}

#[test]
fn config_path_verdict_for_each_answer() {
    assert!(config_path_verdict("cfg.json", false).is_ok());
    match config_path_verdict("cfg.json", true) {
        Err(CliError::InvalidArgs { message }) => {
            assert_eq!(message, "config path must be relative to the current directory")
        }
        other => panic!("unexpected: {other:?}"),
    }
    match config_path_verdict("", true) {
        Err(CliError::InvalidArgs { message }) => assert_eq!(message, "config path cannot be empty"),
        other => panic!("unexpected: {other:?}"),
    }
}

#[test]
fn dotfile_verdict_for_each_answer() {
    assert_eq!(dotfile_verdict(" a.json\n", "d", false).unwrap(), "a.json");
    let e = dotfile_verdict(" a.json\n", "d", true).unwrap_err();
    assert_eq!(e.kind, IoKind::InvalidData);
    assert_eq!(e.message, ".bif-config at 'd' must contain a relative path, got absolute path 'a.json");
    let e = dotfile_verdict("\t", "d", true).unwrap_err();
    assert_eq!(e.message, ".bif-config at 'd' is empty; expected relative path to a JSON config file");
}

#[test]
fn stamped_entry_refuses_blank_body() {
    for body in ["", "   ", "\t\n"] {
        match stamped_entry("1".to_string(), body.to_string(), MetaMap::new(), "h".to_string()) {
            Err(CliError::Domain(DomainError::EntryParse(DomainEntryParseError::Message(m)))) => {
                assert_eq!(m, "empty body")
            }
            other => panic!("unexpected: {other:?}"),
        }
    }
    let e = stamped_entry("1".to_string(), " x ".to_string(), MetaMap::new(), "h".to_string()).unwrap();
    assert_eq!(e.validate(), Ok(()));
}

#[test]
fn init_checks_come_before_effects() {
    assert_eq!(init_checks(None, None).unwrap(), "log.bif");
    assert_eq!(init_checks(Some("daily"), Some("cfg.json")).unwrap(), "daily.bif");
    match init_checks(Some("a/b"), Some("")) {
        Err(CliError::Domain(DomainError::InvalidRecordName { name, reason })) => {
            assert_eq!(name, "a/b");
            assert_eq!(reason, "new log name must not contain path separators");
        }
        other => panic!("unexpected: {other:?}"),
    }
    match init_checks(None, Some("")) {
        Err(CliError::InvalidArgs { message }) => assert_eq!(message, "config path cannot be empty"),
        other => panic!("unexpected: {other:?}"),
    }
    match init_checks(Some("x"), Some("/abs.json")) {
        Err(CliError::InvalidArgs { message }) => {
            assert_eq!(message, "config path must be relative to the current directory")
        }
        other => panic!("unexpected: {other:?}"),
    }
}

#[test]
fn dot_relative_config_paths_are_accepted() {
    assert!(check_config_path("./b.json").is_ok());
    assert!(check_config_path("./mon_config_1.json").is_ok());
    assert_eq!(init_checks(None, Some("./b.json")).unwrap(), "log.bif");
    assert_eq!(dotfile_reference(" ./b.json\n", "d").unwrap(), "./b.json");
}
