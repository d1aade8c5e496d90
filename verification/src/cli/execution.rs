use vstd::prelude::*;

use crate::cli::cli_error::CliError;
use crate::cli::config::{strings_view, PrettyConfig, PrettyConfigView};
use crate::cli::config_resolver::{path_is_absolute, plainly_relative, ConfigOrigin};
use crate::domain::entry::{
    entry_error, entry_record, lemma_entry_roundtrip, lemma_record_end, lemma_record_one_line, parse_entry,
    record_safe, source_text, Entry, EntryLevel, EntryView, ParseErr, Stamp, StampView,
};
use crate::domain::domain_error::{DomainError, EntryParseError as DomainEntryParseError};
use crate::domain::log_filename::{
    domain_result_view, has_separator, log_filename, normalize_log_filename, str_option_view,
};
use crate::domain::meta::{lookup, MetaMap};
use crate::domain::stamp_format::{render_stamp, rendered_stamp};
use crate::json::{json_object, json_string_map};
use crate::storage::fs_store::{lemma_append_line, line_from_end};
use crate::storage::storage_error::{IoFailure, IoKind};
use crate::text::{all_ws, is_blank, join, join_strings, lines, lines_of, none_contains, str_eq};

verus! {

pub open spec fn no_tracked_log_text() -> Seq<char> {
    "no tracked log. Run `bif init` or `bif track <name>`."@
}

/// The tracked log's path, or the error telling how to get one when reading it failed.
pub fn require_tracked_log(found: Result<String, IoFailure>) -> (r: Result<String, CliError>)
    ensures
        found is Ok ==> r is Ok && r->Ok_0@ == found->Ok_0@,
        found is Err ==> (r matches Err(CliError::InvalidArgs { message }) && message@ == no_tracked_log_text()),
{
    match found {
        Ok(path) => Ok(path),
        Err(_) => Err(CliError::InvalidArgs {
            message: String::from_str("no tracked log. Run `bif init` or `bif track <name>`."),
        }),
    }
}

/// The refusal of a config path, given whether it is absolute: it must be non-empty and
/// relative to the working directory.
pub open spec fn config_path_refusal(rel: Seq<char>, absolute: bool) -> Option<Seq<char>> {
    if rel.len() == 0 {
        Some("config path cannot be empty"@)
    } else if absolute {
        Some("config path must be relative to the current directory"@)
    } else {
        None
    }
}

pub open spec fn invalid_args_view(r: Result<(), CliError>) -> Option<Seq<char>> {
    match r {
        Err(CliError::InvalidArgs { message }) => Some(message@),
        _ => None,
    }
}

/// What `check_config_path` decides about a path, given whether `Path::is_absolute` holds
/// of it.
pub fn config_path_verdict(rel: &str, absolute: bool) -> (r: Result<(), CliError>)
    ensures
        r is Err ==> r->Err_0 is InvalidArgs,
        invalid_args_view(r) == config_path_refusal(rel@, absolute),
{
    if rel.is_empty() {
        return Err(CliError::InvalidArgs { message: String::from_str("config path cannot be empty") });
    }
    if absolute {
        return Err(CliError::InvalidArgs {
            message: String::from_str("config path must be relative to the current directory"),
        });
    }
    Ok(())
}

/// Checks a config path given to `init --config` or `config set --local`.
pub fn check_config_path(rel: &str) -> (r: Result<(), CliError>)
    ensures
        r is Err ==> r->Err_0 is InvalidArgs,
        exists|absolute: bool| #[trigger] config_path_refusal(rel@, absolute) == invalid_args_view(r),
        !has_separator(rel@) ==> invalid_args_view(r) == config_path_refusal(rel@, false),
        plainly_relative(rel@) ==> invalid_args_view(r) == config_path_refusal(rel@, false),
        rel@.len() > 0 && plainly_relative(rel@) ==> r is Ok,
{
    let absolute = path_is_absolute(rel);
    config_path_verdict(rel, absolute)
}

/// What `init` checks before it creates anything: the new log's file name, then the config
/// path when one is given (given whether `Path::is_absolute` holds of it). Every refusal
/// comes before a file is written; success gives the log's file name.
pub open spec fn init_check_result(name: Option<Seq<char>>, config_path: Option<Seq<char>>, absolute: bool) -> Result<Seq<char>, Option<Seq<char>>> {
    match log_filename(name) {
        Err(_) => Err(None),
        Ok(f) => match config_path {
            None => Ok(f),
            Some(c) => match config_path_refusal(c, absolute) {
                Some(msg) => Err(Some(msg)),
                None => Ok(f),
            },
        },
    }
}

/// A refusal as `init_check_result` gives it: a domain error (the name), or the message of
/// an argument error (the config path).
pub open spec fn init_result_view(r: Result<String, CliError>) -> Result<Seq<char>, Option<Seq<char>>> {
    match r {
        Ok(f) => Ok(f@),
        Err(CliError::InvalidArgs { message }) => Err(Some(message@)),
        Err(_) => Err(None),
    }
}

/// The checks `init` makes before any effect: the log's file name is normalized and the
/// config path, when given, must be a non-empty relative path.
pub fn init_checks(name_of_new_log: Option<&str>, config_path: Option<&str>) -> (r: Result<String, CliError>)
    ensures
        exists|absolute: bool|
            (config_path matches Some(c) && (!has_separator(c@) || plainly_relative(c@)) ==> !absolute)
                && #[trigger] init_check_result(str_option_view(name_of_new_log), str_option_view(config_path), absolute)
                == init_result_view(r),
        r is Err ==> (r->Err_0 is Domain || r->Err_0 is InvalidArgs),
        log_filename(str_option_view(name_of_new_log)) is Ok && (config_path matches Some(c) ==> c@.len() > 0
            && plainly_relative(c@)) ==> r is Ok && r->Ok_0@ == log_filename(str_option_view(name_of_new_log))->Ok_0,
        log_filename(str_option_view(name_of_new_log)) is Err ==> (r matches Err(CliError::Domain(d))
            && domain_result_view(Err(d)) == log_filename(str_option_view(name_of_new_log))),
{
    let file_name = match normalize_log_filename(name_of_new_log) {
        Ok(f) => f,
        Err(e) => {
            let r = Err(CliError::Domain(e));
            assert(init_check_result(str_option_view(name_of_new_log), str_option_view(config_path), false) == init_result_view(r));
            return r;
        },
    };
    match config_path {
        None => {
            let r = Ok(file_name);
            assert(init_check_result(str_option_view(name_of_new_log), str_option_view(config_path), false) == init_result_view(r));
            r
        },
        Some(rel) => {
            let absolute = path_is_absolute(rel);
            match config_path_verdict(rel, absolute) {
                Err(e) => {
                    let r = Err(e);
                    assert(init_check_result(str_option_view(name_of_new_log), str_option_view(config_path), absolute) == init_result_view(r));
                    r
                },
                Ok(()) => {
                    let r = Ok(file_name);
                    assert(init_check_result(str_option_view(name_of_new_log), str_option_view(config_path), absolute) == init_result_view(r));
                    r
                },
            }
        },
    }
}

/// The metadata values shown for the chosen keys: a missing key shows as empty.
pub open spec fn meta_values(keys: Seq<Seq<char>>, meta: Seq<(Seq<char>, Seq<char>)>) -> Seq<Seq<char>> {
    keys.map_values(|k: Seq<char>| match lookup(meta, k) {
        Some(v) => v,
        None => Seq::<char>::empty(),
    })
}

/// The pretty stamp of an entry from its metadata: the values of the configured keys,
/// joined by the configured separator.
pub open spec fn meta_stamp(e: EntryView, p: PrettyConfigView) -> Seq<char> {
    join(meta_values(p.meta_keys, e.meta), p.meta_sep)
}

/// Renders the stamp of `read --pretty` from the entry's metadata.
pub fn render_pretty_stamp_from_meta(entry: &Entry, pretty_cfg: &PrettyConfig) -> (s: String)
    ensures
        s@ == meta_stamp(entry@, pretty_cfg@),
{
    let ghost all = meta_values(pretty_cfg@.meta_keys, entry@.meta);
    let mut parts: Vec<String> = Vec::new();
    let mut i: usize = 0;
    while i < pretty_cfg.meta_keys.len()
        invariant
            i <= pretty_cfg.meta_keys.len(),
            all == meta_values(pretty_cfg@.meta_keys, entry@.meta),
            parts@.map_values(|p: String| p@) == all.take(i as int),
        decreases pretty_cfg.meta_keys.len() - i,
    {
        let v = match entry.meta.get(pretty_cfg.meta_keys[i].as_str()) {
            Some(v) => v.clone(),
            None => String::new(),
        };
        let ghost before = parts@;
        parts.push(v);
        assert(parts@.map_values(|p: String| p@) == before.map_values(|p: String| p@).push(v@));
        assert(all.take(i + 1) == all.take(i as int).push(all[i as int]));
        i = i + 1;
    }
    assert(all.take(pretty_cfg.meta_keys.len() as int) == all);
    join_strings(&parts, pretty_cfg.meta_sep.as_str())
}

/// Whether a line holds something besides whitespace.
pub open spec fn not_blank() -> spec_fn(Seq<char>) -> bool {
    |l: Seq<char>| !all_ws(l)
}

/// The record lines `read --pretty` shows of a whole file: its lines that are not blank.
pub open spec fn pretty_lines(contents: Seq<char>) -> Seq<Seq<char>> {
    lines(contents).filter(not_blank())
}

/// The lines of a file's text that `read --pretty` parses, in order, blank ones skipped.
pub fn pretty_record_lines(contents: &str) -> (ls: Vec<String>)
    ensures
        ls@.map_values(|s: String| s@) == pretty_lines(contents@),
{
    let all = lines_of(contents);
    let ghost ls = lines(contents@);
    let mut out: Vec<String> = Vec::new();
    let mut i: usize = 0;
    proof {
        reveal(Seq::filter);
        assert(ls.take(0) == Seq::<Seq<char>>::empty());
    }
    while i < all.len()
        invariant
            i <= all.len(),
            all@.map_values(|s: String| s@) == ls,
            ls == lines(contents@),
            out@.map_values(|s: String| s@) == ls.take(i as int).filter(not_blank()),
        decreases all.len() - i,
    {
        let ghost before = out@;
        proof {
            assert(ls.take(i + 1) == ls.take(i as int).push(ls[i as int]));
            ls.take(i as int).lemma_filter_push(ls[i as int], not_blank());
            assert(all@[i as int]@ == ls[i as int]);
        }
        if !is_blank(all[i].as_str()) {
            out.push(all[i].clone());
            assert(out@.map_values(|s: String| s@) == before.map_values(|s: String| s@).push(ls[i as int]));
        }
        i = i + 1;
    }
    assert(ls.take(all.len() as int) == ls);
    out
}

/// One line of `read --pretty`: the stamp (from metadata when keys are chosen, else in
/// the legacy stamp layout), a tab, and the body.
pub open spec fn pretty_line_text(e: EntryView, p: PrettyConfigView) -> Seq<char> {
    let stamp = if p.meta_keys.len() > 0 { meta_stamp(e, p) } else { rendered_stamp(e.stamp, p.legacy_stamp_format) };
    stamp + "\t"@ + e.body
}

/// Renders one entry for `read --pretty`.
pub fn pretty_line(entry: &Entry, pretty_cfg: &PrettyConfig) -> (s: String)
    ensures
        s@ == pretty_line_text(entry@, pretty_cfg@),
{
    let mut stamp = if pretty_cfg.meta_keys.len() > 0 {
        render_pretty_stamp_from_meta(entry, pretty_cfg)
    } else {
        render_stamp(&entry.stamp, &pretty_cfg.legacy_stamp_format)
    };
    stamp.append("\t");
    stamp.append(entry.body.as_str());
    stamp
}

/// The warning `read --pretty` gives for an entry whose recorded configuration hash is not
/// the current one.
pub open spec fn cfg_warning_text(e: EntryView, current: Seq<char>) -> Option<Seq<char>> {
    if e.meta.len() == 0 {
        None
    } else {
        match lookup(e.meta, "_cfg_hash"@) {
            Some(stored) => if stored != current {
                Some("bif: pretty: cfg hash mismatch (entry _cfg_hash="@ + stored + ", current="@ + current + ")"@)
            } else {
                None
            },
            None => None,
        }
    }
}

/// Compares the entry's recorded configuration hash with the current one.
pub fn cfg_hash_warning(entry: &Entry, current_cfg_hash: &str) -> (w: Option<String>)
    ensures
        match w {
            Some(s) => cfg_warning_text(entry@, current_cfg_hash@) == Some(s@),
            None => cfg_warning_text(entry@, current_cfg_hash@) is None,
        },
{
    if entry.meta.is_empty() {
        return None;
    }
    match entry.meta.get("_cfg_hash") {
        Some(stored) => {
            if !str_eq(stored.as_str(), current_cfg_hash) {
                let mut s = String::from_str("bif: pretty: cfg hash mismatch (entry _cfg_hash=");
                s.append(stored.as_str());
                s.append(", current=");
                s.append(current_cfg_hash);
                s.append(")");
                Some(s)
            } else {
                None
            }
        },
        None => None,
    }
}

/// The lines `config show` prints for an origin; `global_path` is the user-level file's
/// path when that file exists.
pub open spec fn config_show_text(origin: ConfigOrigin, global_path: Option<Seq<char>>) -> Seq<Seq<char>> {
    match origin {
        ConfigOrigin::Local { dotfile_path, json_path } => seq![
            "local"@,
            ".bif-config: "@ + dotfile_path@,
            "config: "@ + json_path@,
        ],
        ConfigOrigin::Global => seq![
            "global"@,
            match global_path {
                Some(p) => "config: "@ + p,
                None => "config: default"@,
            },
        ],
        ConfigOrigin::Default => seq!["default"@, "config: default"@],
    }
}

/// The lines of `config show`.
pub fn config_show_lines(origin: &ConfigOrigin, global_path: Option<String>) -> (ls: Vec<String>)
    ensures
        ls@.map_values(|s: String| s@) == config_show_text(*origin, match global_path {
            Some(p) => Some(p@),
            None => None,
        }),
{
    let mut ls: Vec<String> = Vec::new();
    match origin {
        ConfigOrigin::Local { dotfile_path, json_path } => {
            ls.push(String::from_str("local"));
            let mut a = String::from_str(".bif-config: ");
            a.append(dotfile_path.as_str());
            ls.push(a);
            let mut b = String::from_str("config: ");
            b.append(json_path.as_str());
            ls.push(b);
        },
        ConfigOrigin::Global => {
            ls.push(String::from_str("global"));
            match &global_path {
                Some(p) => {
                    let mut b = String::from_str("config: ");
                    b.append(p.as_str());
                    ls.push(b);
                },
                None => ls.push(String::from_str("config: default")),
            }
        },
        ConfigOrigin::Default => {
            ls.push(String::from_str("default"));
            ls.push(String::from_str("config: default"));
        },
    }
    assert(ls@.map_values(|s: String| s@) =~= config_show_text(*origin, match global_path {
        Some(p) => Some(p@),
        None => None,
    }));
    ls
}

/// The message of `config set --local`: whether a `.bif-config` was replaced or created.
pub fn set_local_message(rel: &str, existed: bool) -> (s: String)
    ensures
        s@ == if existed { "Updated local config tracking: "@ + rel@ } else { "Tracked local config: "@ + rel@ },
{
    let mut s = if existed {
        String::from_str("Updated local config tracking: ")
    } else {
        String::from_str("Tracked local config: ")
    };
    s.append(rel);
    s
}

/// The text of a `.bif-config` file referring to `rel`.
pub fn config_dotfile_text(rel: &str) -> (s: String)
    ensures
        s@ == rel@ + "\n"@,
{
    let mut s = String::from_str(rel);
    s.append("\n");
    s
}

/// The message after `init`.
pub fn init_message(path: &str) -> (s: String)
    ensures
        s@ == "Initialized empty record: "@ + path@,
{
    let mut s = String::from_str("Initialized empty record: ");
    s.append(path);
    s
}

/// The message after `track`.
pub fn track_message(path: &str) -> (s: String)
    ensures
        s@ == "Tracked record: "@ + path@,
{
    let mut s = String::from_str("Tracked record: ");
    s.append(path);
    s
}

/// The refusal of an entry whose body is empty after trimming.
pub open spec fn is_empty_body_error(e: CliError) -> bool {
    e matches CliError::Domain(DomainError::EntryParse(DomainEntryParseError::Message(m))) && m@ == "empty body"@
}

/// The entry `new` appends: the body stamped `INFO` with the given timestamp and no
/// source, carrying the providers' metadata and the configuration hash under `_cfg_hash`.
/// A body that is empty after trimming breaks the entry invariant and is refused, before
/// anything is written.
pub fn stamped_entry(timestamp: String, body: String, provider_meta: MetaMap, cfg_hash: String) -> (r: Result<Entry, CliError>)
    ensures
        r is Err <==> all_ws(body@),
        r is Err ==> is_empty_body_error(r->Err_0),
        r is Ok ==> ({
            let e = r->Ok_0;
            &&& e@.stamp == (StampView { timestamp: timestamp@, level: EntryLevel::INFO, source: None })
            &&& e@.body == body@
            &&& e@.tags.len() == 0
            &&& e.meta.spec_get("_cfg_hash"@) == Some(cfg_hash@)
            &&& forall|k: Seq<char>| k != "_cfg_hash"@ ==> #[trigger] e.meta.spec_get(k) == provider_meta.spec_get(k)
            &&& !all_ws(timestamp@) ==> entry_error(e@) is None
        }),
{
    if is_blank(body.as_str()) {
        return Err(CliError::Domain(DomainError::EntryParse(DomainEntryParseError::new(String::from_str("empty body")))));
    }
    let stamp = Stamp::new(timestamp, EntryLevel::INFO, None);
    let mut meta = provider_meta;
    meta.insert(String::from_str("_cfg_hash"), cfg_hash);
    let mut entry = Entry::new(stamp, body);
    entry.meta = meta;
    assert(entry@.tags =~= Seq::<Seq<char>>::empty());
    Ok(entry)
}

/// What `bif new` appends, `bif read -1` gives back: once the record of an entry and a
/// newline are appended to a log's text that is empty or ends with a newline, the last
/// record line is that record, and it parses to the entry again (as far as the JSON parser
/// reads back the metadata's JSON).
pub proof fn lemma_new_then_read_last(contents: Seq<char>, e: EntryView)
    requires
        contents.len() == 0 || contents.last() == '\n',
        record_safe(e),
        e.meta.len() > 0 ==> json_string_map(json_object(e.meta)) == Some(e.meta),
        !e.stamp.timestamp.contains('\n'),
        !source_text(e.stamp.source).contains('\n'),
        none_contains(e.tags, '\n'),
    ensures
        line_from_end(contents + entry_record(e) + seq!['\n'], 1) == Ok::<Seq<char>, (IoKind, Seq<char>)>(entry_record(e)),
        parse_entry(entry_record(e)) == Ok::<EntryView, ParseErr>(e),
{
    lemma_record_one_line(e);
    lemma_record_end(e);
    lemma_append_line(contents, entry_record(e));
    lemma_entry_roundtrip(e);
}

/// `bif new` keeps a log readable: when every record line of a log's text (empty, or
/// ending with a newline) parses, so does every line after the record of a valid entry and
/// a newline are appended (as far as the JSON parser reads back the metadata's JSON).
pub proof fn lemma_new_keeps_log_parseable(contents: Seq<char>, e: EntryView)
    requires
        contents.len() == 0 || contents.last() == '\n',
        forall|i: int| 0 <= i < lines(contents).len() ==> parse_entry(#[trigger] lines(contents)[i]) is Ok,
        record_safe(e),
        e.meta.len() > 0 ==> json_string_map(json_object(e.meta)) == Some(e.meta),
        !e.stamp.timestamp.contains('\n'),
        !source_text(e.stamp.source).contains('\n'),
        none_contains(e.tags, '\n'),
    ensures
        lines(contents + entry_record(e) + seq!['\n']) == lines(contents).push(entry_record(e)),
        forall|i: int| 0 <= i < lines(contents + entry_record(e) + seq!['\n']).len()
            ==> parse_entry(#[trigger] lines(contents + entry_record(e) + seq!['\n'])[i]) is Ok,
{
    lemma_record_one_line(e);
    lemma_record_end(e);
    lemma_append_line(contents, entry_record(e));
    lemma_entry_roundtrip(e);
    let all = lines(contents).push(entry_record(e));
    assert forall|i: int| 0 <= i < all.len() implies parse_entry(#[trigger] all[i]) is Ok by {
        if i < lines(contents).len() {
            assert(all[i] == lines(contents)[i]);
        }
    }
}

} // verus!
