use vstd::prelude::*;

use crate::domain::domain_error::DomainError;
use crate::text::{contains_char, ends_with, ends_with_str, trim, trim_str};

verus! {

/// Whether `s` holds a `/` or a `\`.
pub open spec fn has_separator(s: Seq<char>) -> bool {
    s.contains('/') || s.contains('\\')
}

/// `name` with `.bif` appended unless it already ends so.
pub open spec fn with_bif_extension(name: Seq<char>) -> Seq<char> {
    if ends_with(name, ".bif"@) {
        name
    } else {
        name + ".bif"@
    }
}

/// What `normalize_log_filename` gives: `Ok(file name)`, or `Err((name, reason))`.
pub open spec fn log_filename(name: Option<Seq<char>>) -> Result<Seq<char>, (Seq<char>, Seq<char>)> {
    match name {
        None => Ok("log.bif"@),
        Some(n) => {
            let raw = trim(n);
            if raw.len() == 0 {
                Err((raw, "new log name cannot be empty"@))
            } else if has_separator(raw) {
                Err((raw, "new log name must not contain path separators"@))
            } else {
                Ok(with_bif_extension(raw))
            }
        },
    }
}

pub open spec fn domain_result_view(r: Result<String, DomainError>) -> Result<Seq<char>, (Seq<char>, Seq<char>)> {
    match r {
        Ok(s) => Ok(s@),
        Err(DomainError::InvalidRecordName { name, reason }) => Err((name@, reason@)),
        Err(DomainError::EntryParse(_)) => Err((Seq::empty(), Seq::empty())),
    }
}

pub open spec fn str_option_view(name: Option<&str>) -> Option<Seq<char>> {
    match name {
        Some(n) => Some(n@),
        None => None,
    }
}

/// Normalizes the file name of a new log for `bif init`: no name gives `log.bif`; a name
/// is trimmed, must not be empty or hold a path separator, and gets `.bif` appended when
/// it does not already end with it.
pub fn normalize_log_filename(name: Option<&str>) -> (r: Result<String, DomainError>)
    ensures
        domain_result_view(r) == log_filename(str_option_view(name)),
        r is Err ==> r->Err_0 is InvalidRecordName,
{
    let raw = match name {
        None => {
            return Ok(String::from_str("log.bif"));
        },
        Some(n) => trim_str(n),
    };
    if raw.as_str().is_empty() {
        return Err(DomainError::InvalidRecordName {
            name: raw,
            reason: String::from_str("new log name cannot be empty"),
        });
    }
    if contains_char(raw.as_str(), '/') || contains_char(raw.as_str(), '\\') {
        return Err(DomainError::InvalidRecordName {
            name: raw,
            reason: String::from_str("new log name must not contain path separators"),
        });
    }
    if ends_with_str(raw.as_str(), ".bif") {
        Ok(raw)
    } else {
        Ok(raw.concat(".bif"))
    }
}

} // verus!

verus! {

pub proof fn lemma_trim_keeps(s: Seq<char>)
    requires
        s.len() > 0,
        !crate::text::is_ws(s[0]),
        !crate::text::is_ws(s.last()),
    ensures
        trim(s) == s,
{
}

/// A normalized log file name ends with `.bif`, holds no path separator, and normalizing
/// it again gives it back unchanged.
pub proof fn lemma_log_filename_normal(name: Option<Seq<char>>)
    ensures
        log_filename(name) matches Ok(f) ==> ends_with(f, ".bif"@) && !has_separator(f) && log_filename(Some(f)) == Ok::<Seq<char>, (Seq<char>, Seq<char>)>(f),
{
    reveal_strlit(".bif");
    reveal_strlit("log.bif");
    if let Ok(f) = log_filename(name) {
        let ext = ".bif"@;
        match name {
            None => {
                assert(f == "log.bif"@);
                assert(f.skip(3) =~= ext);
                assert(!f.contains('/') && !f.contains('\\')) by {
                    if f.contains('/') || f.contains('\\') {
                        let k = choose|k: int| 0 <= k < f.len() && (f[k] == '/' || f[k] == '\\');
                        assert(false);
                    }
                }
                lemma_trim_keeps(f);
            },
            Some(n) => {
                let raw = trim(n);
                lemma_trimmed_ends(n);
                if ends_with(raw, ext) {
                    assert(f == raw);
                    lemma_trim_keeps(f);
                } else {
                    assert(f == raw + ext);
                    assert(f.skip(f.len() - 4) =~= ext);
                    assert(!f.contains('/') && !f.contains('\\')) by {
                        if f.contains('/') || f.contains('\\') {
                            let k = choose|k: int| 0 <= k < f.len() && (f[k] == '/' || f[k] == '\\');
                            if k < raw.len() {
                                assert(raw[k] == f[k]);
                            } else {
                                assert(ext[k - raw.len()] == f[k]);
                            }
                        }
                    }
                    assert(f[0] == raw[0]);
                    assert(f.last() == 'f');
                    lemma_trim_keeps(f);
                }
            },
        }
    }
}

/// The trimmed text starts and ends with non-whitespace (when not empty).
pub proof fn lemma_trimmed_ends(s: Seq<char>)
    ensures
        trim(s).len() > 0 ==> !crate::text::is_ws(trim(s)[0]) && !crate::text::is_ws(trim(s).last()),
{
    lemma_trim_front_start(s);
    lemma_trim_back_props(crate::text::trim_front(s));
}

proof fn lemma_trim_front_start(s: Seq<char>)
    ensures
        crate::text::trim_front(s).len() > 0 ==> !crate::text::is_ws(crate::text::trim_front(s)[0]),
    decreases s.len(),
{
    if s.len() > 0 && crate::text::is_ws(s[0]) {
        lemma_trim_front_start(s.drop_first());
    }
}

proof fn lemma_trim_back_props(s: Seq<char>)
    ensures
        crate::text::trim_back(s).len() > 0 ==> !crate::text::is_ws(crate::text::trim_back(s).last()),
        crate::text::trim_back(s).len() > 0 ==> crate::text::trim_back(s)[0] == s[0],
        crate::text::trim_back(s).len() <= s.len(),
    decreases s.len(),
{
    if s.len() > 0 && crate::text::is_ws(s.last()) {
        lemma_trim_back_props(s.drop_last());
    }
}

} // verus!
