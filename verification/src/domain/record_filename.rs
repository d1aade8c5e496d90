use vstd::prelude::*;

use crate::domain::domain_error::DomainError;
use crate::domain::log_filename::{domain_result_view, has_separator, lemma_trim_keeps, lemma_trimmed_ends, str_option_view, with_bif_extension};
use crate::text::{contains_char, ends_with, ends_with_str, trim, trim_str};

verus! {

/// What `normalize_record_filename` gives: `Ok(file name)`, or `Err((name, reason))`.
pub open spec fn record_filename(name: Option<Seq<char>>) -> Result<Seq<char>, (Seq<char>, Seq<char>)> {
    match name {
        None => Ok("Record.bif"@),
        Some(n) => {
            let raw = trim(n);
            if raw.len() == 0 {
                Err((raw, "record name cannot be empty"@))
            } else if has_separator(raw) {
                Err((raw, "record name must not contain path separators"@))
            } else {
                Ok(with_bif_extension(raw))
            }
        },
    }
}

/// Normalizes the file name of a new record: no name gives `Record.bif`; a name
/// is trimmed, must not be empty or hold a path separator, and gets `.bif` appended when
/// it does not already end with it.
pub fn normalize_record_filename(name: Option<&str>) -> (r: Result<String, DomainError>)
    ensures
        domain_result_view(r) == record_filename(str_option_view(name)),
        r is Err ==> r->Err_0 is InvalidRecordName,
{
    let raw = match name {
        None => {
            return Ok(String::from_str("Record.bif"));
        },
        Some(n) => trim_str(n),
    };
    if raw.as_str().is_empty() {
        return Err(DomainError::InvalidRecordName {
            name: raw,
            reason: String::from_str("record name cannot be empty"),
        });
    }
    if contains_char(raw.as_str(), '/') || contains_char(raw.as_str(), '\\') {
        return Err(DomainError::InvalidRecordName {
            name: raw,
            reason: String::from_str("record name must not contain path separators"),
        });
    }
    if ends_with_str(raw.as_str(), ".bif") {
        Ok(raw)
    } else {
        Ok(raw.concat(".bif"))
    }
}

} // verus!

verus! {

/// A normalized record file name ends with `.bif`, holds no path separator, and
/// normalizing it again gives it back unchanged.
pub proof fn lemma_record_filename_normal(name: Option<Seq<char>>)
    ensures
        record_filename(name) matches Ok(f) ==> ends_with(f, ".bif"@) && !has_separator(f) && record_filename(Some(f)) == Ok::<Seq<char>, (Seq<char>, Seq<char>)>(f),
{
    reveal_strlit(".bif");
    reveal_strlit("Record.bif");
    if let Ok(f) = record_filename(name) {
        let ext = ".bif"@;
        match name {
            None => {
                assert(f == "Record.bif"@);
                assert(f.skip(6) =~= ext);
                assert(!f.contains('/') && !f.contains('\\')) by {
                    if f.contains('/') || f.contains('\\') {
                        let k = choose|k: int| 0 <= k < f.len() && (f[k] == '/' || f[k] == '\\');
                        assert(false);
                    }
                }
                lemma_trim_keeps(f);
            },
            Some(n) => {
                let raw = trim(n);
                lemma_trimmed_ends(n);
                if ends_with(raw, ext) {
                    assert(f == raw);
                    lemma_trim_keeps(f);
                } else {
                    assert(f == raw + ext);
                    assert(f.skip(f.len() - 4) =~= ext);
                    assert(!f.contains('/') && !f.contains('\\')) by {
                        if f.contains('/') || f.contains('\\') {
                            let k = choose|k: int| 0 <= k < f.len() && (f[k] == '/' || f[k] == '\\');
                            if k < raw.len() {
                                assert(raw[k] == f[k]);
                            } else {
                                assert(ext[k - raw.len()] == f[k]);
                            }
                        }
                    }
                    assert(f[0] == raw[0]);
                    assert(f.last() == 'f');
                    lemma_trim_keeps(f);
                }
            },
        }
    }
}

} // verus!
