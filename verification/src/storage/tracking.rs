use vstd::prelude::*;

use crate::domain::log_filename::has_separator;
use crate::storage::fs_store::{
    failure, failure_view, file_name_check, file_name_verdict, plain_name, text_result_view, unit_result_view,
    validate_file_name,
};
use crate::storage::storage_error::{IoFailure, IoKind};
use crate::text::{all_ws, chars_of, is_blank, lines, lines_of, trim, trim_str};

verus! {

/// The position of the last `c` in `s`, or -1.
pub open spec fn last_index_of(s: Seq<char>, c: char) -> int
    decreases s.len(),
{
    if s.len() == 0 {
        -1
    } else if s.last() == c {
        s.len() - 1
    } else {
        last_index_of(s.drop_last(), c)
    }
}

/// The extension of a plain file name, as `Path::extension` gives it: the text after the
/// last `.`, unless there is no `.` or the only one starts the name.
pub open spec fn extension_of(name: Seq<char>) -> Option<Seq<char>> {
    let i = last_index_of(name, '.');
    if i <= 0 {
        None
    } else {
        Some(name.skip(i + 1))
    }
}

/// `Path::new(name).extension()`, as text. For a name without path separators and without
/// a `:` (with which a Windows drive prefix is written), other than `..`, this is
/// `extension_of(name)`; nothing is stated of other names.
#[verifier::external_body]
pub(crate) fn path_extension(name: &str) -> (r: Option<String>)
    ensures
        !has_separator(name@) && !name@.contains(':') && name@ != ".."@ ==> match r {
            Some(e) => extension_of(name@) == Some(e@),
            None => extension_of(name@) is None,
        },
{
    match std::path::Path::new(name).extension() {
        Some(ext) => Some(ext.to_string_lossy().into_owned()),
        None => None,
    }
}

/// The code of a character with ASCII upper case letters taken to lower case.
pub open spec fn ascii_lower(c: char) -> u32 {
    if 'A' <= c && c <= 'Z' {
        ((c as u32) + 32) as u32
    } else {
        c as u32
    }
}

/// `eq_ignore_ascii_case`.
pub open spec fn eq_ignore_ascii_case(a: Seq<char>, b: Seq<char>) -> bool {
    a.len() == b.len() && forall|i: int| 0 <= i < a.len() ==> ascii_lower(#[trigger] a[i]) == ascii_lower(b[i])
}

fn ascii_lower_of(c: char) -> (r: u32)
    ensures
        r == ascii_lower(c),
{
    if 'A' <= c && c <= 'Z' {
        c as u32 + 32
    } else {
        c as u32
    }
}

fn eq_ignore_case(a: &str, b: &str) -> (r: bool)
    ensures
        r == eq_ignore_ascii_case(a@, b@),
{
    let x = chars_of(a);
    let y = chars_of(b);
    if x.len() != y.len() {
        return false;
    }
    let mut i: usize = 0;
    while i < x.len()
        invariant
            i <= x.len() == y.len(),
            x@ == a@,
            y@ == b@,
            forall|k: int| 0 <= k < i ==> ascii_lower(#[trigger] a@[k]) == ascii_lower(b@[k]),
        decreases x.len() - i,
    {
        if ascii_lower_of(x[i]) != ascii_lower_of(y[i]) {
            return false;
        }
        i = i + 1;
    }
    true
}

/// Whether a plain file name has the extension `bif`, in any letter case.
pub open spec fn is_bif_name(name: Seq<char>) -> bool {
    match extension_of(name) {
        Some(e) => eq_ignore_ascii_case(e, "bif"@),
        None => false,
    }
}

fn is_bif_file_name(file_name: &str) -> (b: bool)
    requires
        !has_separator(file_name@),
        file_name@ != ".."@,
    ensures
        !file_name@.contains(':') ==> b == is_bif_name(file_name@),
{
    match path_extension(file_name) {
        Some(ext) => eq_ignore_case(ext.as_str(), "bif"),
        None => false,
    }
}

/// Checks that a name is a plain file name (not blank, no path separators, a file name as
/// a path).
fn validate_plain_file_name(file_name: &str) -> (r: Result<(), IoFailure>)
    ensures
        exists|no_file_name: bool| #[trigger] file_name_check(file_name@, no_file_name) == unit_result_view(r)
            && (file_name@ == ".."@ ==> no_file_name),
        !all_ws(file_name@) && plain_name(file_name@) ==> r is Ok,
        file_name@ == "."@ || file_name@ == ".."@ ==> r is Err,
{
    validate_file_name(file_name)
}

/// The name checks of `resolve_existing_bif_in_cwd`, given whether the name has no file
/// name as a path and whether its extension is `bif`.
pub open spec fn bif_name_check(name: Seq<char>, no_file_name: bool, is_bif: bool) -> Result<(), (IoKind, Seq<char>)> {
    match file_name_check(name, no_file_name) {
        Err(e) => Err(e),
        Ok(()) => if is_bif {
            Ok(())
        } else {
            Err(failure(IoKind::InvalidInput, "tracked file must have .bif extension"@))
        },
    }
}

/// What `check_bif_file_name` decides about a name, given whether `Path::file_name` finds
/// no file name in it and whether `Path::extension` gives `bif` (in any letter case).
pub fn bif_name_verdict(file_name: &str, no_file_name: bool, is_bif: bool) -> (r: Result<(), IoFailure>)
    ensures
        unit_result_view(r) == bif_name_check(file_name@, no_file_name, is_bif),
{
    match file_name_verdict(file_name, no_file_name) {
        Err(e) => Err(e),
        Ok(()) => if is_bif {
            Ok(())
        } else {
            Err(IoFailure::new(IoKind::InvalidInput, String::from_str("tracked file must have .bif extension")))
        },
    }
}

/// The checks `resolve_existing_bif_in_cwd` makes before looking at the disk: a plain file
/// name with the `.bif` extension. For a name without `:`, the extension is the one
/// `extension_of` gives.
pub fn check_bif_file_name(file_name: &str) -> (r: Result<(), IoFailure>)
    ensures
        exists|no_file_name: bool, is_bif: bool|
            (file_name@ == ".."@ ==> no_file_name) && (!file_name@.contains(':') ==> is_bif == is_bif_name(file_name@))
                && #[trigger] bif_name_check(file_name@, no_file_name, is_bif) == unit_result_view(r),
        !all_ws(file_name@) && plain_name(file_name@) ==> (r is Ok <==> is_bif_name(file_name@)),
        file_name@ == "."@ || file_name@ == ".."@ ==> r is Err,
{
    let v = validate_plain_file_name(file_name);
    let ghost b = choose|b: bool| (file_name@ == ".."@ ==> b) && #[trigger] file_name_check(file_name@, b) == unit_result_view(v);
    match v {
        Err(e) => {
            let r = Err(e);
            assert(bif_name_check(file_name@, b, is_bif_name(file_name@)) == unit_result_view(r));
            return r;
        },
        Ok(()) => {},
    }
    // The name passed the checks, so it has a file name.
    let is_bif = is_bif_file_name(file_name);
    bif_name_verdict(file_name, false, is_bif)
}

/// What `set_tracked_file_path` writes into the tracking file: the path and a newline.
pub fn tracked_file_record(path: &str) -> (r: Result<String, IoFailure>)
    ensures
        text_result_view(r) == if all_ws(path@) {
            Err(failure(IoKind::InvalidInput, "tracked file path cannot be empty"@))
        } else {
            Ok(path@ + "\n"@)
        },
{
    if is_blank(path) {
        return Err(IoFailure::new(IoKind::InvalidInput, String::from_str("tracked file path cannot be empty")));
    }
    let mut s = String::from_str(path);
    s.append("\n");
    Ok(s)
}

/// The tracked path a tracking file's text names: its first line, trimmed.
pub open spec fn tracked_path(contents: Seq<char>) -> Result<Seq<char>, (IoKind, Seq<char>)> {
    let first = if lines(contents).len() > 0 { lines(contents)[0] } else { Seq::empty() };
    let path = trim(first);
    if path.len() == 0 {
        Err(failure(IoKind::InvalidData, "tracked file path is empty"@))
    } else {
        Ok(path)
    }
}

/// Reads the tracked path out of the tracking file's text.
pub fn tracked_path_from_contents(contents: &str) -> (r: Result<String, IoFailure>)
    ensures
        text_result_view(r) == tracked_path(contents@),
{
    let ls = lines_of(contents);
    let path = if ls.len() > 0 {
        trim_str(ls[0].as_str())
    } else {
        let e = String::new();
        trim_str(e.as_str())
    };
    proof {
        if ls.len() == 0 {
            assert(trim(Seq::<char>::empty()) == Seq::<char>::empty());
        }
    }
    if path.as_str().is_empty() {
        return Err(IoFailure::new(IoKind::InvalidData, String::from_str("tracked file path is empty")));
    }
    Ok(path)
}

} // verus!

verus! {

proof fn lemma_trim_front_push(a: Seq<char>, w: char)
    requires
        !all_ws(a),
    ensures
        crate::text::trim_front(a.push(w)) == crate::text::trim_front(a).push(w),
    decreases a.len(),
{
    if a.len() > 0 && crate::text::is_ws(a[0]) {
        assert(a.push(w).drop_first() == a.drop_first().push(w));
        assert(!all_ws(a.drop_first())) by {
            let k = choose|k: int| 0 <= k < a.len() && !crate::text::is_ws(a[k]);
            assert(k > 0);
            assert(a.drop_first()[k - 1] == a[k]);
        }
        lemma_trim_front_push(a.drop_first(), w);
    } else if a.len() == 0 {
        assert(all_ws(a));
    }
}

/// Trimming ignores one whitespace character at the end.
proof fn lemma_trim_drop_ws(s: Seq<char>)
    requires
        s.len() > 0,
        crate::text::is_ws(s.last()),
    ensures
        trim(s.drop_last()) == trim(s),
{
    let a = s.drop_last();
    assert(a.push(s.last()) == s);
    crate::text::lemma_trim_empty(a);
    crate::text::lemma_trim_empty(s);
    if all_ws(a) {
        assert(all_ws(s)) by {
            assert forall|i: int| 0 <= i < s.len() implies crate::text::is_ws(#[trigger] s[i]) by {
                if i < a.len() {
                    assert(s[i] == a[i]);
                }
            }
        }
        assert(trim(a).len() == 0 && trim(s).len() == 0);
    } else {
        lemma_trim_front_push(a, s.last());
        let f = crate::text::trim_front(a);
        assert(f.push(s.last()).drop_last() == f);
    }
}

/// Reading the tracking file gives back the (trimmed) path that was recorded in it.
pub proof fn lemma_tracked_roundtrip(path: Seq<char>)
    requires
        !path.contains('\n'),
        !all_ws(path),
    ensures
        tracked_path(path + "\n"@) == Ok::<Seq<char>, (IoKind, Seq<char>)>(trim(path)),
{
    reveal_strlit("\n");
    let s = path + "\n"@;
    assert("\n"@ =~= seq!['\n']);
    crate::text::lemma_index_of_concat(path, '\n', Seq::<char>::empty());
    assert(s == path + seq!['\n'] + Seq::<char>::empty());
    assert(s.take(path.len() as int) == path);
    assert(s.skip(path.len() as int + 1) == Seq::<char>::empty());
    assert(lines(Seq::<char>::empty()) == Seq::<Seq<char>>::empty());
    let line = if path.len() > 0 && path.last() == '\r' { path.drop_last() } else { path };
    assert(lines(s) == seq![line]);
    if path.len() > 0 && path.last() == '\r' {
        lemma_trim_drop_ws(path);
    }
    crate::text::lemma_trim_empty(path);
}

} // verus!
