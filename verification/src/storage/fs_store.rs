use vstd::prelude::*;

use crate::domain::log_filename::has_separator;
use crate::storage::storage_error::{IoFailure, IoKind};
use crate::text::{all_ws, contains_char, is_blank, join, join_strings, lemma_join_push, lines, lines_of};

verus! {

/// A single plain name: not empty, no path separator, no `:` (with which a Windows drive
/// prefix is written), and neither `.` nor `..`.
pub open spec fn plain_name(name: Seq<char>) -> bool {
    name.len() > 0 && !has_separator(name) && !name.contains(':') && name != "."@ && name != ".."@
}

/// `Path::new(name).file_name().is_none()`. `file_name` gives the final component when it
/// is a name: a plain name is its own single, normal component, so it has a file name;
/// `.` (the current directory) and a path ending in `..` have none.
#[verifier::external_body]
pub(crate) fn path_has_no_file_name(name: &str) -> (b: bool)
    ensures
        name@ == ".."@ ==> b,
        name@ == "."@ ==> b,
        plain_name(name@) ==> !b,
{
    std::path::Path::new(name).file_name().is_none()
}

/// An I/O failure as a plain value: a kind and a message.
pub open spec fn failure(kind: IoKind, message: Seq<char>) -> (IoKind, Seq<char>) {
    (kind, message)
}

pub open spec fn failure_view(e: IoFailure) -> (IoKind, Seq<char>) {
    (e.kind, e.message@)
}

pub open spec fn unit_result_view(r: Result<(), IoFailure>) -> Result<(), (IoKind, Seq<char>)> {
    match r {
        Ok(()) => Ok(()),
        Err(e) => Err(failure_view(e)),
    }
}

pub open spec fn text_result_view(r: Result<String, IoFailure>) -> Result<Seq<char>, (IoKind, Seq<char>)> {
    match r {
        Ok(s) => Ok(s@),
        Err(e) => Err(failure_view(e)),
    }
}

/// What `validate_file_name` decides, given whether the name has no file name as a path.
pub open spec fn file_name_check(name: Seq<char>, no_file_name: bool) -> Result<(), (IoKind, Seq<char>)> {
    if all_ws(name) {
        Err(failure(IoKind::InvalidInput, "record file name cannot be empty"@))
    } else if has_separator(name) {
        Err(failure(IoKind::InvalidInput, "record file name must not contain path separators"@))
    } else if no_file_name {
        Err(failure(IoKind::InvalidInput, "record file name is invalid"@))
    } else {
        Ok(())
    }
}

/// What `validate_file_name` decides about a name, given whether `Path::file_name` finds
/// no file name in it.
pub fn file_name_verdict(file_name: &str, no_file_name: bool) -> (r: Result<(), IoFailure>)
    ensures
        unit_result_view(r) == file_name_check(file_name@, no_file_name),
{
    if is_blank(file_name) {
        return Err(IoFailure::new(IoKind::InvalidInput, String::from_str("record file name cannot be empty")));
    }
    if contains_char(file_name, '/') || contains_char(file_name, '\\') {
        return Err(IoFailure::new(IoKind::InvalidInput, String::from_str("record file name must not contain path separators")));
    }
    if no_file_name {
        return Err(IoFailure::new(IoKind::InvalidInput, String::from_str("record file name is invalid")));
    }
    Ok(())
}

/// Checks that a record file name is a single, plain file name: not blank, without path
/// separators, and a file name as a path.
pub fn validate_file_name(file_name: &str) -> (r: Result<(), IoFailure>)
    ensures
        exists|no_file_name: bool| #[trigger] file_name_check(file_name@, no_file_name) == unit_result_view(r)
            && (file_name@ == ".."@ ==> no_file_name),
        !all_ws(file_name@) && plain_name(file_name@) ==> r is Ok,
        file_name@ == "."@ || file_name@ == ".."@ ==> r is Err,
{
    let none = path_has_no_file_name(file_name);
    file_name_verdict(file_name, none)
}

/// A record line must not hold a newline, so that it stays one line of the file.
pub fn check_record_line(line: &str) -> (r: Result<(), IoFailure>)
    ensures
        r is Ok <==> !line@.contains('\n'),
        r is Err ==> failure_view(r->Err_0) == failure(IoKind::InvalidInput, "record line must not contain newline"@),
{
    if contains_char(line, '\n') {
        return Err(IoFailure::new(IoKind::InvalidInput, String::from_str("record line must not contain newline")));
    }
    Ok(())
}

/// File text holding the given lines, each ended by a newline (empty for no lines).
pub open spec fn lines_text(ls: Seq<Seq<char>>) -> Seq<char> {
    if ls.len() == 0 {
        Seq::empty()
    } else {
        join(ls, seq!['\n']) + seq!['\n']
    }
}

/// Record lines as a file holds them, and as `read N` prints them: each line ended by a
/// newline.
pub fn records_text(ls: &Vec<String>) -> (s: String)
    ensures
        s@ == lines_text(ls@.map_values(|p: String| p@)),
{
    if ls.len() == 0 {
        String::new()
    } else {
        let mut s = join_strings(ls, "\n");
        s.append("\n");
        proof {
            reveal_strlit("\n");
            assert("\n"@ =~= seq!['\n']);
        }
        s
    }
}

pub open spec fn no_entries_to_delete() -> (IoKind, Seq<char>) {
    failure(IoKind::InvalidInput, "no entries to delete"@)
}

/// The file text without its last record line.
pub open spec fn without_last_line(contents: Seq<char>) -> Result<Seq<char>, (IoKind, Seq<char>)> {
    if all_ws(contents) || lines(contents).len() == 0 {
        Err(no_entries_to_delete())
    } else {
        Ok(lines_text(lines(contents).drop_last()))
    }
}

/// The text `delete_last_record_line` writes back: the file without its last line; the
/// remaining lines each end with a newline.
pub fn delete_last_record_line(contents: &str) -> (r: Result<String, IoFailure>)
    ensures
        text_result_view(r) == without_last_line(contents@),
{
    if is_blank(contents) {
        return Err(IoFailure::new(IoKind::InvalidInput, String::from_str("no entries to delete")));
    }
    let mut ls = lines_of(contents);
    if ls.len() == 0 {
        return Err(IoFailure::new(IoKind::InvalidInput, String::from_str("no entries to delete")));
    }
    let ghost before = ls@;
    ls.pop();
    assert(ls@.map_values(|p: String| p@) == before.map_values(|p: String| p@).drop_last());
    Ok(records_text(&ls))
}

/// The last `n` record lines (all of them when there are fewer).
pub open spec fn last_lines(contents: Seq<char>, n: nat) -> Seq<Seq<char>> {
    let ls = lines(contents);
    if n >= ls.len() {
        ls
    } else {
        ls.skip(ls.len() - n)
    }
}

/// The last `n` record lines of a file's text, oldest first.
pub fn read_last_n_record_lines(contents: &str, n: usize) -> (r: Vec<String>)
    ensures
        r@.map_values(|p: String| p@) == last_lines(contents@, n as nat),
{
    let ls = lines_of(contents);
    if n >= ls.len() {
        return ls;
    }
    let start = ls.len() - n;
    let mut out: Vec<String> = Vec::new();
    let mut i = start;
    while i < ls.len()
        invariant
            start <= i <= ls.len(),
            out@.map_values(|p: String| p@) == ls@.map_values(|p: String| p@).subrange(start as int, i as int),
        decreases ls.len() - i,
    {
        let ghost before = out@;
        out.push(ls[i].clone());
        assert(out@.map_values(|p: String| p@) == before.map_values(|p: String| p@).push(ls@[i as int]@));
        i = i + 1;
    }
    out
}

pub open spec fn index_out_of_range() -> (IoKind, Seq<char>) {
    failure(IoKind::InvalidInput, "entry index out of range"@)
}

/// The `n`th record line from the end (`1` is the last one).
pub open spec fn line_from_end(contents: Seq<char>, n: nat) -> Result<Seq<char>, (IoKind, Seq<char>)> {
    let ls = lines(contents);
    if n == 0 || n > ls.len() {
        Err(index_out_of_range())
    } else {
        Ok(ls[ls.len() - n])
    }
}

/// The `n`th record line from the end of a file's text (`1` is the last one).
pub fn read_record_line_by_index_from_end(contents: &str, n: usize) -> (r: Result<String, IoFailure>)
    ensures
        text_result_view(r) == line_from_end(contents@, n as nat),
{
    let ls = lines_of(contents);
    if n == 0 || n > ls.len() {
        return Err(IoFailure::new(IoKind::InvalidInput, String::from_str("entry index out of range")));
    }
    assert(ls@[ls.len() - n]@ == lines(contents@)[ls.len() - n]);
    Ok(ls[ls.len() - n].clone())
}

pub open spec fn not_enough_entries() -> (IoKind, Seq<char>) {
    failure(IoKind::InvalidInput, "not enough entries to delete"@)
}

/// The file text without its last `n` record lines.
pub open spec fn without_last_lines(contents: Seq<char>, n: nat) -> Result<Seq<char>, (IoKind, Seq<char>)> {
    let ls = lines(contents);
    if all_ws(contents) || ls.len() == 0 {
        Err(no_entries_to_delete())
    } else if n > ls.len() {
        Err(not_enough_entries())
    } else {
        Ok(lines_text(ls.take(ls.len() - n)))
    }
}

/// The text left after deleting the last `n` record lines.
pub fn delete_last_n_record_lines(contents: &str, n: usize) -> (r: Result<String, IoFailure>)
    ensures
        text_result_view(r) == without_last_lines(contents@, n as nat),
{
    if is_blank(contents) {
        return Err(IoFailure::new(IoKind::InvalidInput, String::from_str("no entries to delete")));
    }
    let mut ls = lines_of(contents);
    if ls.len() == 0 {
        return Err(IoFailure::new(IoKind::InvalidInput, String::from_str("no entries to delete")));
    }
    if n > ls.len() {
        return Err(IoFailure::new(IoKind::InvalidInput, String::from_str("not enough entries to delete")));
    }
    let keep = ls.len() - n;
    let ghost before = ls@;
    ls.truncate(keep);
    assert(ls@.map_values(|p: String| p@) == before.map_values(|p: String| p@).take(keep as int));
    Ok(records_text(&ls))
}

/// The file text without the `n`th record line from the end.
pub open spec fn without_line_from_end(contents: Seq<char>, n: nat) -> Result<Seq<char>, (IoKind, Seq<char>)> {
    let ls = lines(contents);
    if all_ws(contents) || ls.len() == 0 {
        Err(no_entries_to_delete())
    } else if n == 0 || n > ls.len() {
        Err(index_out_of_range())
    } else {
        Ok(lines_text(ls.remove(ls.len() - n)))
    }
}

/// The text left after deleting the `n`th record line from the end (`1` is the last one).
pub fn delete_record_line_by_index_from_end(contents: &str, n: usize) -> (r: Result<String, IoFailure>)
    ensures
        text_result_view(r) == without_line_from_end(contents@, n as nat),
{
    if is_blank(contents) {
        return Err(IoFailure::new(IoKind::InvalidInput, String::from_str("no entries to delete")));
    }
    let mut ls = lines_of(contents);
    if ls.len() == 0 {
        return Err(IoFailure::new(IoKind::InvalidInput, String::from_str("no entries to delete")));
    }
    if n == 0 || n > ls.len() {
        return Err(IoFailure::new(IoKind::InvalidInput, String::from_str("entry index out of range")));
    }
    let idx = ls.len() - n;
    let ghost before = ls@;
    ls.remove(idx);
    assert(ls@.map_values(|p: String| p@) == before.map_values(|p: String| p@).remove(idx as int));
    Ok(records_text(&ls))
}

} // verus!

verus! {

/// Whether a line ends with a carriage return.
pub open spec fn ends_with_cr(l: Seq<char>) -> bool {
    l.len() > 0 && l.last() == '\r'
}

/// A line as `lines` can give it back: no newline, and no carriage return at its end.
pub open spec fn plain_line(l: Seq<char>) -> bool {
    !l.contains('\n') && !(l.len() > 0 && l.last() == '\r')
}

proof fn lemma_lines_text_cons(ls: Seq<Seq<char>>)
    requires
        ls.len() > 0,
    ensures
        lines_text(ls) == ls[0] + seq!['\n'] + lines_text(ls.drop_first()),
{
    if ls.len() == 1 {
        assert(ls.drop_first().len() == 0);
    }
}

/// Reading back the text written for some lines gives those lines, when each is plain.
pub proof fn lemma_lines_text_roundtrip(ls: Seq<Seq<char>>)
    requires
        forall|i: int| 0 <= i < ls.len() ==> plain_line(#[trigger] ls[i]),
    ensures
        lines(lines_text(ls)) == ls,
    decreases ls.len(),
{
    if ls.len() == 0 {
        assert(lines(Seq::<char>::empty()) == Seq::<Seq<char>>::empty());
    } else {
        let rest = ls.drop_first();
        assert forall|i: int| 0 <= i < rest.len() implies plain_line(#[trigger] rest[i]) by {
            assert(rest[i] == ls[i + 1]);
        }
        lemma_lines_text_roundtrip(rest);
        lemma_lines_text_cons(ls);
        let x = lines_text(ls);
        assert(plain_line(ls[0]));
        crate::text::lemma_index_of_concat(ls[0], '\n', lines_text(rest));
        assert(x.take(ls[0].len() as int) == ls[0]);
        assert(x.skip(ls[0].len() as int + 1) == lines_text(rest));
        assert(seq![ls[0]] + rest == ls);
    }
}

/// Appending a record line to a file of record lines (the line and a newline, as
/// `append_record_line` writes it) makes it the last record and keeps the others in order,
/// so reading the last record gives it back.
pub proof fn lemma_append_read_back(ls: Seq<Seq<char>>, line: Seq<char>)
    requires
        forall|i: int| 0 <= i < ls.len() ==> plain_line(#[trigger] ls[i]),
        plain_line(line),
    ensures
        lines_text(ls) + line + seq!['\n'] == lines_text(ls.push(line)),
        lines(lines_text(ls) + line + seq!['\n']) == ls.push(line),
        line_from_end(lines_text(ls) + line + seq!['\n'], 1) == Ok::<Seq<char>, (IoKind, Seq<char>)>(line),
{
    let all = ls.push(line);
    lemma_join_push(ls, line, seq!['\n']);
    if ls.len() > 0 {
        let j = join(ls, seq!['\n']);
        assert(j + seq!['\n'] + line + seq!['\n'] == (j + seq!['\n'] + line) + seq!['\n']);
    } else {
        assert(Seq::<char>::empty() + line == line);
    }
    assert forall|i: int| 0 <= i < all.len() implies plain_line(#[trigger] all[i]) by {
        if i < ls.len() {
            assert(all[i] == ls[i]);
        }
    }
    lemma_lines_text_roundtrip(all);
}

/// The lines of a text that is empty or ends with a newline, followed by more text, are the
/// lines of the first and then those of the second.
pub proof fn lemma_lines_concat(a: Seq<char>, b: Seq<char>)
    requires
        a.len() == 0 || a.last() == '\n',
    ensures
        lines(a + b) == lines(a) + lines(b),
    decreases a.len(),
{
    if a.len() == 0 {
        assert(a + b == b);
        assert(lines(a) == Seq::<Seq<char>>::empty());
        assert(Seq::<Seq<char>>::empty() + lines(b) == lines(b));
    } else {
        crate::text::lemma_index_of(a, '\n');
        assert(a.contains('\n')) by {
            assert(a[a.len() - 1] == '\n');
        }
        let i = crate::text::index_of(a, '\n');
        let p = a.take(i);
        let rest = a.skip(i + 1);
        assert(!p.contains('\n')) by {
            if p.contains('\n') {
                let k = choose|k: int| 0 <= k < p.len() && p[k] == '\n';
                assert(a[k] == '\n');
            }
        }
        assert(a == p + seq!['\n'] + rest);
        assert(a + b == p + seq!['\n'] + (rest + b));
        crate::text::lemma_index_of_concat(p, '\n', rest);
        crate::text::lemma_index_of_concat(p, '\n', rest + b);
        assert((a + b).take(i) == p);
        assert((a + b).skip(i + 1) == rest + b);
        if rest.len() > 0 {
            assert(rest.last() == a.last());
        }
        lemma_lines_concat(rest, b);
        let line = if p.len() > 0 && p.last() == '\r' { p.drop_last() } else { p };
        assert(lines(a) == seq![line] + lines(rest));
        assert(lines(a + b) == seq![line] + lines(rest + b));
        assert(seq![line] + (lines(rest) + lines(b)) == (seq![line] + lines(rest)) + lines(b));
    }
}

/// Appending a record line and a newline to a file text that is empty or ends with a
/// newline adds that line as the last record, and keeps the others as they read before.
pub proof fn lemma_append_line(contents: Seq<char>, line: Seq<char>)
    requires
        contents.len() == 0 || contents.last() == '\n',
        plain_line(line),
    ensures
        lines(contents + line + seq!['\n']) == lines(contents).push(line),
        line_from_end(contents + line + seq!['\n'], 1) == Ok::<Seq<char>, (IoKind, Seq<char>)>(line),
{
    assert(contents + line + seq!['\n'] == contents + (line + seq!['\n']));
    lemma_lines_concat(contents, line + seq!['\n']);
    lemma_append_read_back(Seq::empty(), line);
    assert(lines_text(Seq::<Seq<char>>::empty()) == Seq::<char>::empty());
    assert(Seq::<char>::empty() + line + seq!['\n'] == line + seq!['\n']);
    assert(Seq::<Seq<char>>::empty().push(line) == seq![line]);
    assert(lines(contents) + seq![line] == lines(contents).push(line));
}

/// No line that `lines` gives holds a newline.
pub proof fn lemma_lines_no_newline(s: Seq<char>)
    ensures
        forall|i: int| 0 <= i < lines(s).len() ==> !(#[trigger] lines(s)[i]).contains('\n'),
    decreases s.len(),
{
    if s.len() > 0 {
        crate::text::lemma_index_of(s, '\n');
        let i = crate::text::index_of(s, '\n');
        if i >= 0 {
            lemma_lines_no_newline(s.skip(i + 1));
            let line = s.take(i);
            let line2 = if line.len() > 0 && line.last() == '\r' { line.drop_last() } else { line };
            assert(!line2.contains('\n')) by {
                if line2.contains('\n') {
                    let k = choose|k: int| 0 <= k < line2.len() && line2[k] == '\n';
                    assert(s[k] == '\n');
                }
            }
            let r = lines(s.skip(i + 1));
            assert forall|j: int| 0 <= j < lines(s).len() implies !(#[trigger] lines(s)[j]).contains('\n') by {
                if j > 0 {
                    assert(lines(s)[j] == r[j - 1]);
                }
            }
        }
    }
}

/// Deleting the last record leaves the other records, in order (for records that do not
/// end with a carriage return, which the file text could not give back).
pub proof fn lemma_delete_last_keeps_rest(contents: Seq<char>)
    requires
        forall|i: int| 0 <= i < lines(contents).len() ==> !ends_with_cr(#[trigger] lines(contents)[i]),
    ensures
        without_last_line(contents) matches Ok(t) ==> lines(t) == lines(contents).drop_last(),
{
    lemma_lines_no_newline(contents);
    if lines(contents).len() > 0 {
        let ls = lines(contents).drop_last();
        assert forall|i: int| 0 <= i < ls.len() implies plain_line(#[trigger] ls[i]) by {
            assert(ls[i] == lines(contents)[i]);
            assert(!ends_with_cr(lines(contents)[i]));
        }
        lemma_lines_text_roundtrip(ls);
    }
}

} // verus!

verus! {

/// Deleting the last `n` records leaves the records before them, in order.
pub proof fn lemma_delete_last_n_keeps_rest(contents: Seq<char>, n: nat)
    requires
        forall|i: int| 0 <= i < lines(contents).len() ==> !ends_with_cr(#[trigger] lines(contents)[i]),
    ensures
        without_last_lines(contents, n) matches Ok(t) ==> lines(t) == lines(contents).take(lines(contents).len() - n),
{
    lemma_lines_no_newline(contents);
    let all = lines(contents);
    if n <= all.len() {
        let ls = all.take(all.len() - n);
        assert forall|i: int| 0 <= i < ls.len() implies plain_line(#[trigger] ls[i]) by {
            assert(ls[i] == all[i]);
            assert(!ends_with_cr(all[i]));
        }
        lemma_lines_text_roundtrip(ls);
    }
}

/// Deleting the `n`th record from the end leaves all the other records, in order.
pub proof fn lemma_delete_index_keeps_rest(contents: Seq<char>, n: nat)
    requires
        forall|i: int| 0 <= i < lines(contents).len() ==> !ends_with_cr(#[trigger] lines(contents)[i]),
    ensures
        without_line_from_end(contents, n) matches Ok(t) ==> lines(t) == lines(contents).remove(lines(contents).len() - n),
{
    lemma_lines_no_newline(contents);
    let all = lines(contents);
    if 1 <= n <= all.len() {
        let ls = all.remove(all.len() - n);
        assert forall|i: int| 0 <= i < ls.len() implies plain_line(#[trigger] ls[i]) by {
            if i < all.len() - n {
                assert(ls[i] == all[i]);
            } else {
                assert(ls[i] == all[i + 1]);
            }
        }
        lemma_lines_text_roundtrip(ls);
    }
}

/// The first line `lines` gives is the start of the text.
proof fn lemma_first_line_prefix(s: Seq<char>)
    requires
        lines(s).len() > 0,
    ensures
        forall|j: int| 0 <= j < lines(s)[0].len() ==> lines(s)[0][j] == #[trigger] s[j],
        lines(s)[0].len() <= s.len(),
{
    crate::text::lemma_index_of(s, '\n');
}

/// Every record line holds something besides whitespace.
pub open spec fn all_lines_nonblank(contents: Seq<char>) -> bool {
    forall|i: int| 0 <= i < lines(contents).len() ==> !all_ws(#[trigger] lines(contents)[i])
}

/// A log with a record line that is not blank is not blank.
proof fn lemma_nonblank_log(contents: Seq<char>)
    requires
        lines(contents).len() > 0,
        all_lines_nonblank(contents),
    ensures
        !all_ws(contents),
{
    lemma_first_line_prefix(contents);
    let l = lines(contents)[0];
    assert(!all_ws(l));
    let j = choose|j: int| 0 <= j < l.len() && !crate::text::is_ws(#[trigger] l[j]);
    assert(contents[j] == l[j]);
}

/// On a log of `k` record lines, none blank, `delete -n` removes the `n`th record from the
/// end exactly when `1 <= n <= k` (keeping the others in order) and is refused otherwise;
/// `read -n` gives that record under the same condition; `delete n` removes the last `n`
/// records when `n <= k` and is refused otherwise; `delete` removes the last record when
/// there is one; `read n` gives the last `min(n, k)` records, oldest first.
pub proof fn lemma_log_edits(contents: Seq<char>, n: nat)
    requires
        all_lines_nonblank(contents),
    ensures
        ({
            let ls = lines(contents);
            let k = ls.len();
            &&& 1 <= n <= k ==> without_line_from_end(contents, n)
                == Ok::<Seq<char>, (IoKind, Seq<char>)>(lines_text(ls.remove(k - n)))
            &&& (n == 0 || n > k) ==> without_line_from_end(contents, n) is Err
            &&& 1 <= n <= k ==> line_from_end(contents, n) == Ok::<Seq<char>, (IoKind, Seq<char>)>(ls[k - n])
            &&& (n == 0 || n > k) ==> line_from_end(contents, n) is Err
            &&& k >= 1 && n <= k ==> without_last_lines(contents, n)
                == Ok::<Seq<char>, (IoKind, Seq<char>)>(lines_text(ls.take(k - n)))
            &&& (k == 0 || n > k) ==> without_last_lines(contents, n) is Err
            &&& k >= 1 ==> without_last_line(contents) == Ok::<Seq<char>, (IoKind, Seq<char>)>(lines_text(ls.drop_last()))
            &&& k == 0 ==> without_last_line(contents) is Err
            &&& last_lines(contents, n).len() == if n <= k { n as int } else { k as int }
            &&& forall|i: int| 0 <= i < last_lines(contents, n).len()
                ==> #[trigger] last_lines(contents, n)[i] == ls[k - last_lines(contents, n).len() + i]
        }),
{
    if lines(contents).len() > 0 {
        lemma_nonblank_log(contents);
    }
}

} // verus!
