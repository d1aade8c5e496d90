use vstd::prelude::*;

verus! {

/// Appends one character to a string (`String::push`).
#[verifier::external_body]
pub(crate) fn push_char(s: &mut String, c: char)
    ensures
        final(s)@ == old(s)@.push(c),
{
    s.push(c);
}

/// The characters of a string slice, in order.
pub fn chars_of(s: &str) -> (v: Vec<char>)
    ensures
        v@ == s@,
{
    let mut v: Vec<char> = Vec::new();
    for c in it: s.chars()
        invariant
            v@ == it.seq().take(it.index() as int),
    {
        v.push(c);
    }
    v
}

/// Builds a string from a sequence of characters.
pub fn string_of(v: &[char]) -> (s: String)
    ensures
        s@ == v@,
{
    let mut s = String::new();
    let mut i: usize = 0;
    while i < v.len()
        invariant
            i <= v.len(),
            s@ == v@.take(i as int),
        decreases v.len() - i,
    {
        push_char(&mut s, v[i]);
        i = i + 1;
    }
    s
}

} // verus!

verus! {

/// The Unicode `White_Space` property, which is what `char::is_whitespace` tests.
pub open spec fn is_ws(c: char) -> bool {
    ||| ('\u{9}' <= c && c <= '\u{d}')
    ||| c == ' '
    ||| c == '\u{85}'
    ||| c == '\u{a0}'
    ||| c == '\u{1680}'
    ||| ('\u{2000}' <= c && c <= '\u{200a}')
    ||| c == '\u{2028}'
    ||| c == '\u{2029}'
    ||| c == '\u{202f}'
    ||| c == '\u{205f}'
    ||| c == '\u{3000}'
}

/// `s` without its leading whitespace.
pub open spec fn trim_front(s: Seq<char>) -> Seq<char>
    decreases s.len(),
{
    if s.len() > 0 && is_ws(s[0]) {
        trim_front(s.drop_first())
    } else {
        s
    }
}

/// `s` without its trailing whitespace.
pub open spec fn trim_back(s: Seq<char>) -> Seq<char>
    decreases s.len(),
{
    if s.len() > 0 && is_ws(s.last()) {
        trim_back(s.drop_last())
    } else {
        s
    }
}

/// `str::trim`: leading and trailing whitespace removed.
pub open spec fn trim(s: Seq<char>) -> Seq<char> {
    trim_back(trim_front(s))
}

/// Every character is whitespace (so the trimmed text is empty).
pub open spec fn all_ws(s: Seq<char>) -> bool {
    forall|i: int| 0 <= i < s.len() ==> is_ws(#[trigger] s[i])
}

pub fn is_whitespace(c: char) -> (b: bool)
    ensures
        b == is_ws(c),
{
    ('\u{9}' <= c && c <= '\u{d}') || c == ' ' || c == '\u{85}' || c == '\u{a0}' || c == '\u{1680}'
        || ('\u{2000}' <= c && c <= '\u{200a}') || c == '\u{2028}' || c == '\u{2029}' || c
        == '\u{202f}' || c == '\u{205f}' || c == '\u{3000}'
}

proof fn lemma_trim_front_skip(s: Seq<char>, i: int)
    requires
        0 <= i <= s.len(),
        forall|k: int| 0 <= k < i ==> is_ws(#[trigger] s[k]),
    ensures
        trim_front(s) == trim_front(s.skip(i)),
    decreases i,
{
    if i > 0 {
        assert(s.skip(1) == s.drop_first());
        lemma_trim_front_skip(s.drop_first(), i - 1);
        assert(s.drop_first().skip(i - 1) == s.skip(i));
    } else {
        assert(s.skip(0) == s);
    }
}

proof fn lemma_trim_back_take(s: Seq<char>, j: int)
    requires
        0 <= j <= s.len(),
        forall|k: int| j <= k < s.len() ==> is_ws(#[trigger] s[k]),
    ensures
        trim_back(s) == trim_back(s.take(j)),
    decreases s.len() - j,
{
    if j < s.len() {
        assert(s.take(s.len() - 1) == s.drop_last());
        lemma_trim_back_take(s.drop_last(), j);
        assert(s.drop_last().take(j) == s.take(j));
    } else {
        assert(s.take(j) == s);
    }
}

/// Whitespace is trimmed from both ends of a character sequence.
pub fn trim_chars(s: &[char]) -> (t: Vec<char>)
    ensures
        t@ == trim(s@),
{
    let mut lo: usize = 0;
    while lo < s.len() && is_whitespace(s[lo])
        invariant
            lo <= s.len(),
            forall|k: int| 0 <= k < lo ==> is_ws(#[trigger] s@[k]),
        decreases s.len() - lo,
    {
        lo = lo + 1;
    }
    proof {
        lemma_trim_front_skip(s@, lo as int);
    }
    let mut hi: usize = s.len();
    while hi > lo && is_whitespace(s[hi - 1])
        invariant
            lo <= hi <= s.len(),
            forall|k: int| hi <= k < s.len() ==> is_ws(#[trigger] s@[k]),
        decreases hi,
    {
        hi = hi - 1;
    }
    let mut t: Vec<char> = Vec::new();
    let mut i: usize = lo;
    while i < hi
        invariant
            lo <= i <= hi <= s.len(),
            t@ == s@.subrange(lo as int, i as int),
        decreases hi - i,
    {
        t.push(s[i]);
        i = i + 1;
    }
    proof {
        let f = s@.skip(lo as int);
        assert(trim_front(f) == f);
        assert(trim_front(s@) == f);
        lemma_trim_back_take(f, (hi - lo) as int);
        assert(f.take((hi - lo) as int) == s@.subrange(lo as int, hi as int));
        let g = f.take((hi - lo) as int);
        if hi > lo {
            assert(!is_ws(g.last()));
        }
        assert(trim_back(g) == g);
    }
    t
}

/// `str::trim`, as an owned string.
pub fn trim_str(s: &str) -> (t: String)
    ensures
        t@ == trim(s@),
{
    let v = chars_of(s);
    let t = trim_chars(v.as_slice());
    string_of(t.as_slice())
}

proof fn lemma_trim_front_all_ws(s: Seq<char>)
    ensures
        trim_front(s).len() == 0 <==> all_ws(s),
    decreases s.len(),
{
    if s.len() > 0 {
        if is_ws(s[0]) {
            lemma_trim_front_all_ws(s.drop_first());
            if all_ws(s.drop_first()) {
                assert forall|i: int| 0 <= i < s.len() implies is_ws(#[trigger] s[i]) by {
                    if i > 0 {
                        assert(s[i] == s.drop_first()[i - 1]);
                    }
                }
            }
            if all_ws(s) {
                assert forall|i: int| 0 <= i < s.drop_first().len() implies is_ws(
                    #[trigger] s.drop_first()[i],
                ) by {
                    assert(s.drop_first()[i] == s[i + 1]);
                }
            }
        }
    }
}

proof fn lemma_trim_back_empty(s: Seq<char>)
    ensures
        trim_back(s).len() == 0 <==> all_ws(s),
    decreases s.len(),
{
    if s.len() > 0 {
        if is_ws(s.last()) {
            lemma_trim_back_empty(s.drop_last());
            if all_ws(s.drop_last()) {
                assert forall|i: int| 0 <= i < s.len() implies is_ws(#[trigger] s[i]) by {
                    if i < s.len() - 1 {
                        assert(s[i] == s.drop_last()[i]);
                    }
                }
            }
            if all_ws(s) {
                assert forall|i: int| 0 <= i < s.drop_last().len() implies is_ws(
                    #[trigger] s.drop_last()[i],
                ) by {
                    assert(s.drop_last()[i] == s[i]);
                }
            }
        }
    }
}

proof fn lemma_trim_front_suffix(s: Seq<char>)
    ensures
        exists|i: int|
            0 <= i <= s.len() && trim_front(s) == s.skip(i) && (forall|k: int|
                0 <= k < i ==> is_ws(#[trigger] s[k])),
    decreases s.len(),
{
    if s.len() > 0 && is_ws(s[0]) {
        lemma_trim_front_suffix(s.drop_first());
        let i = choose|i: int|
            0 <= i <= s.drop_first().len() && trim_front(s.drop_first()) == s.drop_first().skip(i)
                && (forall|k: int| 0 <= k < i ==> is_ws(#[trigger] s.drop_first()[k]));
        assert(s.drop_first().skip(i) == s.skip(i + 1));
        assert forall|k: int| 0 <= k < i + 1 implies is_ws(#[trigger] s[k]) by {
            if k > 0 {
                assert(s[k] == s.drop_first()[k - 1]);
            }
        }
    } else {
        assert(s.skip(0) == s);
    }
}

/// The trimmed text is empty exactly when every character is whitespace.
pub proof fn lemma_trim_empty(s: Seq<char>)
    ensures
        trim(s).len() == 0 <==> all_ws(s),
{
    lemma_trim_front_all_ws(s);
    lemma_trim_back_empty(trim_front(s));
    lemma_trim_front_suffix(s);
    let i = choose|i: int|
        0 <= i <= s.len() && trim_front(s) == s.skip(i) && (forall|k: int|
            0 <= k < i ==> is_ws(#[trigger] s[k]));
    if all_ws(s.skip(i)) {
        assert forall|k: int| 0 <= k < s.len() implies is_ws(#[trigger] s[k]) by {
            if k >= i {
                assert(s[k] == s.skip(i)[k - i]);
            }
        }
    }
    if all_ws(s) {
        assert forall|k: int| 0 <= k < s.skip(i).len() implies is_ws(#[trigger] s.skip(i)[k]) by {
            assert(s.skip(i)[k] == s[k + i]);
        }
    }
}

/// `s.trim().is_empty()`.
pub fn is_blank(s: &str) -> (b: bool)
    ensures
        b == all_ws(s@),
        b == (trim(s@).len() == 0),
{
    let v = chars_of(s);
    let mut i: usize = 0;
    while i < v.len()
        invariant
            i <= v.len(),
            v@ == s@,
            forall|k: int| 0 <= k < i ==> is_ws(#[trigger] s@[k]),
        decreases v.len() - i,
    {
        if !is_whitespace(v[i]) {
            proof {
                lemma_trim_empty(s@);
            }
            return false;
        }
        i = i + 1;
    }
    proof {
        lemma_trim_empty(s@);
    }
    true
}

/// `s.contains(c)` for a single character.
pub fn contains_char(s: &str, c: char) -> (b: bool)
    ensures
        b == s@.contains(c),
{
    let v = chars_of(s);
    let mut i: usize = 0;
    while i < v.len()
        invariant
            i <= v.len(),
            v@ == s@,
            forall|k: int| 0 <= k < i ==> s@[k] != c,
        decreases v.len() - i,
    {
        if v[i] == c {
            assert(s@[i as int] == c);
            return true;
        }
        i = i + 1;
    }
    false
}

} // verus!

verus! {

/// Position of the first `c` in `s`, or -1 when there is none.
pub open spec fn index_of(s: Seq<char>, c: char) -> int
    decreases s.len(),
{
    if s.len() == 0 {
        -1
    } else if s[0] == c {
        0
    } else if index_of(s.drop_first(), c) < 0 {
        -1
    } else {
        index_of(s.drop_first(), c) + 1
    }
}

/// `str::splitn(n, c)`: at most `n` pieces, the last one holding the rest.
pub open spec fn splitn(s: Seq<char>, n: nat, c: char) -> Seq<Seq<char>>
    decreases n,
{
    if n <= 1 || index_of(s, c) < 0 {
        seq![s]
    } else {
        let i = index_of(s, c);
        seq![s.take(i)] + splitn(s.skip(i + 1), (n - 1) as nat, c)
    }
}

/// `str::split(c)`: every piece between occurrences of `c`.
pub open spec fn split(s: Seq<char>, c: char) -> Seq<Seq<char>>
    decreases s.len(),
{
    if index_of(s, c) < 0 {
        seq![s]
    } else {
        let i = index_of(s, c);
        proof {
            lemma_index_of(s, c);
        }
        seq![s.take(i)] + split(s.skip(i + 1), c)
    }
}

/// Pieces joined by `sep` (`[T]::join`).
pub open spec fn join(parts: Seq<Seq<char>>, sep: Seq<char>) -> Seq<char>
    decreases parts.len(),
{
    if parts.len() == 0 {
        Seq::empty()
    } else if parts.len() == 1 {
        parts[0]
    } else {
        parts[0] + sep + join(parts.drop_first(), sep)
    }
}

pub open spec fn starts_with(s: Seq<char>, prefix: Seq<char>) -> bool {
    prefix.len() <= s.len() && s.take(prefix.len() as int) == prefix
}

pub open spec fn ends_with(s: Seq<char>, suffix: Seq<char>) -> bool {
    suffix.len() <= s.len() && s.skip(s.len() - suffix.len()) == suffix
}

/// No piece holds the character `c`.
pub open spec fn none_contains(parts: Seq<Seq<char>>, c: char) -> bool {
    forall|i: int| 0 <= i < parts.len() ==> !(#[trigger] parts[i]).contains(c)
}

pub proof fn lemma_index_of(s: Seq<char>, c: char)
    ensures
        -1 <= index_of(s, c) < s.len(),
        index_of(s, c) >= 0 ==> s[index_of(s, c)] == c,
        forall|k: int| 0 <= k < s.len() && (index_of(s, c) < 0 || k < index_of(s, c)) ==> s[k] != c,
        index_of(s, c) < 0 <==> !s.contains(c),
    decreases s.len(),
{
    if s.len() > 0 {
        lemma_index_of(s.drop_first(), c);
        assert forall|k: int| 0 <= k < s.len() && (index_of(s, c) < 0 || k < index_of(s, c)) implies s[k] != c by {
            if k > 0 {
                assert(s[k] == s.drop_first()[k - 1]);
            }
        }
        if s.contains(c) {
            let j = choose|j: int| 0 <= j < s.len() && s[j] == c;
            if j > 0 {
                assert(s.drop_first()[j - 1] == c);
            }
        }
        if index_of(s, c) >= 0 {
            assert(s[index_of(s, c)] == c);
        }
    }
}

/// The first `c` at or after `from`, if any.
pub fn find_char(s: &[char], c: char, from: usize) -> (r: Option<usize>)
    requires
        from <= s.len(),
    ensures
        r is Some ==> from <= r->0 < s.len() && s@[r->0 as int] == c,
        r is Some ==> index_of(s@.skip(from as int), c) == r->0 - from,
        r is None ==> index_of(s@.skip(from as int), c) < 0,
{
    let mut i = from;
    while i < s.len()
        invariant
            from <= i <= s.len(),
            forall|k: int| from <= k < i ==> s@[k] != c,
        decreases s.len() - i,
    {
        if s[i] == c {
            proof {
                let t = s@.skip(from as int);
                lemma_index_of(t, c);
                assert(t[i - from] == c);
                if index_of(t, c) >= 0 && index_of(t, c) < i - from {
                    assert(t[index_of(t, c)] == s@[index_of(t, c) + from]);
                }
            }
            return Some(i);
        }
        i = i + 1;
    }
    proof {
        let t = s@.skip(from as int);
        lemma_index_of(t, c);
        if index_of(t, c) >= 0 {
            assert(t[index_of(t, c)] == s@[index_of(t, c) + from]);
        }
    }
    None
}

/// A copy of `s[lo..hi]`.
pub fn sub_chars(s: &[char], lo: usize, hi: usize) -> (t: Vec<char>)
    requires
        lo <= hi <= s.len(),
    ensures
        t@ == s@.subrange(lo as int, hi as int),
{
    let mut t: Vec<char> = Vec::new();
    let mut i = lo;
    while i < hi
        invariant
            lo <= i <= hi <= s.len(),
            t@ == s@.subrange(lo as int, i as int),
        decreases hi - i,
    {
        t.push(s[i]);
        i = i + 1;
    }
    t
}

/// `splitn` over characters, each piece returned as a string.
pub fn splitn_chars(s: &[char], n: usize, c: char) -> (parts: Vec<String>)
    requires
        n >= 1,
    ensures
        parts@.map_values(|p: String| p@) == splitn(s@, n as nat, c),
{
    let mut parts: Vec<String> = Vec::new();
    let mut start: usize = 0;
    let ghost whole = splitn(s@, n as nat, c);
    assert(s@.skip(0) == s@);
    loop
        invariant
            start <= s.len(),
            parts.len() < n,
            whole == splitn(s@, n as nat, c),
            parts@.map_values(|p: String| p@) + splitn(s@.skip(start as int), (n - parts.len()) as nat, c) == whole,
        decreases s.len() - start,
    {
        let rest_n = n - parts.len();
        if rest_n <= 1 {
            let piece = sub_chars(s, start, s.len());
            proof {
                assert(piece@ == s@.skip(start as int));
            }
            let ghost before = parts@;
            parts.push(string_of(piece.as_slice()));
            proof {
                assert(parts@.map_values(|p: String| p@) == before.map_values(|p: String| p@).push(piece@));
                assert(splitn(s@.skip(start as int), rest_n as nat, c) == seq![piece@]);
                assert(before.map_values(|p: String| p@).push(piece@) == before.map_values(|p: String| p@) + seq![piece@]);
            }
            return parts;
        }
        match find_char(s, c, start) {
            None => {
                let piece = sub_chars(s, start, s.len());
                let ghost before = parts@;
                parts.push(string_of(piece.as_slice()));
                proof {
                    assert(piece@ == s@.skip(start as int));
                    assert(parts@.map_values(|p: String| p@) == before.map_values(|p: String| p@).push(piece@));
                    assert(splitn(s@.skip(start as int), rest_n as nat, c) == seq![piece@]);
                    assert(before.map_values(|p: String| p@).push(piece@) == before.map_values(|p: String| p@) + seq![piece@]);
                }
                return parts;
            }
            Some(j) => {
                let piece = sub_chars(s, start, j);
                let ghost before = parts@;
                let ghost t = s@.skip(start as int);
                parts.push(string_of(piece.as_slice()));
                proof {
                    assert(piece@ == t.take(j - start));
                    assert(t.skip(j - start + 1) == s@.skip(j + 1));
                    assert(parts@.map_values(|p: String| p@) == before.map_values(|p: String| p@).push(piece@));
                    let m = (n - before.len()) as nat;
                    assert(splitn(t, m, c) == seq![t.take(j - start)] + splitn(t.skip(j - start + 1), (m - 1) as nat, c));
                    assert(before.map_values(|p: String| p@).push(piece@) + splitn(s@.skip(j + 1), (m - 1) as nat, c)
                        == before.map_values(|p: String| p@) + (seq![piece@] + splitn(s@.skip(j + 1), (m - 1) as nat, c)));
                }
                start = j + 1;
            }
        }
    }
}

} // verus!

verus! {

pub proof fn lemma_index_of_concat(a: Seq<char>, c: char, b: Seq<char>)
    requires
        !a.contains(c),
    ensures
        index_of(a + seq![c] + b, c) == a.len(),
    decreases a.len(),
{
    if a.len() > 0 {
        assert((a + seq![c] + b).drop_first() == a.drop_first() + seq![c] + b);
        assert(!a.drop_first().contains(c)) by {
            if a.drop_first().contains(c) {
                let j = choose|j: int| 0 <= j < a.drop_first().len() && a.drop_first()[j] == c;
                assert(a[j + 1] == c);
            }
        }
        lemma_index_of_concat(a.drop_first(), c, b);
        assert(a[0] != c);
    } else {
        assert(a + seq![c] + b == seq![c] + b);
    }
}

pub proof fn lemma_index_of_absent(s: Seq<char>, c: char)
    requires
        !s.contains(c),
    ensures
        index_of(s, c) < 0,
{
    lemma_index_of(s, c);
}

/// Splitting text that was joined with `c` gives the pieces back, when no piece holds `c`
/// and `n` allows as many pieces.
pub proof fn lemma_splitn_join(parts: Seq<Seq<char>>, n: nat, c: char)
    requires
        parts.len() >= 1,
        n >= parts.len(),
        none_contains(parts, c),
    ensures
        splitn(join(parts, seq![c]), n, c) == parts,
    decreases parts.len(),
{
    if parts.len() == 1 {
        assert(!parts[0].contains(c));
        lemma_index_of_absent(parts[0], c);
        assert(seq![parts[0]] == parts);
    } else {
        let rest = parts.drop_first();
        let j = join(rest, seq![c]);
        assert(!parts[0].contains(c));
        lemma_index_of_concat(parts[0], c, j);
        let whole = parts[0] + seq![c] + j;
        assert(whole.take(parts[0].len() as int) == parts[0]);
        assert(whole.skip(parts[0].len() as int + 1) == j);
        assert forall|i: int| 0 <= i < rest.len() implies !(#[trigger] rest[i]).contains(c) by {
            assert(rest[i] == parts[i + 1]);
        }
        lemma_splitn_join(rest, (n - 1) as nat, c);
        assert(seq![parts[0]] + rest == parts);
    }
}

/// `split` undoes `join` when no piece holds the separator.
pub proof fn lemma_split_join(parts: Seq<Seq<char>>, c: char)
    requires
        parts.len() >= 1,
        none_contains(parts, c),
    ensures
        split(join(parts, seq![c]), c) == parts,
    decreases parts.len(),
{
    if parts.len() == 1 {
        assert(!parts[0].contains(c));
        lemma_index_of_absent(parts[0], c);
        assert(seq![parts[0]] == parts);
    } else {
        let rest = parts.drop_first();
        let j = join(rest, seq![c]);
        assert(!parts[0].contains(c));
        lemma_index_of_concat(parts[0], c, j);
        let whole = parts[0] + seq![c] + j;
        assert(whole.take(parts[0].len() as int) == parts[0]);
        assert(whole.skip(parts[0].len() as int + 1) == j);
        assert forall|i: int| 0 <= i < rest.len() implies !(#[trigger] rest[i]).contains(c) by {
            assert(rest[i] == parts[i + 1]);
        }
        lemma_split_join(rest, c);
        assert(seq![parts[0]] + rest == parts);
    }
}

/// No piece of a split holds the separator.
pub proof fn lemma_split_pieces(s: Seq<char>, c: char)
    ensures
        split(s, c).len() >= 1,
        none_contains(split(s, c), c),
    decreases s.len(),
{
    lemma_index_of(s, c);
    if index_of(s, c) >= 0 {
        let i = index_of(s, c);
        lemma_split_pieces(s.skip(i + 1), c);
        let first = s.take(i);
        assert(!first.contains(c)) by {
            if first.contains(c) {
                let k = choose|k: int| 0 <= k < first.len() && first[k] == c;
                assert(s[k] == c);
            }
        }
        let r = split(s.skip(i + 1), c);
        assert forall|k: int| 0 <= k < split(s, c).len() implies !(#[trigger] split(s, c)[k]).contains(c) by {
            if k > 0 {
                assert(split(s, c)[k] == r[k - 1]);
            }
        }
    }
}

/// `str::split` over characters, each piece returned as a string.
pub fn split_chars(s: &[char], c: char) -> (parts: Vec<String>)
    ensures
        parts@.map_values(|p: String| p@) == split(s@, c),
{
    let mut parts: Vec<String> = Vec::new();
    let mut start: usize = 0;
    let ghost whole = split(s@, c);
    assert(s@.skip(0) == s@);
    loop
        invariant
            start <= s.len(),
            whole == split(s@, c),
            parts@.map_values(|p: String| p@) + split(s@.skip(start as int), c) == whole,
        decreases s.len() - start,
    {
        match find_char(s, c, start) {
            None => {
                let piece = sub_chars(s, start, s.len());
                let ghost before = parts@;
                parts.push(string_of(piece.as_slice()));
                proof {
                    assert(piece@ == s@.skip(start as int));
                    assert(parts@.map_values(|p: String| p@) == before.map_values(|p: String| p@).push(piece@));
                    assert(split(s@.skip(start as int), c) == seq![piece@]);
                    assert(before.map_values(|p: String| p@).push(piece@) == before.map_values(|p: String| p@) + seq![piece@]);
                }
                return parts;
            }
            Some(j) => {
                let piece = sub_chars(s, start, j);
                let ghost before = parts@;
                let ghost t = s@.skip(start as int);
                parts.push(string_of(piece.as_slice()));
                proof {
                    assert(piece@ == t.take(j - start));
                    assert(t.skip(j - start + 1) == s@.skip(j + 1));
                    assert(parts@.map_values(|p: String| p@) == before.map_values(|p: String| p@).push(piece@));
                    assert(split(t, c) == seq![t.take(j - start)] + split(t.skip(j - start + 1), c));
                    assert(before.map_values(|p: String| p@).push(piece@) + split(s@.skip(j + 1), c)
                        == before.map_values(|p: String| p@) + (seq![piece@] + split(s@.skip(j + 1), c)));
                }
                start = j + 1;
            }
        }
    }
}

/// Joining pieces starts with the first piece, then the separator and the others.
pub proof fn lemma_join_head(parts: Seq<Seq<char>>)
    requires
        parts.len() >= 1,
    ensures
        join(parts, seq![',']) == parts[0] + if parts.len() > 1 { seq![','] + join(parts.drop_first(), seq![',']) } else { Seq::<char>::empty() },
{
    if parts.len() > 1 {
        assert(parts[0] + seq![','] + join(parts.drop_first(), seq![',']) == parts[0] + (seq![','] + join(parts.drop_first(), seq![','])));
    } else {
        assert(parts[0] + Seq::<char>::empty() == parts[0]);
    }
}

/// Joining with one more piece at the end adds the separator and the piece.
pub proof fn lemma_join_push(parts: Seq<Seq<char>>, x: Seq<char>, sep: Seq<char>)
    ensures
        join(parts.push(x), sep) == if parts.len() == 0 { x } else { join(parts, sep) + sep + x },
    decreases parts.len(),
{
    if parts.len() == 0 {
        assert(parts.push(x) == seq![x]);
    } else if parts.len() == 1 {
        assert(parts.push(x).drop_first() == seq![x]);
        assert(join(seq![x], sep) == x);
        assert(parts.push(x)[0] == parts[0]);
    } else {
        assert(parts.push(x).drop_first() == parts.drop_first().push(x));
        assert(parts.push(x)[0] == parts[0]);
        lemma_join_push(parts.drop_first(), x, sep);
        let a = parts[0];
        let b = join(parts.drop_first(), sep);
        assert(a + sep + (b + sep + x) == (a + sep + b) + sep + x);
    }
}

/// `[String]::join(sep)`.
pub fn join_strings(parts: &Vec<String>, sep: &str) -> (r: String)
    ensures
        r@ == join(parts@.map_values(|p: String| p@), sep@),
{
    let mut r = String::new();
    let mut i: usize = 0;
    let ghost all = parts@.map_values(|p: String| p@);
    while i < parts.len()
        invariant
            i <= parts.len(),
            all == parts@.map_values(|p: String| p@),
            r@ == join(all.take(i as int), sep@),
        decreases parts.len() - i,
    {
        proof {
            assert(all.take(i + 1) == all.take(i as int).push(all[i as int]));
            lemma_join_push(all.take(i as int), all[i as int], sep@);
        }
        if i > 0 {
            r.append(sep);
        }
        r.append(parts[i].as_str());
        i = i + 1;
    }
    assert(all.take(parts.len() as int) == all);
    r
}

/// `str::lines`: pieces ended by `\n` (a `\r` just before it dropped too); no empty last piece.
pub open spec fn lines(s: Seq<char>) -> Seq<Seq<char>>
    decreases s.len(),
{
    if s.len() == 0 {
        Seq::empty()
    } else if index_of(s, '\n') < 0 {
        seq![s]
    } else {
        let i = index_of(s, '\n');
        proof {
            lemma_index_of(s, '\n');
        }
        let line = s.take(i);
        let line = if line.len() > 0 && line.last() == '\r' { line.drop_last() } else { line };
        seq![line] + lines(s.skip(i + 1))
    }
}

/// `str::lines`, each line returned as a string.
pub fn lines_of(text: &str) -> (ls: Vec<String>)
    ensures
        ls@.map_values(|p: String| p@) == lines(text@),
{
    let v = chars_of(text);
    let s = v.as_slice();
    let mut parts: Vec<String> = Vec::new();
    let mut start: usize = 0;
    let ghost whole = lines(s@);
    assert(s@.skip(0) == s@);
    while start < s.len()
        invariant
            start <= s.len(),
            whole == lines(s@),
            parts@.map_values(|p: String| p@) + lines(s@.skip(start as int)) == whole,
        decreases s.len() - start,
    {
        let ghost before = parts@;
        let ghost t = s@.skip(start as int);
        match find_char(s, '\n', start) {
            None => {
                let piece = sub_chars(s, start, s.len());
                parts.push(string_of(piece.as_slice()));
                proof {
                    assert(piece@ == t);
                    assert(parts@.map_values(|p: String| p@) == before.map_values(|p: String| p@).push(piece@));
                    assert(lines(t) == seq![piece@]);
                    assert(s@.skip(s.len() as int) == Seq::<char>::empty());
                    assert(before.map_values(|p: String| p@).push(piece@) == before.map_values(|p: String| p@) + seq![piece@]);
                }
                start = s.len();
            }
            Some(j) => {
                let end = if j > start && s[j - 1] == '\r' { j - 1 } else { j };
                let piece = sub_chars(s, start, end);
                parts.push(string_of(piece.as_slice()));
                proof {
                    let line = t.take(j - start);
                    let line2 = if line.len() > 0 && line.last() == '\r' { line.drop_last() } else { line };
                    assert(piece@ == line2);
                    assert(t.skip(j - start + 1) == s@.skip(j + 1));
                    assert(parts@.map_values(|p: String| p@) == before.map_values(|p: String| p@).push(piece@));
                    assert(lines(t) == seq![line2] + lines(t.skip(j - start + 1)));
                    assert(before.map_values(|p: String| p@).push(piece@) + lines(s@.skip(j + 1))
                        == before.map_values(|p: String| p@) + (seq![piece@] + lines(s@.skip(j + 1))));
                }
                start = j + 1;
            }
        }
    }
    assert(s@.skip(s.len() as int) == Seq::<char>::empty());
    assert(lines(Seq::<char>::empty()) == Seq::<Seq<char>>::empty());
    assert(parts@.map_values(|p: String| p@) + Seq::<Seq<char>>::empty() == parts@.map_values(|p: String| p@));
    parts
}

} // verus!

verus! {

/// Lexicographic order on character sequences (the order `String` compares by).
pub open spec fn chars_lt(a: Seq<char>, b: Seq<char>) -> bool
    decreases a.len(),
{
    if a.len() == 0 {
        b.len() > 0
    } else if b.len() == 0 {
        false
    } else if a[0] != b[0] {
        a[0] < b[0]
    } else {
        chars_lt(a.drop_first(), b.drop_first())
    }
}

pub proof fn lemma_chars_lt_irreflexive(a: Seq<char>)
    ensures
        !chars_lt(a, a),
    decreases a.len(),
{
    if a.len() > 0 {
        lemma_chars_lt_irreflexive(a.drop_first());
    }
}

pub proof fn lemma_chars_lt_transitive(a: Seq<char>, b: Seq<char>, c: Seq<char>)
    requires
        chars_lt(a, b),
        chars_lt(b, c),
    ensures
        chars_lt(a, c),
    decreases a.len(),
{
    if a.len() > 0 && b.len() > 0 && c.len() > 0 && a[0] == b[0] && b[0] == c[0] {
        lemma_chars_lt_transitive(a.drop_first(), b.drop_first(), c.drop_first());
    }
}

pub proof fn lemma_chars_lt_total(a: Seq<char>, b: Seq<char>)
    ensures
        a == b || chars_lt(a, b) || chars_lt(b, a),
        !(chars_lt(a, b) && chars_lt(b, a)),
    decreases a.len(),
{
    if a.len() > 0 && b.len() > 0 && a[0] == b[0] {
        lemma_chars_lt_total(a.drop_first(), b.drop_first());
        if a.drop_first() == b.drop_first() {
            assert(a == seq![a[0]] + a.drop_first());
            assert(b == seq![b[0]] + b.drop_first());
        }
    } else if a.len() == 0 && b.len() == 0 {
        assert(a == b);
    }
}

proof fn lemma_chars_lt_common_prefix(a: Seq<char>, b: Seq<char>, i: int)
    requires
        0 <= i <= a.len(),
        i <= b.len(),
        a.take(i) == b.take(i),
    ensures
        chars_lt(a, b) == chars_lt(a.skip(i), b.skip(i)),
    decreases i,
{
    if i > 0 {
        assert(a[0] == a.take(i)[0]);
        assert(b[0] == b.take(i)[0]);
        assert(a.drop_first().take(i - 1) == a.take(i).drop_first());
        assert(b.drop_first().take(i - 1) == b.take(i).drop_first());
        lemma_chars_lt_common_prefix(a.drop_first(), b.drop_first(), i - 1);
        assert(a.drop_first().skip(i - 1) == a.skip(i));
        assert(b.drop_first().skip(i - 1) == b.skip(i));
    } else {
        assert(a.skip(0) == a);
        assert(b.skip(0) == b);
    }
}

/// Three-way comparison of two strings: -1, 0 or 1.
pub fn compare_str(a: &str, b: &str) -> (r: i8)
    ensures
        r == 0 <==> a@ == b@,
        r < 0 <==> chars_lt(a@, b@),
        r > 0 <==> chars_lt(b@, a@),
{
    let x = chars_of(a);
    let y = chars_of(b);
    let mut i: usize = 0;
    while i < x.len() && i < y.len() && x[i] == y[i]
        invariant
            i <= x.len(),
            i <= y.len(),
            x@ == a@,
            y@ == b@,
            x@.take(i as int) == y@.take(i as int),
        decreases x.len() - i,
    {
        assert(x@.take(i + 1) == x@.take(i as int).push(x@[i as int]));
        assert(y@.take(i + 1) == y@.take(i as int).push(y@[i as int]));
        i = i + 1;
    }
    proof {
        lemma_chars_lt_common_prefix(a@, b@, i as int);
        lemma_chars_lt_common_prefix(b@, a@, i as int);
        lemma_chars_lt_total(a@, b@);
        lemma_chars_lt_irreflexive(a@);
        if i == x.len() && i == y.len() {
            assert(a@ == a@.take(i as int));
            assert(b@ == b@.take(i as int));
        }
        if i < x.len() && i < y.len() {
            assert(a@.skip(i as int)[0] == x@[i as int]);
            assert(b@.skip(i as int)[0] == y@[i as int]);
            if a@ == b@ {
                assert(x@[i as int] == y@[i as int]);
            }
        }
        if i == x.len() && i < y.len() && a@ == b@ {
            assert(a@.len() == b@.len());
        }
        if i < x.len() && i == y.len() && a@ == b@ {
            assert(a@.len() == b@.len());
        }
    }
    if i == x.len() && i == y.len() {
        0
    } else if i == x.len() {
        -1
    } else if i == y.len() {
        1
    } else if x[i] < y[i] {
        -1
    } else {
        1
    }
}

/// String equality by contents.
pub fn str_eq(a: &str, b: &str) -> (r: bool)
    ensures
        r == (a@ == b@),
{
    compare_str(a, b) == 0
}

} // verus!

verus! {

/// `s.ends_with(suffix)`.
pub fn ends_with_str(s: &str, suffix: &str) -> (b: bool)
    ensures
        b == ends_with(s@, suffix@),
{
    let x = chars_of(s);
    let y = chars_of(suffix);
    if y.len() > x.len() {
        return false;
    }
    let off = x.len() - y.len();
    let mut i: usize = 0;
    while i < y.len()
        invariant
            i <= y.len(),
            off + y.len() == x.len(),
            x@ == s@,
            y@ == suffix@,
            forall|k: int| 0 <= k < i ==> x@[off + k] == y@[k],
        decreases y.len() - i,
    {
        if x[off + i] != y[i] {
            assert(s@.skip(off as int)[i as int] == x@[off + i]);
            return false;
        }
        i = i + 1;
    }
    assert(s@.skip(off as int) =~= suffix@);
    true
}

} // verus!
