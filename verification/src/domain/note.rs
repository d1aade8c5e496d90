use vstd::prelude::*;

use crate::text::{chars_of, starts_with, string_of, sub_chars, trim, trim_chars};

verus! {

/// Identifier of a note in a chain.
#[derive(Debug, Clone, Copy, PartialEq, Eq, Structural)]
pub struct NoteId {
    pub value: u8,
}

/// The front matter of a note: its id, whether it anchors the chain, and its neighbours.
#[derive(Debug)]
pub struct NoteMeta {
    pub id: NoteId,
    pub is_anchor: bool,
    pub prev: Option<NoteId>,
    pub next: Option<NoteId>,
}

/// A markdown note: front matter and body.
#[derive(Debug)]
pub struct Note {
    pub header: NoteMeta,
    pub body: String,
}

/// Why a note's markdown was refused.
#[derive(Debug, Clone, Copy, PartialEq, Eq, Structural)]
pub enum NoteParseError {
    InvalidFormat,
}

/// Position of the first `---` in `s`, or -1.
pub open spec fn find_dashes(s: Seq<char>) -> int
    decreases s.len(),
{
    if s.len() < 3 {
        -1
    } else if s[0] == '-' && s[1] == '-' && s[2] == '-' {
        0
    } else if find_dashes(s.drop_first()) < 0 {
        -1
    } else {
        find_dashes(s.drop_first()) + 1
    }
}

/// The front matter and body of a markdown note: the text must start with `---`; the front
/// matter runs to the next `---`; both parts are trimmed.
pub open spec fn frontmatter_and_body(markdown: Seq<char>) -> Result<(Seq<char>, Seq<char>), NoteParseError> {
    if !starts_with(markdown, "---"@) {
        Err(NoteParseError::InvalidFormat)
    } else {
        let rest = markdown.skip(3);
        let i = find_dashes(rest);
        if i < 0 {
            Err(NoteParseError::InvalidFormat)
        } else {
            Ok((trim(rest.take(i)), trim(rest.skip(i + 3))))
        }
    }
}

pub open spec fn dashes_at(s: Seq<char>, k: int) -> bool {
    s[k] == '-' && s[k + 1] == '-' && s[k + 2] == '-'
}

proof fn lemma_find_dashes(s: Seq<char>)
    ensures
        find_dashes(s) >= 0 ==> find_dashes(s) + 3 <= s.len() && dashes_at(s, find_dashes(s)),
        forall|k: int| 0 <= k && k + 3 <= s.len() && (find_dashes(s) < 0 || k < find_dashes(s))
            ==> !#[trigger] dashes_at(s, k),
    decreases s.len(),
{
    if s.len() >= 3 {
        let t = s.drop_first();
        lemma_find_dashes(t);
        assert forall|k: int| 0 <= k && k + 3 <= s.len() && (find_dashes(s) < 0 || k < find_dashes(s))
            implies !#[trigger] dashes_at(s, k) by {
            if k > 0 {
                assert(s[k] == t[k - 1] && s[k + 1] == t[k] && s[k + 2] == t[k + 1]);
                assert(dashes_at(s, k) == dashes_at(t, k - 1));
            }
        }
        if find_dashes(s) > 0 {
            let j = find_dashes(s);
            assert(s[j] == t[j - 1] && s[j + 1] == t[j] && s[j + 2] == t[j + 1]);
        }
    }
}

impl Note {
    /// Splits a note's markdown into its trimmed front matter and body.
    pub fn split_frontmatter_and_body(markdown: &str) -> (r: Result<(String, String), NoteParseError>)
        ensures
            match r {
                Ok((f, b)) => frontmatter_and_body(markdown@) == Ok::<(Seq<char>, Seq<char>), NoteParseError>((f@, b@)),
                Err(e) => frontmatter_and_body(markdown@) == Err::<(Seq<char>, Seq<char>), NoteParseError>(e),
            },
    {
        let v = chars_of(markdown);
        if v.len() < 3 || v[0] != '-' || v[1] != '-' || v[2] != '-' {
            proof {
                reveal_strlit("---");
                if v.len() >= 3 {
                    assert(markdown@.take(3)[0] == v@[0]);
                    assert(markdown@.take(3)[1] == v@[1]);
                    assert(markdown@.take(3)[2] == v@[2]);
                }
            }
            return Err(NoteParseError::InvalidFormat);
        }
        proof {
            reveal_strlit("---");
            assert(markdown@.take(3) =~= "---"@);
            assert(starts_with(markdown@, "---"@));
        }
        let rest = sub_chars(v.as_slice(), 3, v.len());
        proof {
            lemma_find_dashes(rest@);
        }
        let mut i: usize = 0;
        while i < rest.len() && rest.len() - i >= 3
            invariant
                rest@ == markdown@.skip(3),
                starts_with(markdown@, "---"@),
                i <= rest.len(),
                forall|k: int| 0 <= k < i && k + 3 <= rest.len() ==> !#[trigger] dashes_at(rest@, k),
            decreases rest.len() - i,
        {
            if rest[i] == '-' && rest[i + 1] == '-' && rest[i + 2] == '-' {
                proof {
                    lemma_find_dashes(rest@);
                    let j = find_dashes(rest@);
                    assert(dashes_at(rest@, i as int));
                    if 0 <= j < i {
                        assert(!dashes_at(rest@, j));
                    }
                    assert(j == i);
                    assert(rest@.take(i as int) == rest@.subrange(0, i as int));
                    assert(rest@.skip(i + 3) == rest@.subrange(i + 3, rest@.len() as int));
                }
                assert(rest@ == markdown@.skip(3));
                let front = trim_chars(sub_chars(rest.as_slice(), 0, i).as_slice());
                let body = trim_chars(sub_chars(rest.as_slice(), i + 3, rest.len()).as_slice());
                return Ok((string_of(front.as_slice()), string_of(body.as_slice())));
            }
            i = i + 1;
        }
        proof {
            lemma_find_dashes(rest@);
            let j = find_dashes(rest@);
            if j >= 0 {
                assert(dashes_at(rest@, j));
            }
        }
        Err(NoteParseError::InvalidFormat)
    }
}

} // verus!
