//! Character-level utilities shared by the protocol and console parsers:
//! finding a character, comparing strings, and splitting on a separator.

use vstd::prelude::*;

verus! {

/// Position of the first occurrence of `c` in `s` at or after `from`,
/// or `None` when no occurrence exists in that range.
pub open spec fn spec_find(s: Seq<char>, from: int, c: char) -> Option<int>
    decreases s.len() - from,
{
    if from < 0 || from >= s.len() {
        None
    } else if s[from] == c {
        Some(from)
    } else {
        spec_find(s, from + 1, c)
    }
}

/// What `spec_find` returns: the first occurrence at or after `from`,
/// with nothing equal to `c` before it.
pub proof fn lemma_spec_find_props(s: Seq<char>, from: int, c: char)
    requires
        0 <= from <= s.len(),
    ensures
        match spec_find(s, from, c) {
            Some(i) => from <= i < s.len() && s[i] == c && (forall|j: int|
                from <= j < i ==> s[j] != c),
            None => forall|j: int| from <= j < s.len() ==> s[j] != c,
        },
    decreases s.len() - from,
{
    if from < s.len() && s[from] != c {
        lemma_spec_find_props(s, from + 1, c);
    }
}

/// First occurrence of `c` in `s` at or after position `from`.
pub fn find_char(s: &str, from: usize, c: char) -> (r: Option<usize>)
    requires
        from <= s@.len(),
    ensures
        match r {
            Some(i) => from <= i < s@.len() && spec_find(s@, from as int, c) == Some(i as int),
            None => spec_find(s@, from as int, c) is None,
        },
    decreases s@.len() - from,
{
    let n = s.unicode_len();
    if from >= n {
        None
    } else if s.get_char(from) == c {
        Some(from)
    } else {
        find_char(s, from + 1, c)
    }
}

/// Character-for-character equality of two string slices.
pub fn str_eq(a: &str, b: &str) -> (r: bool)
    ensures
        r == (a@ == b@),
{
    let na = a.unicode_len();
    let nb = b.unicode_len();
    if na != nb {
        return false;
    }
    let mut i: usize = 0;
    while i < na
        invariant
            na == a@.len(),
            nb == b@.len(),
            na == nb,
            i <= na,
            forall|j: int| 0 <= j < i ==> a@[j] == b@[j],
        decreases na - i,
    {
        if a.get_char(i) != b.get_char(i) {
            return false;
        }
        i = i + 1;
    }
    proof {
        assert(a@ =~= b@);
    }
    true
}

/// The pieces of `s` between occurrences of the separator `c`, in order;
/// a string without the separator yields itself as the single piece.
pub open spec fn spec_split(s: Seq<char>, c: char) -> Seq<Seq<char>>
    decreases s.len(),
    via spec_split_decreases
{
    match spec_find(s, 0, c) {
        None => seq![s],
        Some(i) => seq![s.subrange(0, i)] + spec_split(s.subrange(i + 1, s.len() as int), c),
    }
}

#[via_fn]
proof fn spec_split_decreases(s: Seq<char>, c: char) {
    lemma_spec_find_props(s, 0, c);
}

/// Splitting never yields an empty list of pieces.
pub proof fn lemma_spec_split_len(s: Seq<char>, c: char)
    ensures
        spec_split(s, c).len() >= 1,
    decreases s.len(),
{
    lemma_spec_find_props(s, 0, c);
    if let Some(i) = spec_find(s, 0, c) {
        lemma_spec_split_len(s.subrange(i + 1, s.len() as int), c);
    }
}

/// Splits `s` at every occurrence of `c`, as `str::split` does.
pub fn split_on(s: &str, c: char) -> (r: Vec<String>)
    ensures
        r.deep_view() == spec_split(s@, c),
        r@.len() >= 1,
    decreases s@.len(),
{
    let n = s.unicode_len();
    match find_char(s, 0, c) {
        None => {
            let mut v: Vec<String> = Vec::new();
            v.push(s.to_owned());
            proof {
                assert(v.deep_view() =~= spec_split(s@, c));
            }
            v
        },
        Some(i) => {
            let head = s.substring_char(0, i).to_owned();
            let rest = s.substring_char(i + 1, n);
            let mut v = split_on(rest, c);
            v.insert(0, head);
            proof {
                assert(v.deep_view() =~= spec_split(s@, c));
            }
            v
        },
    }
}

/// Whether `c` is an ASCII whitespace character.
pub open spec fn is_space(c: char) -> bool {
    c == ' ' || c == '\t' || c == '\n' || c == '\r' || c == '\x0b' || c == '\x0c'
}

/// Decides `is_space`.
pub fn is_space_char(c: char) -> (r: bool)
    ensures
        r == is_space(c),
{
    c == ' ' || c == '\t' || c == '\n' || c == '\r' || c == '\x0b' || c == '\x0c'
}

/// The first position at or after `from` holding a non-whitespace character,
/// or the length when only whitespace remains.
pub open spec fn skip_spaces(s: Seq<char>, from: int) -> int
    decreases s.len() - from,
{
    if from < 0 || from >= s.len() {
        s.len() as int
    } else if is_space(s[from]) {
        skip_spaces(s, from + 1)
    } else {
        from
    }
}

/// The first position at or after `from` holding a whitespace character, or
/// the length when none follows: the end of a token starting at `from`.
pub open spec fn token_end(s: Seq<char>, from: int) -> int
    decreases s.len() - from,
{
    if from < 0 || from >= s.len() {
        s.len() as int
    } else if is_space(s[from]) {
        from
    } else {
        token_end(s, from + 1)
    }
}

/// What `skip_spaces` returns: a position within bounds, everything before
/// it whitespace, the character there (if any) not.
pub proof fn lemma_skip_spaces_props(s: Seq<char>, from: int)
    requires
        0 <= from <= s.len(),
    ensures
        from <= skip_spaces(s, from) <= s.len(),
        skip_spaces(s, from) < s.len() ==> !is_space(s[skip_spaces(s, from)]),
        forall|j: int| from <= j < skip_spaces(s, from) ==> is_space(s[j]),
    decreases s.len() - from,
{
    if from < s.len() && is_space(s[from]) {
        lemma_skip_spaces_props(s, from + 1);
    }
}

/// What `token_end` returns: a position within bounds, everything before it
/// non-whitespace, the character there (if any) whitespace.
pub proof fn lemma_token_end_props(s: Seq<char>, from: int)
    requires
        0 <= from <= s.len(),
    ensures
        from <= token_end(s, from) <= s.len(),
        token_end(s, from) < s.len() ==> is_space(s[token_end(s, from)]),
        forall|j: int| from <= j < token_end(s, from) ==> !is_space(s[j]),
    decreases s.len() - from,
{
    if from < s.len() && !is_space(s[from]) {
        lemma_token_end_props(s, from + 1);
    }
}

/// The whitespace-separated tokens of `s` at or after `from`: each maximal
/// non-empty run of non-whitespace characters, in order.
pub open spec fn spec_tokens_from(s: Seq<char>, from: int) -> Seq<Seq<char>>
    decreases s.len() - from,
    via spec_tokens_from_decreases
{
    let start = skip_spaces(s, from);
    if start >= s.len() {
        Seq::empty()
    } else {
        let end = token_end(s, start);
        seq![s.subrange(start, end)] + spec_tokens_from(s, end)
    }
}

#[via_fn]
proof fn spec_tokens_from_decreases(s: Seq<char>, from: int) {
    if 0 <= from <= s.len() {
        lemma_skip_spaces_props(s, from);
        lemma_token_end_props(s, skip_spaces(s, from));
    }
}

/// The whitespace-separated tokens of `s`.
pub open spec fn spec_tokens(s: Seq<char>) -> Seq<Seq<char>> {
    spec_tokens_from(s, 0)
}

/// First position at or after `from` holding a non-whitespace character.
fn skip_spaces_at(s: &str, from: usize) -> (r: usize)
    requires
        from <= s@.len(),
    ensures
        r == skip_spaces(s@, from as int),
        from <= r <= s@.len(),
    decreases s@.len() - from,
{
    let n = s.unicode_len();
    if from >= n {
        n
    } else if is_space_char(s.get_char(from)) {
        skip_spaces_at(s, from + 1)
    } else {
        from
    }
}

/// End of the token starting at `from`.
fn token_end_at(s: &str, from: usize) -> (r: usize)
    requires
        from <= s@.len(),
    ensures
        r == token_end(s@, from as int),
        from <= r <= s@.len(),
    decreases s@.len() - from,
{
    let n = s.unicode_len();
    if from >= n {
        n
    } else if is_space_char(s.get_char(from)) {
        from
    } else {
        token_end_at(s, from + 1)
    }
}

/// The tokens of `s` at or after `from`.
fn tokens_from(s: &str, from: usize) -> (r: Vec<String>)
    requires
        from <= s@.len(),
    ensures
        r.deep_view() == spec_tokens_from(s@, from as int),
    decreases s@.len() - from,
{
    let n = s.unicode_len();
    let start = skip_spaces_at(s, from);
    if start >= n {
        let v: Vec<String> = Vec::new();
        proof {
            assert(v.deep_view() =~= spec_tokens_from(s@, from as int));
        }
        v
    } else {
        let end = token_end_at(s, start);
        proof {
            lemma_skip_spaces_props(s@, from as int);
            lemma_token_end_props(s@, start as int);
            assert(end > start);
        }
        let tok = s.substring_char(start, end).to_owned();
        let mut v = tokens_from(s, end);
        v.insert(0, tok);
        proof {
            assert(v.deep_view() =~= spec_tokens_from(s@, from as int));
        }
        v
    }
}

/// Splits `s` into its whitespace-separated tokens, dropping the whitespace,
/// as `str::split_whitespace` does on ASCII text.
pub fn tokens_of(s: &str) -> (r: Vec<String>)
    ensures
        r.deep_view() == spec_tokens(s@),
{
    tokens_from(s, 0)
}

} // verus!
