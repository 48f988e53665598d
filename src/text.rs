//! Text primitives over `Seq<char>`: substring search, first-occurrence
//! replacement, line counting and trailing-newline normalisation.
use vstd::prelude::*;

verus! {

/// `pat` occurs in `s` starting at index `i`.
pub open spec fn matches_at(s: Seq<char>, pat: Seq<char>, i: int) -> bool {
    0 <= i && i + pat.len() <= s.len() && s.subrange(i, i + pat.len()) == pat
}

/// The first index `>= i` at which `pat` occurs in `s`.
pub open spec fn find_from(s: Seq<char>, pat: Seq<char>, i: int) -> Option<int>
    decreases s.len() + 1 - i,
{
    if i < 0 || i + pat.len() > s.len() {
        None
    } else if matches_at(s, pat, i) {
        Some(i)
    } else {
        find_from(s, pat, i + 1)
    }
}

/// `pat` occurs somewhere in `s`.
pub open spec fn contains(s: Seq<char>, pat: Seq<char>) -> bool {
    exists|i: int| matches_at(s, pat, i)
}

/// `s` with its leftmost occurrence of `pat` replaced by `rep`; `s` itself
/// when `pat` does not occur.
pub open spec fn replace_first(s: Seq<char>, pat: Seq<char>, rep: Seq<char>) -> Seq<char> {
    match find_from(s, pat, 0) {
        Some(i) => s.subrange(0, i) + rep + s.subrange(i + pat.len(), s.len() as int),
        None => s,
    }
}

/// Index `i` closes a line: a `\n`, or a `\r` that no `\n` follows.
pub open spec fn is_line_end(s: Seq<char>, i: int) -> bool {
    s[i] == '\n' || (s[i] == '\r' && (i + 1 == s.len() || s[i + 1] != '\n'))
}

/// How many of the first `n` indices of `s` close a line.
pub open spec fn ends_before(s: Seq<char>, n: int) -> nat
    decreases n,
{
    if n <= 0 {
        0
    } else {
        ends_before(s, n - 1) + if is_line_end(s, n - 1) { 1nat } else { 0nat }
    }
}

/// The number of lines of `s`, each one kept with its terminator (`\n`,
/// `\r\n` or `\r`), an unterminated tail counting as one more line.
pub open spec fn line_count(s: Seq<char>) -> nat {
    ends_before(s, s.len() as int) + if s.len() > 0 && !is_line_end(s, s.len() - 1) {
        1nat
    } else {
        0nat
    }
}

/// `s` with one `\n` appended when it is non-empty and does not end in
/// `\n`; otherwise `s` itself.
pub open spec fn normalized(s: Seq<char>) -> Seq<char> {
    if s.len() == 0 || s.last() == '\n' {
        s
    } else {
        s.push('\n')
    }
}

pub proof fn lemma_find_from(s: Seq<char>, pat: Seq<char>, i: int)
    requires
        0 <= i,
    ensures
        find_from(s, pat, i) is Some <==> exists|j: int| i <= j && matches_at(s, pat, j),
        find_from(s, pat, i) matches Some(k) ==> i <= k && matches_at(s, pat, k),
    decreases s.len() + 1 - i,
{
    if i + pat.len() > s.len() {
    } else if matches_at(s, pat, i) {
    } else {
        lemma_find_from(s, pat, i + 1);
        assert forall|j: int| i <= j && matches_at(s, pat, j) implies i + 1 <= j by {
            if j == i {
            }
        }
    }
}

pub proof fn lemma_contains_find(s: Seq<char>, pat: Seq<char>)
    ensures
        contains(s, pat) <==> find_from(s, pat, 0) is Some,
        find_from(s, pat, 0) matches Some(k) ==> matches_at(s, pat, k),
{
    lemma_find_from(s, pat, 0);
    if contains(s, pat) {
        let j = choose|j: int| matches_at(s, pat, j);
        assert(0 <= j && matches_at(s, pat, j));
    }
}

pub proof fn lemma_ends_before_bound(s: Seq<char>, n: int)
    requires
        0 <= n <= s.len(),
    ensures
        ends_before(s, n) <= n,
    decreases n,
{
    if n > 0 {
        lemma_ends_before_bound(s, n - 1);
    }
}

/// A text never has more lines than characters.
pub proof fn lemma_line_count_bound(s: Seq<char>)
    ensures
        line_count(s) <= s.len(),
{
    if s.len() > 0 {
        lemma_ends_before_bound(s, s.len() - 1);
    }
}

/// The number of `\n` characters in `s`.
pub open spec fn nl_count(s: Seq<char>) -> nat
    decreases s.len(),
{
    if s.len() == 0 {
        0
    } else {
        nl_count(s.drop_last()) + if s.last() == '\n' { 1nat } else { 0nat }
    }
}

/// `s` holds no `\r`.
pub open spec fn no_cr(s: Seq<char>) -> bool {
    forall|i: int| 0 <= i < s.len() ==> s[i] != '\r'
}

/// `s` is empty or its last line is terminated by `\n`.
pub open spec fn ends_line(s: Seq<char>) -> bool {
    s.len() == 0 || s.last() == '\n'
}

pub proof fn lemma_nl_concat(a: Seq<char>, b: Seq<char>)
    ensures
        nl_count(a + b) == nl_count(a) + nl_count(b),
    decreases b.len(),
{
    if b.len() == 0 {
        assert(a + b =~= a);
    } else {
        lemma_nl_concat(a, b.drop_last());
        assert((a + b).drop_last() =~= a + b.drop_last());
    }
}

proof fn lemma_ends_before_nl(s: Seq<char>, n: int)
    requires
        no_cr(s),
        0 <= n <= s.len(),
    ensures
        ends_before(s, n) == nl_count(s.subrange(0, n)),
    decreases n,
{
    if n > 0 {
        lemma_ends_before_nl(s, n - 1);
        assert(s.subrange(0, n).drop_last() =~= s.subrange(0, n - 1));
    }
}

/// Without `\r`, a text whose last line is terminated has as many lines as
/// newlines.
pub proof fn lemma_line_count_nl(s: Seq<char>)
    requires
        no_cr(s),
        ends_line(s),
    ensures
        line_count(s) == nl_count(s),
{
    lemma_ends_before_nl(s, s.len() as int);
    assert(s.subrange(0, s.len() as int) =~= s);
}

/// Where the first occurrence sits: the text splits around it, and the
/// replacement puts `rep` in its place.
pub proof fn lemma_replace_split(s: Seq<char>, pat: Seq<char>, rep: Seq<char>)
    requires
        contains(s, pat),
    ensures
        ({
            let k = find_from(s, pat, 0)->Some_0;
            &&& 0 <= k && k + pat.len() <= s.len()
            &&& s == s.subrange(0, k) + pat + s.subrange(k + pat.len(), s.len() as int)
            &&& replace_first(s, pat, rep) == s.subrange(0, k) + rep + s.subrange(
                k + pat.len(),
                s.len() as int,
            )
        }),
{
    lemma_contains_find(s, pat);
    let k = find_from(s, pat, 0)->Some_0;
    assert(s =~= s.subrange(0, k) + pat + s.subrange(k + pat.len(), s.len() as int));
}

/// Relies on `str::contains`: true iff the pattern matches a sub-slice.
#[verifier::external_body]
pub(crate) fn str_contains(s: &str, pat: &str) -> (r: bool)
    ensures
        r == contains(s@, pat@),
{
    s.contains(pat)
}

/// Relies on `str::replacen` with a count of one: the first (leftmost) match
/// of the pattern is replaced, the rest of the text copied unchanged.
#[verifier::external_body]
pub(crate) fn str_replace_first(s: &str, pat: &str, rep: &str) -> (r: String)
    ensures
        r@ == replace_first(s@, pat@, rep@),
{
    s.replacen(pat, rep, 1)
}

/// Relies on `str::ends_with` with a `char` pattern: true iff the last
/// character is that one.
#[verifier::external_body]
pub(crate) fn str_ends_with_newline(s: &str) -> (r: bool)
    ensures
        r == (s@.len() > 0 && s@.last() == '\n'),
{
    s.ends_with('\n')
}

/// The text with one `\n` appended when it is non-empty and does not
/// already end in `\n`; otherwise unchanged.
pub fn normalize_newline(s: &str) -> (r: String)
    ensures
        r@ == normalized(s@),
{
    if s.is_empty() || str_ends_with_newline(s) {
        s.to_string()
    } else {
        let mut r = s.to_string();
        r.append("\n");
        proof {
            reveal_strlit("\n");
            assert(r@ =~= s@.push('\n'));
        }
        r
    }
}

} // verus!
