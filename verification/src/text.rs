//! Character-sequence utilities: substring search from either end,
//! underscore-to-space replacement, ASCII lowercasing, and whitespace
//! tokens. These back the filename parser.

use vstd::prelude::*;

verus! {

/// Relies on String::push: appends the given character to the end of the string.
pub assume_specification[ String::push ](s: &mut String, ch: char)
    ensures
        final(s)@ == old(s)@.push(ch),
;

/// `pat` occurs in `s` at position `i`.
pub open spec fn matches_at(s: Seq<char>, pat: Seq<char>, i: int) -> bool {
    &&& 0 <= i
    &&& i + pat.len() <= s.len()
    &&& s.subrange(i, i + pat.len()) == pat
}

/// The rightmost position `<= i` at which `pat` occurs in `s`.
pub open spec fn rfind_from(s: Seq<char>, pat: Seq<char>, i: int) -> Option<int>
    decreases i + 1,
{
    if i < 0 {
        None
    } else if matches_at(s, pat, i) {
        Some(i)
    } else {
        rfind_from(s, pat, i - 1)
    }
}

/// The rightmost occurrence of `pat` in `s`.
pub open spec fn rfind(s: Seq<char>, pat: Seq<char>) -> Option<int> {
    rfind_from(s, pat, s.len() - pat.len())
}

/// The leftmost position `>= i` at which `pat` occurs in `s`.
pub open spec fn find_from(s: Seq<char>, pat: Seq<char>, i: int) -> Option<int>
    decreases s.len() - i + 1,
{
    if i < 0 || i + pat.len() > s.len() {
        None
    } else if matches_at(s, pat, i) {
        Some(i)
    } else {
        find_from(s, pat, i + 1)
    }
}

/// The leftmost occurrence of `pat` in `s`.
pub open spec fn find(s: Seq<char>, pat: Seq<char>) -> Option<int> {
    find_from(s, pat, 0)
}

/// The rightmost position `<= i` at which the character `c` stands in `s`.
pub open spec fn last_index_of_from(s: Seq<char>, c: char, i: int) -> Option<int>
    decreases i + 1,
{
    if i < 0 {
        None
    } else if s[i] == c {
        Some(i)
    } else {
        last_index_of_from(s, c, i - 1)
    }
}

/// The rightmost occurrence of the character `c` in `s`.
pub open spec fn last_index_of(s: Seq<char>, c: char) -> Option<int> {
    last_index_of_from(s, c, s.len() - 1)
}

/// ASCII whitespace, as it separates the words of an artist name.
pub open spec fn is_space(c: char) -> bool {
    c == ' ' || c == '\t' || c == '\n' || c == '\r'
}

/// The rightmost position `<= i` of a whitespace character in `s`.
pub open spec fn last_space_from(s: Seq<char>, i: int) -> Option<int>
    decreases i + 1,
{
    if i < 0 {
        None
    } else if is_space(s[i]) {
        Some(i)
    } else {
        last_space_from(s, i - 1)
    }
}

/// The suffix of `s` after its last whitespace character; all of `s` when
/// it holds no whitespace.
pub open spec fn last_space_token(s: Seq<char>) -> Seq<char> {
    match last_space_from(s, s.len() - 1) {
        Some(i) => s.skip(i + 1),
        None => s,
    }
}

/// An underscore becomes a space; every other character stays.
pub open spec fn space_for_underscore(c: char) -> char {
    if c == '_' {
        ' '
    } else {
        c
    }
}

/// `s` with every underscore replaced by a space.
pub open spec fn underscores_to_spaces(s: Seq<char>) -> Seq<char> {
    s.map_values(|c: char| space_for_underscore(c))
}

/// An ASCII capital letter becomes its small form; every other character
/// stays.
pub open spec fn lower_char(c: char) -> char {
    if 'A' as u32 <= c as u32 && c as u32 <= 'Z' as u32 {
        (c as u32 + 32) as char
    } else {
        c
    }
}

/// `s` with every ASCII capital letter lowercased.
pub open spec fn ascii_lower(s: Seq<char>) -> Seq<char> {
    s.map_values(|c: char| lower_char(c))
}

/// A position found by `rfind_from` carries a match of `pat`.
pub proof fn lemma_rfind_from_some(s: Seq<char>, pat: Seq<char>, i: int, j: int)
    requires
        rfind_from(s, pat, i) == Some(j),
    ensures
        matches_at(s, pat, j),
        j <= i,
    decreases i + 1,
{
    if i >= 0 && !matches_at(s, pat, i) {
        lemma_rfind_from_some(s, pat, i - 1, j);
    }
}

/// A position found by `find_from` carries a match of `pat`.
pub proof fn lemma_find_from_some(s: Seq<char>, pat: Seq<char>, i: int, j: int)
    requires
        find_from(s, pat, i) == Some(j),
    ensures
        matches_at(s, pat, j),
        j >= i,
    decreases s.len() - i + 1,
{
    if !(i < 0 || i + pat.len() > s.len()) && !matches_at(s, pat, i) {
        lemma_find_from_some(s, pat, i + 1, j);
    }
}

/// A position found by `last_index_of_from` is in range and holds `c`.
pub proof fn lemma_last_index_of_from_some(s: Seq<char>, c: char, i: int, j: int)
    requires
        last_index_of_from(s, c, i) == Some(j),
    ensures
        0 <= j <= i,
        s[j] == c,
    decreases i + 1,
{
    if i >= 0 && s[i] != c {
        lemma_last_index_of_from_some(s, c, i - 1, j);
    }
}

/// `pat` occurs in `s` at position `i`, decided character by character.
pub(crate) fn pattern_at(s: &str, pat: &str, i: usize) -> (b: bool)
    requires
        i + pat@.len() <= s@.len(),
    ensures
        b == matches_at(s@, pat@, i as int),
{
    let n: usize = s.unicode_len();
    let m: usize = pat.unicode_len();
    let mut j: usize = 0;
    while j < m
        invariant
            n == s@.len(),
            m == pat@.len(),
            i + m <= n,
            0 <= j <= m,
            forall|t: int| 0 <= t < j ==> s@[i + t] == pat@[t],
        decreases m - j,
    {
        if s.get_char(i + j) != pat.get_char(j) {
            proof {
                if matches_at(s@, pat@, i as int) {
                    assert(s@.subrange(i as int, i + pat@.len())[j as int] == pat@[j as int]);
                }
            }
            return false;
        }
        j += 1;
    }
    proof {
        assert(s@.subrange(i as int, i + pat@.len()) =~= pat@);
    }
    true
}

/// The rightmost occurrence of `pat` in `s`.
pub(crate) fn rfind_pat(s: &str, pat: &str) -> (r: Option<usize>)
    ensures
        r is None <==> rfind(s@, pat@) is None,
        r matches Some(i) ==> rfind(s@, pat@) == Some(i as int),
{
    let n: usize = s.unicode_len();
    let m: usize = pat.unicode_len();
    if m > n {
        return None;
    }
    if m == 0 {
        proof {
            assert(s@.subrange(n as int, n as int) =~= pat@);
        }
        return Some(n);
    }
    let mut i: usize = n - m + 1;
    while i > 0
        invariant
            n == s@.len(),
            m == pat@.len(),
            0 < m <= n,
            i <= n - m + 1,
            rfind(s@, pat@) == rfind_from(s@, pat@, i - 1),
        decreases i,
    {
        i = i - 1;
        if pattern_at(s, pat, i) {
            return Some(i);
        }
    }
    None
}

/// The leftmost occurrence of `pat` in `s`.
pub(crate) fn find_pat(s: &str, pat: &str) -> (r: Option<usize>)
    ensures
        r is None <==> find(s@, pat@) is None,
        r matches Some(i) ==> find(s@, pat@) == Some(i as int),
{
    let n: usize = s.unicode_len();
    let m: usize = pat.unicode_len();
    if m > n {
        return None;
    }
    if m == 0 {
        proof {
            assert(s@.subrange(0, 0) =~= pat@);
        }
        return Some(0);
    }
    let mut i: usize = 0;
    while i <= n - m
        invariant
            n == s@.len(),
            m == pat@.len(),
            0 < m <= n,
            i <= n - m + 1,
            find(s@, pat@) == find_from(s@, pat@, i as int),
        decreases n - i,
    {
        if pattern_at(s, pat, i) {
            return Some(i);
        }
        i = i + 1;
    }
    None
}

/// The rightmost occurrence of the character `c` in `s`.
pub(crate) fn find_last_char(s: &str, c: char) -> (r: Option<usize>)
    ensures
        r is None <==> last_index_of(s@, c) is None,
        r matches Some(i) ==> last_index_of(s@, c) == Some(i as int) && i < s@.len(),
{
    let n: usize = s.unicode_len();
    let mut i: usize = n;
    while i > 0
        invariant
            n == s@.len(),
            i <= n,
            last_index_of(s@, c) == last_index_of_from(s@, c, i - 1),
        decreases i,
    {
        i = i - 1;
        if s.get_char(i) == c {
            return Some(i);
        }
    }
    None
}

/// The suffix of `s` after its last whitespace character.
pub(crate) fn trailing_token<'a>(s: &'a str) -> (r: &'a str)
    ensures
        r@ == last_space_token(s@),
{
    let n: usize = s.unicode_len();
    let mut i: usize = n;
    while i > 0
        invariant
            n == s@.len(),
            i <= n,
            last_space_from(s@, s@.len() - 1) == last_space_from(s@, i - 1),
        decreases i,
    {
        i = i - 1;
        let c = s.get_char(i);
        if c == ' ' || c == '\t' || c == '\n' || c == '\r' {
            let r = s.substring_char(i + 1, n);
            proof {
                assert(r@ =~= s@.skip(i + 1));
            }
            return r;
        }
    }
    s
}

/// `s` with every underscore replaced by a space.
pub(crate) fn replace_underscores(s: &str) -> (r: String)
    ensures
        r@ == underscores_to_spaces(s@),
{
    let n: usize = s.unicode_len();
    let mut r = String::new();
    let mut i: usize = 0;
    while i < n
        invariant
            n == s@.len(),
            i <= n,
            r@ == underscores_to_spaces(s@.take(i as int)),
        decreases n - i,
    {
        let c = s.get_char(i);
        let out: char = if c == '_' {
            ' '
        } else {
            c
        };
        r.push(out);
        proof {
            assert(underscores_to_spaces(s@.take(i + 1)) =~= underscores_to_spaces(
                s@.take(i as int),
            ).push(space_for_underscore(s@[i as int])));
        }
        i = i + 1;
    }
    proof {
        assert(s@.take(n as int) =~= s@);
    }
    r
}

/// `s` with every ASCII capital letter lowercased.
pub(crate) fn to_ascii_lower(s: &str) -> (r: String)
    ensures
        r@ == ascii_lower(s@),
{
    let n: usize = s.unicode_len();
    let mut r = String::new();
    let mut i: usize = 0;
    while i < n
        invariant
            n == s@.len(),
            i <= n,
            r@ == ascii_lower(s@.take(i as int)),
        decreases n - i,
    {
        let c = s.get_char(i);
        let out: char = if 'A' <= c && c <= 'Z' {
            ((c as u8) + 32) as char
        } else {
            c
        };
        proof {
            assert(out == lower_char(s@[i as int]));
        }
        r.push(out);
        proof {
            assert(ascii_lower(s@.take(i + 1)) =~= ascii_lower(s@.take(i as int)).push(
                lower_char(s@[i as int]),
            ));
        }
        i = i + 1;
    }
    proof {
        assert(s@.take(n as int) =~= s@);
    }
    r
}

} // verus!
