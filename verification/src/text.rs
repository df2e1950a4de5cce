//! Character-level text utilities: whitespace trimming, character search,
//! and string equality, with their specification-level counterparts.

use vstd::prelude::*;
use vstd::string::StrSliceExecFns;

verus! {

/// The whitespace characters recognized when trimming lines, keys and
/// values: space, tab, line feed, carriage return, vertical tab, form feed.
pub open spec fn is_ini_whitespace(c: char) -> bool {
    c == ' ' || c == '\t' || c == '\n' || c == '\r' || c == '\u{b}' || c == '\u{c}'
}

/// Executable test for [`is_ini_whitespace`].
pub fn is_ini_whitespace_char(c: char) -> (r: bool)
    ensures
        r == is_ini_whitespace(c),
{
    c == ' ' || c == '\t' || c == '\n' || c == '\r' || c == '\u{b}' || c == '\u{c}'
}

/// `s` without its leading whitespace.
pub open spec fn trim_start_spec(s: Seq<char>) -> Seq<char>
    decreases s.len(),
{
    if s.len() == 0 {
        s
    } else if is_ini_whitespace(s[0]) {
        trim_start_spec(s.subrange(1, s.len() as int))
    } else {
        s
    }
}

/// `s` without its trailing whitespace.
pub open spec fn trim_end_spec(s: Seq<char>) -> Seq<char>
    decreases s.len(),
{
    if s.len() == 0 {
        s
    } else if is_ini_whitespace(s[s.len() - 1]) {
        trim_end_spec(s.drop_last())
    } else {
        s
    }
}

/// `s` without whitespace at either end.
pub open spec fn trim_spec(s: Seq<char>) -> Seq<char> {
    trim_end_spec(trim_start_spec(s))
}

/// Removes leading whitespace from a string.
pub fn trim_start(s: &str) -> (r: String)
    ensures
        r@ == trim_start_spec(s@),
    decreases s@.len(),
{
    let n = s.unicode_len();
    if n == 0 {
        s.to_owned()
    } else if is_ini_whitespace_char(s.get_char(0)) {
        trim_start(s.substring_char(1, n))
    } else {
        s.to_owned()
    }
}

/// Removes trailing whitespace from a string.
pub fn trim_end(s: &str) -> (r: String)
    ensures
        r@ == trim_end_spec(s@),
    decreases s@.len(),
{
    let n = s.unicode_len();
    if n == 0 {
        s.to_owned()
    } else if is_ini_whitespace_char(s.get_char(n - 1)) {
        proof {
            assert(s@.subrange(0, s@.len() - 1) =~= s@.drop_last());
        }
        trim_end(s.substring_char(0, n - 1))
    } else {
        s.to_owned()
    }
}

/// Removes whitespace from both ends of a string.
pub fn trim(s: &str) -> (r: String)
    ensures
        r@ == trim_spec(s@),
{
    let t = trim_start(s);
    trim_end(t.as_str())
}

/// The index of the first occurrence of `a` or `b` in `s` at or after
/// position `i`, or `s.len()` if neither occurs there.
pub open spec fn find_first_of_spec(s: Seq<char>, i: int, a: char, b: char) -> int
    decreases s.len() - i,
{
    if i < 0 || i >= s.len() {
        s.len() as int
    } else if s[i] == a || s[i] == b {
        i
    } else {
        find_first_of_spec(s, i + 1, a, b)
    }
}

/// The result of [`find_first_of_spec`] lies between `i` and `s.len()`,
/// points at an occurrence when it is below `s.len()`, and skips no
/// earlier occurrence.
pub proof fn lemma_find_first_of_spec(s: Seq<char>, i: int, a: char, b: char)
    requires
        0 <= i <= s.len(),
    ensures
        i <= find_first_of_spec(s, i, a, b) <= s.len(),
        find_first_of_spec(s, i, a, b) < s.len() ==> (s[find_first_of_spec(s, i, a, b)] == a
            || s[find_first_of_spec(s, i, a, b)] == b),
        forall|j: int| i <= j < find_first_of_spec(s, i, a, b) ==> (s[j] != a && s[j] != b),
    decreases s.len() - i,
{
    if i < s.len() && !(s[i] == a || s[i] == b) {
        lemma_find_first_of_spec(s, i + 1, a, b);
    }
}

/// Finds the first occurrence of `a` or `b` at or after position `i`.
pub fn find_first_of(s: &str, i: usize, a: char, b: char) -> (r: usize)
    requires
        i <= s@.len(),
    ensures
        r == find_first_of_spec(s@, i as int, a, b),
        r <= s@.len(),
    decreases s@.len() - i,
{
    proof {
        lemma_find_first_of_spec(s@, i as int, a, b);
    }
    let n = s.unicode_len();
    if i >= n {
        n
    } else {
        let c = s.get_char(i);
        if c == a || c == b {
            i
        } else {
            find_first_of(s, i + 1, a, b)
        }
    }
}

/// Whether `s` contains `a` or `b`.
pub open spec fn contains_char_spec(s: Seq<char>, a: char) -> bool {
    find_first_of_spec(s, 0, a, a) < s.len()
}

/// Whether `s` contains the character `a`.
pub fn contains_char(s: &str, a: char) -> (r: bool)
    ensures
        r == contains_char_spec(s@, a),
{
    let n = s.unicode_len();
    find_first_of(s, 0, a, a) < n
}

/// Character-by-character string equality, equivalent to equality of the
/// two views.
pub fn str_eq(a: &str, b: &str) -> (r: bool)
    ensures
        r == (a@ == b@),
{
    let na = a.unicode_len();
    let nb = b.unicode_len();
    if na != nb {
        return false;
    }
    let mut i: usize = 0;
    while i < na
        invariant
            na == a@.len(),
            na == b@.len(),
            0 <= i <= na,
            forall|j: int| 0 <= j < i ==> a@[j] == b@[j],
        decreases na - i,
    {
        if a.get_char(i) != b.get_char(i) {
            return false;
        }
        i += 1;
    }
    proof {
        assert(a@ =~= b@);
    }
    true
}

} // verus!
