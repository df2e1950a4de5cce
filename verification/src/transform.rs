//! The line transform pipeline: comment stripping, quote handling, BOM
//! skipping and multiline continuation, each rule toggled by a flag of
//! [`IniParserConfig`].

use vstd::prelude::*;
use vstd::string::StrSliceExecFns;

use crate::config::IniParserConfig;
use crate::text::contains_char;
use crate::text::contains_char_spec;
use crate::text::find_first_of;
use crate::text::find_first_of_spec;
use crate::text::trim;
use crate::text::trim_end;
use crate::text::trim_end_spec;
use crate::text::trim_spec;

verus! {

/// The views of a sequence of lines.
pub open spec fn line_views(lines: Seq<String>) -> Seq<Seq<char>> {
    Seq::new(lines.len(), |i: int| lines[i]@)
}

/// The prefix of `s` before its first `;` or `#`, with trailing whitespace
/// removed; `s` itself end-trimmed when it has no comment marker.
pub open spec fn strip_inline_comment_spec(s: Seq<char>) -> Seq<char> {
    trim_end_spec(s.subrange(0, find_first_of_spec(s, 0, ';', '#')))
}

/// Cuts `s` at its first `;` or `#` and removes trailing whitespace from
/// what remains.
pub fn strip_inline_comment(line: &str) -> (r: String)
    ensures
        r@ == strip_inline_comment_spec(line@),
{
    let j = find_first_of(line, 0, ';', '#');
    trim_end(line.substring_char(0, j))
}

/// The index of the first `;` or `#` of `s` at or after `i` that stands
/// outside every double-quoted span, where `in_quotes` says whether `i`
/// itself is inside one; `s.len()` if there is none. Quote state toggles on
/// each `"` seen left to right.
pub open spec fn find_unquoted_comment_spec(s: Seq<char>, i: int, in_quotes: bool) -> int
    decreases s.len() - i,
{
    if i < 0 || i >= s.len() {
        s.len() as int
    } else if s[i] == '"' {
        find_unquoted_comment_spec(s, i + 1, !in_quotes)
    } else if (s[i] == ';' || s[i] == '#') && !in_quotes {
        i
    } else {
        find_unquoted_comment_spec(s, i + 1, in_quotes)
    }
}

/// The result of [`find_unquoted_comment_spec`] lies between `i` and
/// `s.len()`.
pub proof fn lemma_find_unquoted_comment_bounds(s: Seq<char>, i: int, in_quotes: bool)
    requires
        0 <= i <= s.len(),
    ensures
        i <= find_unquoted_comment_spec(s, i, in_quotes) <= s.len(),
    decreases s.len() - i,
{
    if i < s.len() {
        if s[i] == '"' {
            lemma_find_unquoted_comment_bounds(s, i + 1, !in_quotes);
        } else if !((s[i] == ';' || s[i] == '#') && !in_quotes) {
            lemma_find_unquoted_comment_bounds(s, i + 1, in_quotes);
        }
    }
}

/// Finds the first comment marker outside double quotes, as
/// [`find_unquoted_comment_spec`] describes.
fn find_unquoted_comment(s: &str, i: usize, in_quotes: bool) -> (r: usize)
    requires
        i <= s@.len(),
    ensures
        r == find_unquoted_comment_spec(s@, i as int, in_quotes),
        r <= s@.len(),
    decreases s@.len() - i,
{
    proof {
        lemma_find_unquoted_comment_bounds(s@, i as int, in_quotes);
    }
    let n = s.unicode_len();
    if i >= n {
        n
    } else {
        let c = s.get_char(i);
        if c == '"' {
            find_unquoted_comment(s, i + 1, !in_quotes)
        } else if (c == ';' || c == '#') && !in_quotes {
            i
        } else {
            find_unquoted_comment(s, i + 1, in_quotes)
        }
    }
}

/// The prefix of `s` before its first comment marker that stands outside
/// double quotes, end-trimmed.
pub open spec fn strip_comment_outside_quotes_spec(s: Seq<char>) -> Seq<char> {
    trim_end_spec(s.subrange(0, find_unquoted_comment_spec(s, 0, false)))
}

/// Cuts `s` at its first `;` or `#` outside double quotes and removes
/// trailing whitespace from what remains.
pub fn strip_comment_outside_quotes(line: &str) -> (r: String)
    ensures
        r@ == strip_comment_outside_quotes_spec(line@),
{
    let j = find_unquoted_comment(line, 0, false);
    trim_end(line.substring_char(0, j))
}

/// `s` trimmed of whitespace and, when the trimmed text is wrapped in a
/// matching pair of double quotes, of exactly that outer pair.
pub open spec fn strip_outer_quotes_spec(s: Seq<char>) -> Seq<char> {
    let t = trim_spec(s);
    if t.len() >= 2 && t[0] == '"' && t[t.len() - 1] == '"' {
        t.subrange(1, t.len() - 1)
    } else {
        t
    }
}

/// Trims `s` and removes one outer pair of double quotes if present.
pub fn strip_outer_quotes(line: &str) -> (r: String)
    ensures
        r@ == strip_outer_quotes_spec(line@),
{
    let t = trim(line);
    let n = t.as_str().unicode_len();
    if n >= 2 && t.as_str().get_char(0) == '"' && t.as_str().get_char(n - 1) == '"' {
        t.as_str().substring_char(1, n - 1).to_owned()
    } else {
        t
    }
}

/// Whether the last character of `s` is a backslash.
pub open spec fn ends_with_backslash(s: Seq<char>) -> bool {
    s.len() > 0 && s[s.len() - 1] == '\\'
}

/// Executable test for [`ends_with_backslash`].
fn ends_with_backslash_char(s: &str) -> (r: bool)
    ensures
        r == ends_with_backslash(s@),
{
    let n = s.unicode_len();
    n > 0 && s.get_char(n - 1) == '\\'
}

impl IniParserConfig {
    /// The line after the BOM-skipping rule: a single leading
    /// byte-order-mark code point is removed when `allow_bom` is set and
    /// one is present.
    pub open spec fn skip_bom_spec(self, s: Seq<char>) -> Seq<char> {
        if self.allow_bom && s.len() > 0 && s[0] == '\u{feff}' {
            s.subrange(1, s.len() as int)
        } else {
            s
        }
    }

    /// Strips one leading byte-order mark from `line` when `allow_bom` is
    /// set.
    pub fn skip_bom(&self, line: String) -> (r: String)
        ensures
            r@ == self.skip_bom_spec(line@),
    {
        if self.allow_bom {
            let n = line.as_str().unicode_len();
            if n > 0 && line.as_str().get_char(0) == '\u{feff}' {
                return line.as_str().substring_char(1, n).to_owned();
            }
        }
        line
    }

    /// The value after the inline-comment rule: when `allow_inline_comments`
    /// is set and the value is not itself comment-shaped, it is cut at its
    /// first comment marker and end-trimmed.
    pub open spec fn remove_inline_comments_spec(self, s: Seq<char>) -> Seq<char> {
        if !self.allow_inline_comments {
            s
        } else if s.len() > 0 && (s[0] == ';' || s[0] == '#') {
            s
        } else {
            strip_inline_comment_spec(s)
        }
    }

    /// Applies the inline-comment rule to a value.
    pub fn remove_inline_comments(&self, line: String) -> (r: String)
        ensures
            r@ == self.remove_inline_comments_spec(line@),
    {
        if !self.allow_inline_comments {
            return line;
        }
        let n = line.as_str().unicode_len();
        if n > 0 {
            let c = line.as_str().get_char(0);
            if c == ';' || c == '#' {
                return line;
            }
        }
        strip_inline_comment(line.as_str())
    }

    /// The value after the quoted-with-equals rule: when the flag is set
    /// and the value contains `=`, unquoted comments are stripped and one
    /// outer pair of double quotes is removed.
    pub open spec fn clean_quoted_value_spec(self, s: Seq<char>) -> Seq<char> {
        if self.allow_quoted_with_equals && contains_char_spec(s, '=') {
            strip_outer_quotes_spec(strip_comment_outside_quotes_spec(s))
        } else {
            s
        }
    }

    /// Applies the quoted-with-equals rule to a value.
    pub fn clean_quoted_value(&self, line: String) -> (r: String)
        ensures
            r@ == self.clean_quoted_value_spec(line@),
    {
        if self.allow_quoted_with_equals && contains_char(line.as_str(), '=') {
            let stripped = strip_comment_outside_quotes(line.as_str());
            strip_outer_quotes(stripped.as_str())
        } else {
            line
        }
    }

    /// A continuation line as it is appended to the accumulated value: its
    /// inline comment is stripped quote-unawares, then it is trimmed at
    /// both ends when `strip_multiline_leading_ws` is set and only at the
    /// end otherwise.
    pub open spec fn continuation_spec(self, line: Seq<char>) -> Seq<char> {
        if self.strip_multiline_leading_ws {
            trim_spec(strip_inline_comment_spec(line))
        } else {
            trim_end_spec(strip_inline_comment_spec(line))
        }
    }

    /// The multiline-continuation rule. While the accumulated value ends
    /// with a backslash, that backslash is removed and the next line (if
    /// any is left) is consumed and appended as [`Self::continuation_spec`]
    /// describes. The result pairs the final value with the index of the
    /// first unconsumed line. A dangling backslash at end of input is
    /// dropped.
    pub open spec fn multi_line_spec(self, lines: Seq<Seq<char>>, j: int, value: Seq<char>) -> (
        Seq<char>,
        int,
    )
        decreases lines.len() - j,
    {
        if !self.allow_multiline || !ends_with_backslash(value) {
            (value, j)
        } else {
            let popped = value.drop_last();
            if j < 0 || j >= lines.len() {
                (popped, j)
            } else {
                self.multi_line_spec(lines, j + 1, popped + self.continuation_spec(lines[j]))
            }
        }
    }

    /// [`Self::multi_line_spec`] never moves the line index backwards nor
    /// past the end of the input.
    pub proof fn lemma_multi_line_spec_bounds(
        self,
        lines: Seq<Seq<char>>,
        j: int,
        value: Seq<char>,
    )
        requires
            0 <= j <= lines.len(),
        ensures
            j <= self.multi_line_spec(lines, j, value).1 <= lines.len(),
        decreases lines.len() - j,
    {
        if self.allow_multiline && ends_with_backslash(value) && j < lines.len() {
            self.lemma_multi_line_spec_bounds(
                lines,
                j + 1,
                value.drop_last() + self.continuation_spec(lines[j]),
            );
        }
    }

    /// Joins continuation lines onto `value` starting at line `pos`,
    /// returning the joined value and the index of the first line not
    /// consumed.
    pub fn multi_line(&self, lines: &Vec<String>, pos: usize, value: String) -> (r: (String, usize))
        requires
            pos <= lines@.len(),
        ensures
            (r.0@, r.1 as int) == self.multi_line_spec(line_views(lines@), pos as int, value@),
        decreases lines@.len() - pos,
    {
        if !self.allow_multiline || !ends_with_backslash_char(value.as_str()) {
            return (value, pos);
        }
        let n = value.as_str().unicode_len();
        let popped = value.as_str().substring_char(0, n - 1).to_owned();
        proof {
            assert(popped@ =~= value@.drop_last());
        }
        if pos >= lines.len() {
            (popped, pos)
        } else {
            let segment = strip_inline_comment(lines[pos].as_str());
            let appended = if self.strip_multiline_leading_ws {
                trim(segment.as_str())
            } else {
                trim_end(segment.as_str())
            };
            proof {
                assert(line_views(lines@)[pos as int] == lines@[pos as int]@);
                assert(strip_inline_comment_spec(lines@[pos as int]@) == segment@);
            }
            let joined = popped.concat(appended.as_str());
            self.multi_line(lines, pos + 1, joined)
        }
    }
}

} // verus!
