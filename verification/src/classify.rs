//! The line classifier: one physical line is a comment, a section header,
//! or a key/value pair.

use vstd::prelude::*;
use vstd::string::StrSliceExecFns;

use crate::text::find_first_of;
use crate::text::find_first_of_spec;
use crate::text::trim;
use crate::text::trim_spec;
use crate::text::trim_start;
use crate::text::trim_start_spec;

verus! {

/// The classification of one line, at the specification level.
pub enum LineClass {
    /// An empty line, a comment line, or a line with no `=`.
    Comment,
    /// A section header `[name]`; the payload is everything strictly
    /// between the brackets.
    Section(Seq<char>),
    /// A `key = value` line; key and raw value are trimmed of surrounding
    /// whitespace.
    KeyValue(Seq<char>, Seq<char>),
}

/// Whether `s` is empty or its first non-whitespace character is `;` or
/// `#`.
pub open spec fn is_comment_line(s: Seq<char>) -> bool {
    ||| s.len() == 0
    ||| (trim_start_spec(s).len() > 0 && (trim_start_spec(s)[0] == ';' || trim_start_spec(s)[0]
        == '#'))
}

/// How a line is classified. Empty lines and lines whose first
/// non-whitespace character is `;` or `#` are comments; a line that
/// starts with `[` and ends with `]` is a section header, even when it
/// also contains `=`; a remaining line with an `=` is a key/value pair,
/// split at the first `=` with both parts trimmed; anything else is
/// treated as a comment.
pub open spec fn classify_spec(s: Seq<char>) -> LineClass {
    if is_comment_line(s) {
        LineClass::Comment
    } else if s[0] == '[' && s[s.len() - 1] == ']' {
        LineClass::Section(s.subrange(1, s.len() - 1))
    } else if find_first_of_spec(s, 0, '=', '=') < s.len() {
        let p = find_first_of_spec(s, 0, '=', '=');
        LineClass::KeyValue(
            trim_spec(s.subrange(0, p)),
            trim_spec(s.subrange(p + 1, s.len() as int)),
        )
    } else {
        LineClass::Comment
    }
}

/// The classification of one line, with its owned payloads.
pub enum LineType {
    /// Comment line, empty line, or line with no `=`.
    Comment,
    /// Section header like `[section]`.
    Section(String),
    /// Key-value pair like `key = value`.
    KeyValue(String, String),
}

impl View for LineType {
    type V = LineClass;

    open spec fn view(&self) -> LineClass {
        match self {
            LineType::Comment => LineClass::Comment,
            LineType::Section(name) => LineClass::Section(name@),
            LineType::KeyValue(key, value) => LineClass::KeyValue(key@, value@),
        }
    }
}

/// Classifies a line as [`classify_spec`] describes.
pub fn classify_line(line: &str) -> (r: LineType)
    ensures
        r@ == classify_spec(line@),
{
    let n = line.unicode_len();
    if n == 0 {
        return LineType::Comment;
    }
    let led = trim_start(line);
    if led.as_str().unicode_len() > 0 {
        let first = led.as_str().get_char(0);
        if first == ';' || first == '#' {
            return LineType::Comment;
        }
    }
    let c0 = line.get_char(0);
    if c0 == '[' && line.get_char(n - 1) == ']' {
        return LineType::Section(line.substring_char(1, n - 1).to_owned());
    }
    let p = find_first_of(line, 0, '=', '=');
    if p < n {
        let key = trim(line.substring_char(0, p));
        let value = trim(line.substring_char(p + 1, n));
        LineType::KeyValue(key, value)
    } else {
        LineType::Comment
    }
}

} // verus!
