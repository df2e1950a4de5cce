//! Scalar conversion for the type-mapping bridge that turns a parsed
//! document into typed values. The boolean reading lives here, verified;
//! numeric readings are plain textual parses done by the bridge itself.

use vstd::prelude::*;
use vstd::string::StrSliceExecFns;

verus! {

/// Whether `c` is `lower` or its ASCII upper-case form `upper`.
pub open spec fn char_eq_ci(c: char, lower: char, upper: char) -> bool {
    c == lower || c == upper
}

/// Whether `s` spells `true`, `yes` or `1`, ASCII case-insensitively.
pub open spec fn is_true_text(s: Seq<char>) -> bool {
    ||| (s.len() == 4 && char_eq_ci(s[0], 't', 'T') && char_eq_ci(s[1], 'r', 'R') && char_eq_ci(
        s[2],
        'u',
        'U',
    ) && char_eq_ci(s[3], 'e', 'E'))
    ||| (s.len() == 3 && char_eq_ci(s[0], 'y', 'Y') && char_eq_ci(s[1], 'e', 'E') && char_eq_ci(
        s[2],
        's',
        'S',
    ))
    ||| (s.len() == 1 && s[0] == '1')
}

/// Whether `s` spells `false`, `no` or `0`, ASCII case-insensitively.
pub open spec fn is_false_text(s: Seq<char>) -> bool {
    ||| (s.len() == 5 && char_eq_ci(s[0], 'f', 'F') && char_eq_ci(s[1], 'a', 'A') && char_eq_ci(
        s[2],
        'l',
        'L',
    ) && char_eq_ci(s[3], 's', 'S') && char_eq_ci(s[4], 'e', 'E'))
    ||| (s.len() == 2 && char_eq_ci(s[0], 'n', 'N') && char_eq_ci(s[1], 'o', 'O'))
    ||| (s.len() == 1 && s[0] == '0')
}

/// The boolean that `s` stands for, if any.
pub open spec fn bool_of_text(s: Seq<char>) -> Option<bool> {
    if is_true_text(s) {
        Some(true)
    } else if is_false_text(s) {
        Some(false)
    } else {
        None
    }
}

/// Executable test for [`char_eq_ci`].
fn char_ci(c: char, lower: char, upper: char) -> (r: bool)
    ensures
        r == char_eq_ci(c, lower, upper),
{
    c == lower || c == upper
}

/// Holds one value text of a parsed document while the bridge reads it as
/// a typed scalar.
pub struct IniValueDeserializer {
    pub value: String,
}

impl IniValueDeserializer {
    /// Wraps one value text.
    pub fn new(value: String) -> (d: Self)
        ensures
            d.value == value,
    {
        IniValueDeserializer { value }
    }

    /// Reads the held text as a boolean: `true`, `yes` and `1` are true,
    /// `false`, `no` and `0` are false, each ASCII case-insensitively;
    /// anything else is no boolean.
    pub fn bool_value(&self) -> (r: Option<bool>)
        ensures
            r == bool_of_text(self.value@),
    {
        let s = self.value.as_str();
        let n = s.unicode_len();
        if n == 1 {
            let c = s.get_char(0);
            if c == '1' {
                Some(true)
            } else if c == '0' {
                Some(false)
            } else {
                None
            }
        } else if n == 2 {
            if char_ci(s.get_char(0), 'n', 'N') && char_ci(s.get_char(1), 'o', 'O') {
                Some(false)
            } else {
                None
            }
        } else if n == 3 {
            if char_ci(s.get_char(0), 'y', 'Y') && char_ci(s.get_char(1), 'e', 'E') && char_ci(
                s.get_char(2),
                's',
                'S',
            ) {
                Some(true)
            } else {
                None
            }
        } else if n == 4 {
            if char_ci(s.get_char(0), 't', 'T') && char_ci(s.get_char(1), 'r', 'R') && char_ci(
                s.get_char(2),
                'u',
                'U',
            ) && char_ci(s.get_char(3), 'e', 'E') {
                Some(true)
            } else {
                None
            }
        } else if n == 5 {
            if char_ci(s.get_char(0), 'f', 'F') && char_ci(s.get_char(1), 'a', 'A') && char_ci(
                s.get_char(2),
                'l',
                'L',
            ) && char_ci(s.get_char(3), 's', 'S') && char_ci(s.get_char(4), 'e', 'E') {
                Some(false)
            } else {
                None
            }
        } else {
            None
        }
    }
}

} // verus!
