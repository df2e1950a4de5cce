//! Configuration toggles for the INI parser.

use vstd::prelude::*;

verus! {

/// Configuration options for the INI parser.
///
/// Each flag independently enables one transformation rule of the line
/// pipeline. `strip_multiline_leading_ws` is only meaningful together with
/// `allow_multiline`; the parser does not validate the combination.
#[derive(Debug, Clone, Copy, PartialEq, Eq, Structural)]
pub struct IniParserConfig {
    pub allow_inline_comments: bool,
    pub allow_bom: bool,
    pub ignore_whitespace: bool,
    pub allow_quoted_with_equals: bool,
    pub allow_multiline: bool,
    pub strip_multiline_leading_ws: bool,
}

/// The default configuration: multiline continuation, inline comment
/// stripping and whole-line whitespace trimming on; BOM stripping,
/// quoted-with-equals handling and continuation-leading-whitespace
/// stripping off.
pub open spec fn default_config() -> IniParserConfig {
    IniParserConfig {
        allow_bom: false,
        allow_multiline: true,
        allow_inline_comments: true,
        allow_quoted_with_equals: false,
        ignore_whitespace: true,
        strip_multiline_leading_ws: false,
    }
}

impl Default for IniParserConfig {
    fn default() -> (c: Self)
        ensures
            c == default_config(),
    {
        IniParserConfig {
            allow_bom: false,
            allow_multiline: true,
            allow_inline_comments: true,
            allow_quoted_with_equals: false,
            ignore_whitespace: true,
            strip_multiline_leading_ws: false,
        }
    }
}

} // verus!
