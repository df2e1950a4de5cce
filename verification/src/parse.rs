//! The parsing engine: splits input text into physical lines, classifies
//! each line, runs values through the transform pipeline, and folds the
//! results into a [`Document`].

use vstd::prelude::*;
use vstd::string::StrSliceExecFns;

use crate::classify::classify_line;
use crate::classify::classify_spec;
use crate::classify::LineClass;
use crate::classify::LineType;
use crate::config::default_config;
use crate::config::IniParserConfig;
use crate::document::doc_map_insert;
use crate::document::Document;
use crate::text::find_first_of;
use crate::text::find_first_of_spec;
use crate::text::lemma_find_first_of_spec;
use crate::text::trim;
use crate::text::trim_spec;
use crate::transform::line_views;

verus! {

/// `s` without one trailing carriage return, if it has one.
pub open spec fn strip_trailing_cr(s: Seq<char>) -> Seq<char> {
    if s.len() > 0 && s[s.len() - 1] == '\r' {
        s.drop_last()
    } else {
        s
    }
}

/// The physical lines of `text`: split at each line feed, with a carriage
/// return dropped from the end of every line-feed-terminated segment. Text
/// after the last line feed forms a final line when nonempty.
pub open spec fn lines_spec(s: Seq<char>) -> Seq<Seq<char>>
    decreases s.len(),
{
    if s.len() == 0 {
        Seq::empty()
    } else {
        let p = find_first_of_spec(s, 0, '\n', '\n');
        if 0 <= p < s.len() {
            proof {
                lemma_find_first_of_spec(s, 0, '\n', '\n');
            }
            seq![strip_trailing_cr(s.subrange(0, p))] + lines_spec(
                s.subrange(p + 1, s.len() as int),
            )
        } else {
            seq![s]
        }
    }
}

/// Splits `input` into physical lines as [`lines_spec`] describes.
pub fn split_lines(input: &str) -> (r: Vec<String>)
    ensures
        line_views(r@) == lines_spec(input@),
    decreases input@.len(),
{
    let n = input.unicode_len();
    if n == 0 {
        let r: Vec<String> = Vec::new();
        proof {
            assert(line_views(r@) =~= lines_spec(input@));
        }
        r
    } else {
        let p = find_first_of(input, 0, '\n', '\n');
        if p < n {
            let head = input.substring_char(0, p);
            let hl = head.unicode_len();
            let first: String = if hl > 0 && head.get_char(hl - 1) == '\r' {
                head.substring_char(0, hl - 1).to_owned()
            } else {
                head.to_owned()
            };
            proof {
                assert(head@.subrange(0, head@.len() - 1) =~= head@.drop_last());
                assert(first@ == strip_trailing_cr(input@.subrange(0, p as int)));
            }
            let mut rest = split_lines(input.substring_char(p + 1, n));
            let ghost rest0 = rest@;
            rest.insert(0, first);
            proof {
                assert(line_views(rest@) =~= seq![first@] + line_views(rest0));
            }
            rest
        } else {
            let mut r: Vec<String> = Vec::new();
            r.push(input.to_owned());
            proof {
                assert(line_views(r@) =~= lines_spec(input@));
            }
            r
        }
    }
}

/// One line as it stands when it reaches the classifier: trimmed of
/// whitespace when `ignore_whitespace` is set, then stripped of one
/// leading byte-order mark when `allow_bom` is set.
pub open spec fn transformed_line(c: IniParserConfig, line: Seq<char>) -> Seq<char> {
    c.skip_bom_spec(
        if c.ignore_whitespace {
            trim_spec(line)
        } else {
            line
        },
    )
}

/// The document that parsing produces, defined line by line from position
/// `i` with current section `cur` and accumulated result `acc`. Comment
/// lines are skipped; a section header switches the current section
/// without creating it; a key/value line consumes its continuation lines,
/// runs the value through the quoted-equals and inline-comment rules, and
/// inserts the pair into the current section.
pub open spec fn parse_from(
    c: IniParserConfig,
    lines: Seq<Seq<char>>,
    i: int,
    cur: Seq<char>,
    acc: Map<Seq<char>, Map<Seq<char>, Seq<char>>>,
) -> Map<Seq<char>, Map<Seq<char>, Seq<char>>>
    decreases lines.len() - i,
{
    if i < 0 || i >= lines.len() {
        acc
    } else {
        let line = transformed_line(c, lines[i]);
        match classify_spec(line) {
            LineClass::Comment => parse_from(c, lines, i + 1, cur, acc),
            LineClass::Section(name) => parse_from(c, lines, i + 1, name, acc),
            LineClass::KeyValue(key, value0) => {
                let joined = c.multi_line_spec(lines, i + 1, value0);
                let value1 = c.clean_quoted_value_spec(joined.0);
                let value2 = c.remove_inline_comments_spec(value1);
                proof {
                    c.lemma_multi_line_spec_bounds(lines, i + 1, value0);
                }
                parse_from(c, lines, joined.1, cur, doc_map_insert(acc, cur, key, value2))
            },
        }
    }
}

/// The document parsed from `text` under configuration `c`: the fold of
/// [`parse_from`] over the physical lines, starting before the first line
/// in the implicit section `default` with an empty result.
pub open spec fn parse_spec(c: IniParserConfig, text: Seq<char>) -> Map<
    Seq<char>,
    Map<Seq<char>, Seq<char>>,
> {
    parse_from(c, lines_spec(text), 0, "default"@, Map::empty())
}

/// Parses INI text under the given configuration.
pub fn parse_ini_with_config(input: &str, config: &IniParserConfig) -> (doc: Document)
    ensures
        doc@ == parse_spec(*config, input@),
        doc.well_formed(),
{
    let lines = split_lines(input);
    let ghost lv = line_views(lines@);
    let mut doc = Document::new();
    let mut current: String = "default".to_owned();
    let mut i: usize = 0;
    while i < lines.len()
        invariant
            lv == line_views(lines@),
            lv == lines_spec(input@),
            i <= lines@.len(),
            doc.well_formed(),
            parse_spec(*config, input@) == parse_from(*config, lv, i as int, current@, doc@),
        decreases lines@.len() - i,
    {
        let raw: String = lines[i].clone();
        let trimmed: String = if config.ignore_whitespace {
            trim(raw.as_str())
        } else {
            raw
        };
        let line = config.skip_bom(trimmed);
        proof {
            assert(lv[i as int] == lines@[i as int]@);
            assert(line@ == transformed_line(*config, lv[i as int]));
        }
        match classify_line(line.as_str()) {
            LineType::Comment => {
                i += 1;
            },
            LineType::Section(name) => {
                current = name;
                i += 1;
            },
            LineType::KeyValue(key, value) => {
                proof {
                    config.lemma_multi_line_spec_bounds(lv, i + 1 as int, value@);
                }
                let joined = config.multi_line(&lines, i + 1, value);
                let cleaned = config.clean_quoted_value(joined.0);
                let stripped = config.remove_inline_comments(cleaned);
                doc.insert(current.as_str(), key, stripped);
                i = joined.1;
            },
        }
    }
    doc
}

/// Parses INI text with the default configuration.
pub fn parse_ini(input: &str) -> (doc: Document)
    ensures
        doc@ == parse_spec(default_config(), input@),
        doc.well_formed(),
{
    let config = IniParserConfig::default();
    parse_ini_with_config(input, &config)
}

/// Some line of `lines` at or after position `i` classifies, after the
/// per-line transforms, as the header of the section named `k`.
pub open spec fn header_declares(
    c: IniParserConfig,
    lines: Seq<Seq<char>>,
    i: int,
    k: Seq<char>,
) -> bool {
    exists|j: int|
        i <= j < lines.len() && classify_spec(transformed_line(c, #[trigger] lines[j]))
            == LineClass::Section(k)
}

/// Every section of the parsed result was already in `acc`, is the
/// current section, or is declared by the header into which some
/// remaining line classifies.
pub proof fn lemma_sections_come_from_headers(
    c: IniParserConfig,
    lines: Seq<Seq<char>>,
    i: int,
    cur: Seq<char>,
    acc: Map<Seq<char>, Map<Seq<char>, Seq<char>>>,
)
    requires
        0 <= i <= lines.len(),
    ensures
        forall|k: Seq<char>|
            parse_from(c, lines, i, cur, acc).contains_key(k) ==> acc.contains_key(k) || k == cur
                || header_declares(c, lines, i, k),
    decreases lines.len() - i,
{
    if 0 <= i < lines.len() {
        let line = transformed_line(c, lines[i]);
        match classify_spec(line) {
            LineClass::Comment => {
                lemma_sections_come_from_headers(c, lines, i + 1, cur, acc);
                assert forall|k: Seq<char>|
                    parse_from(c, lines, i, cur, acc).contains_key(k) implies acc.contains_key(k)
                    || k == cur || header_declares(c, lines, i, k) by {
                    if !acc.contains_key(k) && k != cur {
                        let j = choose|j: int|
                            i + 1 <= j < lines.len() && classify_spec(
                                transformed_line(c, #[trigger] lines[j]),
                            ) == LineClass::Section(k);
                        assert(classify_spec(transformed_line(c, lines[j])) == LineClass::Section(
                            k,
                        ));
                    }
                }
            },
            LineClass::Section(name) => {
                lemma_sections_come_from_headers(c, lines, i + 1, name, acc);
                assert forall|k: Seq<char>|
                    parse_from(c, lines, i, cur, acc).contains_key(k) implies acc.contains_key(k)
                    || k == cur || header_declares(c, lines, i, k) by {
                    if !acc.contains_key(k) && k != cur {
                        if k == name {
                            assert(classify_spec(transformed_line(c, lines[i]))
                                == LineClass::Section(k));
                        } else {
                            let j = choose|j: int|
                                i + 1 <= j < lines.len() && classify_spec(
                                    transformed_line(c, #[trigger] lines[j]),
                                ) == LineClass::Section(k);
                            assert(classify_spec(transformed_line(c, lines[j]))
                                == LineClass::Section(k));
                        }
                    }
                }
            },
            LineClass::KeyValue(key, value0) => {
                let joined = c.multi_line_spec(lines, i + 1, value0);
                let value1 = c.clean_quoted_value_spec(joined.0);
                let value2 = c.remove_inline_comments_spec(value1);
                let acc2 = doc_map_insert(acc, cur, key, value2);
                c.lemma_multi_line_spec_bounds(lines, i + 1, value0);
                lemma_sections_come_from_headers(c, lines, joined.1, cur, acc2);
                assert(parse_from(c, lines, i, cur, acc) == parse_from(
                    c,
                    lines,
                    joined.1,
                    cur,
                    acc2,
                ));
                assert forall|k: Seq<char>|
                    parse_from(c, lines, i, cur, acc).contains_key(k) implies acc.contains_key(k)
                    || k == cur || header_declares(c, lines, i, k) by {
                    if !acc.contains_key(k) && k != cur {
                        assert(acc2.contains_key(k) || k == cur || header_declares(
                            c,
                            lines,
                            joined.1,
                            k,
                        ));
                        let j = choose|j: int|
                            joined.1 <= j < lines.len() && classify_spec(
                                transformed_line(c, #[trigger] lines[j]),
                            ) == LineClass::Section(k);
                        assert(classify_spec(transformed_line(c, lines[j])) == LineClass::Section(
                            k,
                        ));
                    }
                }
            },
        }
    }
}

/// A key/value line with no preceding section header lands in the section
/// named `default`: when no line of the input classifies as a section
/// header, every section of the parsed document is named `default`.
pub proof fn lemma_headerless_input_uses_default(c: IniParserConfig, text: Seq<char>)
    requires
        forall|j: int|
            0 <= j < lines_spec(text).len() ==> !(classify_spec(
                transformed_line(c, #[trigger] lines_spec(text)[j]),
            ) is Section),
    ensures
        forall|k: Seq<char>| parse_spec(c, text).contains_key(k) ==> k == "default"@,
{
    let empty = Map::<Seq<char>, Map<Seq<char>, Seq<char>>>::empty();
    lemma_sections_come_from_headers(c, lines_spec(text), 0, "default"@, empty);
    assert forall|k: Seq<char>| parse_spec(c, text).contains_key(k) implies k == "default"@ by {
        assert(parse_from(c, lines_spec(text), 0, "default"@, empty).contains_key(k));
        assert(!empty.contains_key(k));
        if k != "default"@ {
            assert(header_declares(c, lines_spec(text), 0, k));
            let j = choose|j: int|
                0 <= j < lines_spec(text).len() && classify_spec(
                    transformed_line(c, #[trigger] lines_spec(text)[j]),
                ) == LineClass::Section(k);
            assert(!(classify_spec(transformed_line(c, lines_spec(text)[j])) is Section));
            assert(false);
        }
    }
}

} // verus!
