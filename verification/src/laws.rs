//! The round-trip law: parsing the text that the serializer produces
//! reproduces the document, for documents whose names, keys and values are
//! plain single-line texts.

use vstd::prelude::*;

use crate::classify::classify_spec;
use crate::classify::LineClass;
use crate::config::default_config;
use crate::config::IniParserConfig;
use crate::document::doc_map_insert;
use crate::document::entries_map;
use crate::document::section_names_unique;
use crate::document::sections_map;
use crate::document::Document;
use crate::document::Entry;
use crate::document::Section;
use crate::parse::lines_spec;
use crate::parse::parse_from;
use crate::parse::parse_spec;
use crate::parse::strip_trailing_cr;
use crate::parse::transformed_line;
use crate::ser::entry_line;
use crate::ser::header_line;
use crate::ser::render_doc;
use crate::ser::render_entries;
use crate::ser::render_section;
use crate::ser::render_sections;
use crate::text::find_first_of_spec;
use crate::text::is_ini_whitespace;
use crate::text::lemma_find_first_of_spec;
use crate::text::trim_end_spec;
use crate::text::trim_spec;
use crate::text::trim_start_spec;
use crate::transform::ends_with_backslash;

verus! {

/// Text with no line feed and no comment marker.
pub open spec fn plain_text(s: Seq<char>) -> bool {
    forall|i: int| 0 <= i < s.len() ==> (#[trigger] s[i]) != '\n' && s[i] != ';' && s[i] != '#'
}

/// A key that survives a round trip unchanged: plain, already trimmed,
/// with no `=`, and not opening a bracket pair.
pub open spec fn plain_key(k: Seq<char>) -> bool {
    &&& plain_text(k)
    &&& trim_spec(k) == k
    &&& forall|i: int| 0 <= i < k.len() ==> (#[trigger] k[i]) != '='
    &&& (k.len() > 0 ==> k[0] != '[')
}

/// A value that survives a round trip unchanged: plain, already trimmed,
/// and without a trailing backslash.
pub open spec fn plain_value(v: Seq<char>) -> bool {
    &&& plain_text(v)
    &&& trim_spec(v) == v
    &&& !ends_with_backslash(v)
}

/// Every entry has a plain key and a plain value.
pub open spec fn plain_entries(es: Seq<Entry>) -> bool {
    forall|i: int|
        0 <= i < es.len() ==> plain_key((#[trigger] es[i]).key@) && plain_value(es[i].value@)
}

/// A section whose name has no line feed and whose entries are plain.
pub open spec fn plain_section(s: Section) -> bool {
    &&& forall|t: int| 0 <= t < s.name@.len() ==> (#[trigger] s.name@[t]) != '\n'
    &&& plain_entries(s.entries@)
}

/// A document the serializer can render so that parsing it back under the
/// default configuration reproduces it: well-formed, with plain names,
/// keys and values.
pub open spec fn serializable(d: Document) -> bool {
    &&& d.well_formed()
    &&& forall|i: int| 0 <= i < d.sections@.len() ==> plain_section(#[trigger] d.sections@[i])
}

proof fn lemma_trim_start_len(s: Seq<char>)
    ensures
        trim_start_spec(s).len() <= s.len(),
    decreases s.len(),
{
    if s.len() > 0 && is_ini_whitespace(s[0]) {
        lemma_trim_start_len(s.subrange(1, s.len() as int));
    }
}

proof fn lemma_trim_end_len(s: Seq<char>)
    ensures
        trim_end_spec(s).len() <= s.len(),
    decreases s.len(),
{
    if s.len() > 0 && is_ini_whitespace(s[s.len() - 1]) {
        lemma_trim_end_len(s.drop_last());
    }
}

/// An already-trimmed nonempty text has non-whitespace characters at both
/// ends, and each one-sided trim leaves it unchanged.
proof fn lemma_trimmed_ends(s: Seq<char>)
    requires
        trim_spec(s) == s,
        s.len() > 0,
    ensures
        !is_ini_whitespace(s[0]),
        !is_ini_whitespace(s[s.len() - 1]),
        trim_start_spec(s) == s,
        trim_end_spec(s) == s,
{
    if is_ini_whitespace(s[0]) {
        lemma_trim_start_len(s.subrange(1, s.len() as int));
        lemma_trim_end_len(trim_start_spec(s));
        assert(false);
    }
    assert(trim_start_spec(s) == s);
    if is_ini_whitespace(s[s.len() - 1]) {
        lemma_trim_end_len(s.drop_last());
        assert(false);
    }
}

/// When position `p` holds the first occurrence of `a` or `b`, the search
/// finds exactly `p`.
proof fn lemma_find_first_of_at(s: Seq<char>, a: char, b: char, p: int)
    requires
        0 <= p < s.len(),
        s[p] == a || s[p] == b,
        forall|j: int| 0 <= j < p ==> s[j] != a && s[j] != b,
    ensures
        find_first_of_spec(s, 0, a, b) == p,
{
    lemma_find_first_of_spec(s, 0, a, b);
}

/// When `a` and `b` occur nowhere in `s`, the search returns `s.len()`.
proof fn lemma_find_first_of_absent(s: Seq<char>, a: char, b: char)
    requires
        forall|j: int| 0 <= j < s.len() ==> s[j] != a && s[j] != b,
    ensures
        find_first_of_spec(s, 0, a, b) == s.len(),
{
    lemma_find_first_of_spec(s, 0, a, b);
}

/// A line-feed-free text followed by one line feed splits into that one
/// line.
proof fn lemma_lines_single(s: Seq<char>)
    requires
        forall|i: int| 0 <= i < s.len() ==> (#[trigger] s[i]) != '\n',
    ensures
        lines_spec(s + "\n"@) == seq![strip_trailing_cr(s)],
{
    reveal_strlit("\n");
    let t = s + "\n"@;
    assert(t.len() == s.len() + 1);
    assert(t[s.len() as int] == '\n');
    assert(forall|j: int| 0 <= j < s.len() ==> t[j] == s[j]);
    lemma_find_first_of_at(t, '\n', '\n', s.len() as int);
    assert(t.subrange(0, s.len() as int) =~= s);
    assert(t.subrange(s.len() as int + 1, t.len() as int) =~= Seq::<char>::empty());
    assert(lines_spec(Seq::<char>::empty()) == Seq::<Seq<char>>::empty());
    assert(lines_spec(t) == seq![strip_trailing_cr(t.subrange(0, s.len() as int))] + lines_spec(
        t.subrange(s.len() as int + 1, t.len() as int),
    ));
    assert(lines_spec(t) =~= seq![strip_trailing_cr(s)]);
}

/// Splitting distributes over concatenation when the first part is empty
/// or ends with a line feed.
proof fn lemma_lines_concat(a: Seq<char>, b: Seq<char>)
    requires
        a.len() == 0 || a[a.len() - 1] == '\n',
    ensures
        lines_spec(a + b) == lines_spec(a) + lines_spec(b),
    decreases a.len(),
{
    if a.len() == 0 {
        assert(a + b =~= b);
        assert(lines_spec(a) + lines_spec(b) =~= lines_spec(b));
    } else {
        let t = a + b;
        let p = find_first_of_spec(a, 0, '\n', '\n');
        lemma_find_first_of_spec(a, 0, '\n', '\n');
        assert(p < a.len()) by {
            if p == a.len() {
                assert(a[a.len() - 1] != '\n');
            }
        }
        assert(forall|j: int| 0 <= j < p ==> t[j] == a[j]);
        lemma_find_first_of_at(t, '\n', '\n', p);
        assert(t.subrange(0, p) =~= a.subrange(0, p));
        let a2 = a.subrange(p + 1, a.len() as int);
        assert(t.subrange(p + 1, t.len() as int) =~= a2 + b);
        assert(a2.len() == 0 || a2[a2.len() - 1] == '\n');
        lemma_lines_concat(a2, b);
        assert(lines_spec(t) =~= lines_spec(a) + lines_spec(b));
    }
}

/// Joining continuation lines is insensitive to the lines that precede
/// the join position: prepending `a` shifts the resulting index by
/// `a.len()` and leaves the value unchanged.
proof fn lemma_multi_line_shift(
    c: IniParserConfig,
    a: Seq<Seq<char>>,
    b: Seq<Seq<char>>,
    j: int,
    v: Seq<char>,
)
    requires
        0 <= j <= b.len(),
    ensures
        c.multi_line_spec(a + b, a.len() + j, v) == (
            c.multi_line_spec(b, j, v).0,
            a.len() + c.multi_line_spec(b, j, v).1,
        ),
    decreases b.len() - j,
{
    if c.allow_multiline && ends_with_backslash(v) && j < b.len() {
        assert((a + b)[a.len() + j] == b[j]);
        lemma_multi_line_shift(c, a, b, j + 1, v.drop_last() + c.continuation_spec(b[j]));
    }
}

/// Parsing is insensitive to the lines before the current position:
/// prepending `a` and shifting the position by `a.len()` gives the same
/// result.
proof fn lemma_parse_from_shift(
    c: IniParserConfig,
    a: Seq<Seq<char>>,
    b: Seq<Seq<char>>,
    i: int,
    cur: Seq<char>,
    acc: Map<Seq<char>, Map<Seq<char>, Seq<char>>>,
)
    requires
        0 <= i <= b.len(),
    ensures
        parse_from(c, a + b, a.len() + i, cur, acc) == parse_from(c, b, i, cur, acc),
    decreases b.len() - i,
{
    if i < b.len() {
        assert((a + b)[a.len() + i] == b[i]);
        let line = transformed_line(c, b[i]);
        match classify_spec(line) {
            LineClass::Comment => {
                lemma_parse_from_shift(c, a, b, i + 1, cur, acc);
            },
            LineClass::Section(name) => {
                lemma_parse_from_shift(c, a, b, i + 1, name, acc);
            },
            LineClass::KeyValue(key, value0) => {
                c.lemma_multi_line_spec_bounds(b, i + 1, value0);
                lemma_multi_line_shift(c, a, b, i + 1, value0);
                let joined = c.multi_line_spec(b, i + 1, value0);
                let value1 = c.clean_quoted_value_spec(joined.0);
                let value2 = c.remove_inline_comments_spec(value1);
                lemma_parse_from_shift(
                    c,
                    a,
                    b,
                    joined.1,
                    cur,
                    doc_map_insert(acc, cur, key, value2),
                );
            },
        }
    }
}

/// A rendered section header is already trimmed and classifies as a
/// section with exactly the rendered name.
proof fn lemma_header_line_classifies(name: Seq<char>)
    ensures
        trim_spec(header_line(name)) == header_line(name),
        classify_spec(header_line(name)) == LineClass::Section(name),
{
    reveal_strlit("[");
    reveal_strlit("]");
    let h = header_line(name);
    assert(h.len() == name.len() + 2);
    assert(h[0] == '[');
    assert(h[h.len() - 1] == ']');
    assert(trim_start_spec(h) == h);
    assert(trim_end_spec(h) == h);
    assert(h.subrange(1, h.len() - 1) =~= name);
}

/// A rendered entry line, once trimmed, classifies as a key/value pair
/// with exactly the rendered key and value.
proof fn lemma_entry_line_parses(key: Seq<char>, value: Seq<char>)
    requires
        plain_key(key),
        plain_value(value),
    ensures
        classify_spec(trim_spec(entry_line(key, value))) == LineClass::KeyValue(key, value),
{
    reveal_strlit(" = ");
    let sep = " = "@;
    assert(sep.len() == 3 && sep[0] == ' ' && sep[1] == '=' && sep[2] == ' ');
    let l = entry_line(key, value);
    let kn = key.len() as int;
    assert(l.len() == key.len() + 3 + value.len());
    assert(forall|i: int| 0 <= i < key.len() ==> l[i] == key[i]);
    assert(l[kn] == ' ');
    assert(l[kn + 1] == '=');
    assert(l[kn + 2] == ' ');
    assert(forall|i: int| 0 <= i < value.len() ==> l[kn + 3 + i] == value[i]);
    if key.len() > 0 {
        lemma_trimmed_ends(key);
    }
    if value.len() > 0 {
        lemma_trimmed_ends(value);
    }
    // Leading trim: a no-op when the key is nonempty, else it eats the
    // single space before the `=`.
    let a = if key.len() > 0 {
        l
    } else {
        l.subrange(1, l.len() as int)
    };
    assert(trim_start_spec(l) == a) by {
        if key.len() > 0 {
            assert(!is_ini_whitespace(l[0]));
        } else {
            assert(is_ini_whitespace(l[0]));
            assert(trim_start_spec(l) == trim_start_spec(l.subrange(1, l.len() as int)));
            assert(a[0] == '=');
            assert(!is_ini_whitespace(a[0]));
        }
    }
    // Trailing trim: a no-op when the value is nonempty, else it eats the
    // single space after the `=`.
    let t = if value.len() > 0 {
        a
    } else {
        a.drop_last()
    };
    assert(trim_end_spec(a) == t) by {
        if value.len() > 0 {
            assert(a[a.len() - 1] == value[value.len() - 1]);
            assert(!is_ini_whitespace(a[a.len() - 1]));
        } else {
            assert(a[a.len() - 1] == ' ');
            assert(trim_end_spec(a) == trim_end_spec(a.drop_last()));
            assert(t[t.len() - 1] == '=');
            assert(!is_ini_whitespace(t[t.len() - 1]));
        }
    }
    assert(trim_spec(l) == t);
    // The first `=` of the trimmed line is the separator.
    let p: int = if key.len() > 0 {
        kn + 1
    } else {
        0
    };
    assert(t[p] == '=');
    assert(forall|j: int| 0 <= j < p ==> t[j] != '=') by {
        assert(forall|j: int| 0 <= j < key.len() ==> t[j] == key[j]);
        if key.len() > 0 {
            assert(t[kn] == ' ');
        }
    }
    lemma_find_first_of_at(t, '=', '=', p);
    // The trimmed line is not a comment and not a section header.
    assert(t.len() > 0);
    assert(t[0] != ';' && t[0] != '#' && t[0] != '[') by {
        if key.len() > 0 {
            assert(t[0] == key[0]);
        } else {
            assert(t[0] == '=');
        }
    }
    // The key part trims back to the key.
    let kp = t.subrange(0, p);
    assert(trim_spec(kp) == key) by {
        if key.len() > 0 {
            assert(kp.len() == key.len() + 1);
            assert(forall|i: int| 0 <= i < key.len() ==> kp[i] == key[i]);
            assert(kp[kp.len() - 1] == ' ');
            assert(trim_start_spec(kp) == kp);
            assert(trim_end_spec(kp) == trim_end_spec(kp.drop_last()));
            assert(kp.drop_last() =~= key);
        } else {
            assert(kp =~= Seq::<char>::empty());
        }
    }
    // The value part trims back to the value.
    let vp = t.subrange(p + 1, t.len() as int);
    assert(trim_spec(vp) == value) by {
        if value.len() > 0 {
            assert(vp.len() == value.len() + 1);
            assert(vp[0] == ' ');
            assert(forall|i: int| 0 <= i < value.len() ==> vp[i + 1] == value[i]);
            assert(trim_start_spec(vp) == trim_start_spec(vp.subrange(1, vp.len() as int)));
            assert(vp.subrange(1, vp.len() as int) =~= value);
            assert(trim_start_spec(value) == value);
            assert(trim_end_spec(value) == value);
        } else {
            assert(vp =~= Seq::<char>::empty());
        }
    }
}

/// Under the default configuration the quoted-equals and inline-comment
/// rules leave a plain value unchanged.
proof fn lemma_value_rules_untouched(c: IniParserConfig, v: Seq<char>)
    requires
        c == default_config(),
        plain_value(v),
    ensures
        c.clean_quoted_value_spec(v) == v,
        c.remove_inline_comments_spec(v) == v,
{
    lemma_find_first_of_absent(v, ';', '#');
    assert(v.subrange(0, v.len() as int) =~= v);
    if v.len() > 0 {
        lemma_trimmed_ends(v);
    }
}

/// The physical lines of the rendered entries, one line per entry.
spec fn entry_line_seq(es: Seq<Entry>) -> Seq<Seq<char>>
    decreases es.len(),
{
    if es.len() == 0 {
        Seq::empty()
    } else {
        seq![entry_line(es[0].key@, es[0].value@)] + entry_line_seq(es.drop_first())
    }
}

/// `acc` after inserting each entry of `es`, in order, into the section
/// named `name`.
spec fn insert_entries(
    acc: Map<Seq<char>, Map<Seq<char>, Seq<char>>>,
    name: Seq<char>,
    es: Seq<Entry>,
) -> Map<Seq<char>, Map<Seq<char>, Seq<char>>>
    decreases es.len(),
{
    if es.len() == 0 {
        acc
    } else {
        insert_entries(doc_map_insert(acc, name, es[0].key@, es[0].value@), name, es.drop_first())
    }
}

/// `m` after inserting each entry of `es`, in order.
spec fn app_entries(m: Map<Seq<char>, Seq<char>>, es: Seq<Entry>) -> Map<Seq<char>, Seq<char>>
    decreases es.len(),
{
    if es.len() == 0 {
        m
    } else {
        app_entries(m.insert(es[0].key@, es[0].value@), es.drop_first())
    }
}

/// A rendered entry line has no line feed.
proof fn lemma_entry_line_no_newline(key: Seq<char>, value: Seq<char>)
    requires
        plain_key(key),
        plain_value(value),
    ensures
        forall|i: int| 0 <= i < entry_line(key, value).len() ==> (#[trigger] entry_line(
            key,
            value,
        )[i]) != '\n',
        strip_trailing_cr(entry_line(key, value)) == entry_line(key, value),
{
    reveal_strlit(" = ");
    let l = entry_line(key, value);
    let kn = key.len() as int;
    assert forall|i: int| 0 <= i < l.len() implies (#[trigger] l[i]) != '\n' by {
        if i < kn {
            assert(l[i] == key[i]);
        } else if i < kn + 3 {
            assert(l[i] == " = "@[i - kn]);
        } else {
            assert(l[i] == value[i - kn - 3]);
        }
    }
    if value.len() > 0 {
        lemma_trimmed_ends(value);
        assert(l[l.len() - 1] == value[value.len() - 1]);
    } else {
        assert(l[l.len() - 1] == ' ');
    }
}

/// Splitting the rendered entries yields one line per entry.
proof fn lemma_lines_render_entries(es: Seq<Entry>)
    requires
        plain_entries(es),
    ensures
        lines_spec(render_entries(es)) == entry_line_seq(es),
    decreases es.len(),
{
    reveal_strlit("\n");
    if es.len() == 0 {
        assert(lines_spec(render_entries(es)) =~= entry_line_seq(es));
    } else {
        let line0 = entry_line(es[0].key@, es[0].value@);
        let a = line0 + "\n"@;
        let rest = render_entries(es.drop_first());
        assert(render_entries(es) =~= a + rest);
        assert(a[a.len() - 1] == '\n');
        lemma_lines_concat(a, rest);
        lemma_entry_line_no_newline(es[0].key@, es[0].value@);
        lemma_lines_single(line0);
        assert(plain_entries(es.drop_first())) by {
            assert(forall|i: int|
                0 <= i < es.drop_first().len() ==> (#[trigger] es.drop_first()[i]) == es[i + 1]);
        }
        lemma_lines_render_entries(es.drop_first());
        assert(lines_spec(render_entries(es)) =~= entry_line_seq(es));
    }
}

/// Parsing the entry lines of one section, followed by anything, inserts
/// each pair in order and goes on with the rest.
proof fn lemma_parse_entry_lines(
    c: IniParserConfig,
    es: Seq<Entry>,
    rest: Seq<Seq<char>>,
    name: Seq<char>,
    acc: Map<Seq<char>, Map<Seq<char>, Seq<char>>>,
)
    requires
        c == default_config(),
        plain_entries(es),
    ensures
        parse_from(c, entry_line_seq(es) + rest, 0, name, acc) == parse_from(
            c,
            rest,
            0,
            name,
            insert_entries(acc, name, es),
        ),
    decreases es.len(),
{
    if es.len() == 0 {
        assert(entry_line_seq(es) + rest =~= rest);
    } else {
        let k0 = es[0].key@;
        let v0 = es[0].value@;
        let l0 = entry_line(k0, v0);
        let L = entry_line_seq(es) + rest;
        assert(L[0] == l0);
        assert(transformed_line(c, l0) == trim_spec(l0));
        lemma_entry_line_parses(k0, v0);
        assert(classify_spec(transformed_line(c, L[0])) == LineClass::KeyValue(k0, v0));
        assert(!ends_with_backslash(v0));
        assert(c.multi_line_spec(L, 1, v0).0 == v0 && c.multi_line_spec(L, 1, v0).1 == 1);
        lemma_value_rules_untouched(c, v0);
        let acc1 = doc_map_insert(acc, name, k0, v0);
        assert(parse_from(c, L, 0, name, acc) == parse_from(c, L, 1, name, acc1));
        let tail = entry_line_seq(es.drop_first());
        assert(L =~= seq![l0] + (tail + rest));
        lemma_parse_from_shift(c, seq![l0], tail + rest, 0, name, acc1);
        assert(plain_entries(es.drop_first())) by {
            assert(forall|i: int|
                0 <= i < es.drop_first().len() ==> (#[trigger] es.drop_first()[i]) == es[i + 1]);
        }
        lemma_parse_entry_lines(c, es.drop_first(), rest, name, acc1);
        assert(insert_entries(acc, name, es) == insert_entries(acc1, name, es.drop_first()));
    }
}

/// Inserting entries into a section already present in `acc` extends that
/// section's mapping.
proof fn lemma_insert_entries_with(
    acc: Map<Seq<char>, Map<Seq<char>, Seq<char>>>,
    name: Seq<char>,
    m: Map<Seq<char>, Seq<char>>,
    es: Seq<Entry>,
)
    ensures
        insert_entries(acc.insert(name, m), name, es) == acc.insert(name, app_entries(m, es)),
    decreases es.len(),
{
    if es.len() == 0 {
    } else {
        let m1 = m.insert(es[0].key@, es[0].value@);
        assert(doc_map_insert(acc.insert(name, m), name, es[0].key@, es[0].value@) =~= acc.insert(
            name,
            m1,
        ));
        lemma_insert_entries_with(acc, name, m1, es.drop_first());
    }
}

/// Appending one entry to the fold inserts its pair last.
proof fn lemma_app_entries_push(m: Map<Seq<char>, Seq<char>>, es: Seq<Entry>, e: Entry)
    ensures
        app_entries(m, es.push(e)) == app_entries(m, es).insert(e.key@, e.value@),
    decreases es.len(),
{
    if es.len() == 0 {
        assert(es.push(e)[0] == e);
        assert(es.push(e).drop_first() =~= Seq::<Entry>::empty());
        assert(app_entries(m.insert(e.key@, e.value@), Seq::<Entry>::empty()) == m.insert(
            e.key@,
            e.value@,
        ));
    } else {
        assert(es.push(e)[0] == es[0]);
        assert(es.push(e).drop_first() =~= es.drop_first().push(e));
        lemma_app_entries_push(m.insert(es[0].key@, es[0].value@), es.drop_first(), e);
    }
}

/// The forward fold of the entries equals the mapping they stand for.
proof fn lemma_app_entries_map(es: Seq<Entry>)
    ensures
        app_entries(Map::<Seq<char>, Seq<char>>::empty(), es) == entries_map(es),
    decreases es.len(),
{
    if es.len() > 0 {
        lemma_app_entries_map(es.drop_last());
        lemma_app_entries_push(Map::<Seq<char>, Seq<char>>::empty(), es.drop_last(), es.last());
        assert(es.drop_last().push(es.last()) =~= es);
    }
}

/// Inserting the entries of an absent section creates exactly that
/// section's mapping.
proof fn lemma_insert_entries_map(
    acc: Map<Seq<char>, Map<Seq<char>, Seq<char>>>,
    name: Seq<char>,
    es: Seq<Entry>,
)
    requires
        !acc.contains_key(name),
        es.len() > 0,
    ensures
        insert_entries(acc, name, es) == acc.insert(name, entries_map(es)),
{
    let m0 = Map::<Seq<char>, Seq<char>>::empty().insert(es[0].key@, es[0].value@);
    assert(doc_map_insert(acc, name, es[0].key@, es[0].value@) =~= acc.insert(name, m0));
    lemma_insert_entries_with(acc, name, m0, es.drop_first());
    lemma_app_entries_map(es);
    assert(app_entries(Map::<Seq<char>, Seq<char>>::empty(), es) == app_entries(
        m0,
        es.drop_first(),
    ));
}

/// The physical lines of one rendered section: header, entry lines, blank
/// separator.
spec fn section_lines(s: Section) -> Seq<Seq<char>> {
    seq![header_line(s.name@)] + entry_line_seq(s.entries@) + seq![Seq::<char>::empty()]
}

/// The physical lines of the rendered sections.
spec fn sections_lines(ss: Seq<Section>) -> Seq<Seq<char>>
    decreases ss.len(),
{
    if ss.len() == 0 {
        Seq::empty()
    } else {
        section_lines(ss[0]) + sections_lines(ss.drop_first())
    }
}

/// `acc` after inserting each section's mapping, in order.
spec fn insert_sections(
    acc: Map<Seq<char>, Map<Seq<char>, Seq<char>>>,
    ss: Seq<Section>,
) -> Map<Seq<char>, Map<Seq<char>, Seq<char>>>
    decreases ss.len(),
{
    if ss.len() == 0 {
        acc
    } else {
        insert_sections(acc.insert(ss[0].name@, ss[0].map_view()), ss.drop_first())
    }
}

/// The rendered entries end with a line feed, unless there are none.
proof fn lemma_render_entries_ends_nl(es: Seq<Entry>)
    ensures
        render_entries(es).len() == 0 || render_entries(es)[render_entries(es).len() - 1] == '\n',
    decreases es.len(),
{
    reveal_strlit("\n");
    if es.len() > 0 {
        lemma_render_entries_ends_nl(es.drop_first());
        let head = entry_line(es[0].key@, es[0].value@) + "\n"@;
        let rest = render_entries(es.drop_first());
        assert(render_entries(es) =~= head + rest);
        if rest.len() == 0 {
            assert(render_entries(es)[render_entries(es).len() - 1] == head[head.len() - 1]);
        } else {
            assert(render_entries(es)[render_entries(es).len() - 1] == rest[rest.len() - 1]);
        }
    }
}

/// Splitting one rendered section yields its header line, entry lines,
/// and one blank line.
proof fn lemma_lines_render_section(s: Section)
    requires
        plain_section(s),
    ensures
        lines_spec(render_section(s)) == section_lines(s),
{
    reveal_strlit("[");
    reveal_strlit("]");
    reveal_strlit("\n");
    let hdr = header_line(s.name@);
    let a1 = hdr + "\n"@;
    let re = render_entries(s.entries@);
    assert(render_section(s) =~= a1 + (re + "\n"@));
    assert(a1[a1.len() - 1] == '\n');
    lemma_lines_concat(a1, re + "\n"@);
    assert forall|i: int| 0 <= i < hdr.len() implies (#[trigger] hdr[i]) != '\n' by {
        if i == 0 {
            assert(hdr[i] == '[');
        } else if i < s.name@.len() + 1 {
            assert(hdr[i] == s.name@[i - 1]);
        } else {
            assert(hdr[i] == ']');
        }
    }
    lemma_lines_single(hdr);
    assert(strip_trailing_cr(hdr) == hdr) by {
        assert(hdr[hdr.len() - 1] == ']');
    }
    lemma_render_entries_ends_nl(s.entries@);
    lemma_lines_concat(re, "\n"@);
    lemma_lines_render_entries(s.entries@);
    assert(lines_spec("\n"@) =~= seq![Seq::<char>::empty()]) by {
        assert(Seq::<char>::empty() + "\n"@ =~= "\n"@);
        lemma_lines_single(Seq::<char>::empty());
        assert(strip_trailing_cr(Seq::<char>::empty()) =~= Seq::<char>::empty());
    }
    assert(lines_spec(render_section(s)) =~= section_lines(s));
}

/// Splitting the rendered sections yields each section's lines in order.
proof fn lemma_lines_render_sections(ss: Seq<Section>)
    requires
        forall|i: int| 0 <= i < ss.len() ==> plain_section(#[trigger] ss[i]),
    ensures
        lines_spec(render_sections(ss)) == sections_lines(ss),
    decreases ss.len(),
{
    reveal_strlit("\n");
    if ss.len() == 0 {
        assert(lines_spec(render_sections(ss)) =~= sections_lines(ss));
    } else {
        let a = render_section(ss[0]);
        let rest = render_sections(ss.drop_first());
        assert(a[a.len() - 1] == '\n');
        lemma_lines_concat(a, rest);
        lemma_lines_render_section(ss[0]);
        assert(forall|i: int|
            0 <= i < ss.drop_first().len() ==> (#[trigger] ss.drop_first()[i]) == ss[i + 1]);
        lemma_lines_render_sections(ss.drop_first());
        assert(lines_spec(render_sections(ss)) =~= sections_lines(ss));
    }
}

/// Parsing the lines of the rendered sections inserts each section's
/// mapping in order, whatever the current section was before.
proof fn lemma_parse_sections(
    c: IniParserConfig,
    ss: Seq<Section>,
    cur: Seq<char>,
    acc: Map<Seq<char>, Map<Seq<char>, Seq<char>>>,
)
    requires
        c == default_config(),
        forall|i: int| 0 <= i < ss.len() ==> plain_section(#[trigger] ss[i]) && ss[i].wf(),
        section_names_unique(ss),
        forall|i: int| 0 <= i < ss.len() ==> !acc.contains_key((#[trigger] ss[i]).name@),
    ensures
        parse_from(c, sections_lines(ss), 0, cur, acc) == insert_sections(acc, ss),
    decreases ss.len(),
{
    if ss.len() > 0 {
        let s0 = ss[0];
        let n0 = s0.name@;
        let es0 = s0.entries@;
        let L = sections_lines(ss);
        let hdr = header_line(n0);
        assert(L[0] == hdr);
        assert(transformed_line(c, hdr) == trim_spec(hdr));
        lemma_header_line_classifies(n0);
        assert(classify_spec(transformed_line(c, L[0])) == LineClass::Section(n0));
        assert(parse_from(c, L, 0, cur, acc) == parse_from(c, L, 1, n0, acc));
        let blank_then_rest = seq![Seq::<char>::empty()] + sections_lines(ss.drop_first());
        let r1 = entry_line_seq(es0) + blank_then_rest;
        assert(L =~= seq![hdr] + r1);
        lemma_parse_from_shift(c, seq![hdr], r1, 0, n0, acc);
        assert(plain_entries(es0));
        lemma_parse_entry_lines(c, es0, blank_then_rest, n0, acc);
        let acc1 = insert_entries(acc, n0, es0);
        assert(blank_then_rest[0] == Seq::<char>::empty());
        assert(trim_spec(Seq::<char>::empty()) =~= Seq::<char>::empty());
        assert(transformed_line(c, blank_then_rest[0]) =~= Seq::<char>::empty());
        assert(classify_spec(transformed_line(c, blank_then_rest[0])) == LineClass::Comment);
        assert(parse_from(c, blank_then_rest, 0, n0, acc1) == parse_from(
            c,
            blank_then_rest,
            1,
            n0,
            acc1,
        ));
        lemma_parse_from_shift(
            c,
            seq![Seq::<char>::empty()],
            sections_lines(ss.drop_first()),
            0,
            n0,
            acc1,
        );
        assert(!acc.contains_key(n0));
        assert(es0.len() > 0);
        lemma_insert_entries_map(acc, n0, es0);
        assert(acc1 == acc.insert(n0, s0.map_view()));
        let tail = ss.drop_first();
        assert(forall|i: int| 0 <= i < tail.len() ==> (#[trigger] tail[i]) == ss[i + 1]);
        assert(section_names_unique(tail));
        assert forall|i: int| 0 <= i < tail.len() implies !acc1.contains_key(
            (#[trigger] tail[i]).name@,
        ) by {
            assert(tail[i] == ss[i + 1]);
            assert(!acc.contains_key(ss[i + 1].name@));
            assert(ss[0].name@ != ss[i + 1].name@);
        }
        lemma_parse_sections(c, tail, n0, acc1);
        assert(insert_sections(acc, ss) == insert_sections(acc1, tail));
    } else {
        assert(parse_from(c, sections_lines(ss), 0, cur, acc) == acc);
    }
}

/// Appending one section to the fold inserts its mapping last.
proof fn lemma_insert_sections_push(
    acc: Map<Seq<char>, Map<Seq<char>, Seq<char>>>,
    ss: Seq<Section>,
    s: Section,
)
    ensures
        insert_sections(acc, ss.push(s)) == insert_sections(acc, ss).insert(s.name@, s.map_view()),
    decreases ss.len(),
{
    if ss.len() == 0 {
        assert(ss.push(s)[0] == s);
        assert(ss.push(s).drop_first() =~= Seq::<Section>::empty());
        assert(insert_sections(acc.insert(s.name@, s.map_view()), Seq::<Section>::empty())
            == acc.insert(s.name@, s.map_view()));
    } else {
        assert(ss.push(s)[0] == ss[0]);
        assert(ss.push(s).drop_first() =~= ss.drop_first().push(s));
        lemma_insert_sections_push(acc.insert(ss[0].name@, ss[0].map_view()), ss.drop_first(), s);
    }
}

/// The forward fold of the sections equals the mapping they stand for.
proof fn lemma_insert_sections_map(ss: Seq<Section>)
    ensures
        insert_sections(Map::<Seq<char>, Map<Seq<char>, Seq<char>>>::empty(), ss) == sections_map(
            ss,
        ),
    decreases ss.len(),
{
    if ss.len() > 0 {
        lemma_insert_sections_map(ss.drop_last());
        lemma_insert_sections_push(
            Map::<Seq<char>, Map<Seq<char>, Seq<char>>>::empty(),
            ss.drop_last(),
            ss.last(),
        );
        assert(ss.drop_last().push(ss.last()) =~= ss);
    }
}

/// Round-trip law: parsing the serialized text of a serializable document
/// under the default configuration reproduces the document's mapping
/// exactly.
pub proof fn lemma_serialize_parse_round_trip(doc: Document)
    requires
        serializable(doc),
    ensures
        parse_spec(default_config(), render_doc(doc)) == doc@,
{
    let c = default_config();
    let ss = doc.sections@;
    let empty = Map::<Seq<char>, Map<Seq<char>, Seq<char>>>::empty();
    lemma_lines_render_sections(ss);
    lemma_parse_sections(c, ss, "default"@, empty);
    lemma_insert_sections_map(ss);
}

} // verus!
