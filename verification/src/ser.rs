//! The serializer: renders a [`Document`] back to INI text, one
//! `[section]` header line, one `key = value` line per entry, and a blank
//! separator line after each section.

use vstd::prelude::*;
use vstd::string::StringExecFns;

use crate::document::Document;
use crate::document::Entry;
use crate::document::Section;

verus! {

/// The header line of a section: the name between square brackets.
pub open spec fn header_line(name: Seq<char>) -> Seq<char> {
    "["@ + name + "]"@
}

/// The line of one key/value pair: one space on each side of the `=`.
pub open spec fn entry_line(key: Seq<char>, value: Seq<char>) -> Seq<char> {
    key + " = "@ + value
}

/// The rendered text of a list of entries, one line-feed-terminated line
/// each.
pub open spec fn render_entries(es: Seq<Entry>) -> Seq<char>
    decreases es.len(),
{
    if es.len() == 0 {
        Seq::empty()
    } else {
        entry_line(es[0].key@, es[0].value@) + "\n"@ + render_entries(es.drop_first())
    }
}

/// The rendered text of one section: header line, entry lines, and a
/// blank separator line.
pub open spec fn render_section(s: Section) -> Seq<char> {
    header_line(s.name@) + "\n"@ + render_entries(s.entries@) + "\n"@
}

/// The rendered text of a list of sections.
pub open spec fn render_sections(ss: Seq<Section>) -> Seq<char>
    decreases ss.len(),
{
    if ss.len() == 0 {
        Seq::empty()
    } else {
        render_section(ss[0]) + render_sections(ss.drop_first())
    }
}

/// The rendered text of a whole document, section by section in storage
/// order.
pub open spec fn render_doc(d: Document) -> Seq<char> {
    render_sections(d.sections@)
}

/// Renders `doc` as INI text.
pub fn to_ini_string(doc: &Document) -> (r: String)
    ensures
        r@ == render_doc(*doc),
{
    let mut out = String::new();
    proof {
        assert(doc.sections@.skip(0) =~= doc.sections@);
        assert(out@ + render_sections(doc.sections@) =~= render_sections(doc.sections@));
    }
    let mut i: usize = 0;
    while i < doc.sections.len()
        invariant
            i <= doc.sections@.len(),
            out@ + render_sections(doc.sections@.skip(i as int)) == render_doc(*doc),
        decreases doc.sections@.len() - i,
    {
        let ghost out0 = out@;
        let ghost sec = doc.sections@[i as int];
        out.append("[");
        out.append(doc.sections[i].name.as_str());
        out.append("]");
        out.append("\n");
        let ghost base = out@;
        proof {
            assert(base == out0 + header_line(sec.name@) + "\n"@);
            assert(sec.entries@.skip(0) =~= sec.entries@);
        }
        let mut j: usize = 0;
        while j < doc.sections[i].entries.len()
            invariant
                i < doc.sections@.len(),
                sec == doc.sections@[i as int],
                j <= sec.entries@.len(),
                base + render_entries(sec.entries@) == out@ + render_entries(
                    sec.entries@.skip(j as int),
                ),
            decreases sec.entries@.len() - j,
        {
            let ghost outj = out@;
            out.append(doc.sections[i].entries[j].key.as_str());
            out.append(" = ");
            out.append(doc.sections[i].entries[j].value.as_str());
            out.append("\n");
            proof {
                let es = sec.entries@;
                assert(es.skip(j as int)[0] == es[j as int]);
                assert(es.skip(j as int).drop_first() =~= es.skip(j as int + 1));
                assert(out@ == outj + entry_line(es[j as int].key@, es[j as int].value@) + "\n"@);
                assert(outj + render_entries(es.skip(j as int)) =~= out@ + render_entries(
                    es.skip(j as int + 1),
                ));
            }
            j += 1;
        }
        out.append("\n");
        proof {
            assert(out@ == base + render_entries(sec.entries@) + "\n"@) by {
                assert(sec.entries@.skip(sec.entries@.len() as int) =~= Seq::<Entry>::empty());
                assert(base + render_entries(sec.entries@) =~= base + render_entries(
                    sec.entries@,
                ) + render_entries(sec.entries@.skip(sec.entries@.len() as int)));
            }
            assert(doc.sections@.skip(i as int)[0] == sec);
            assert(doc.sections@.skip(i as int).drop_first() =~= doc.sections@.skip(i as int + 1));
            assert(out@ =~= out0 + render_section(sec));
            assert(out0 + render_sections(doc.sections@.skip(i as int)) =~= out@ + render_sections(
                doc.sections@.skip(i as int + 1),
            ));
        }
        i += 1;
    }
    proof {
        assert(doc.sections@.skip(doc.sections@.len() as int) =~= Seq::<Section>::empty());
        assert(out@ + render_sections(doc.sections@.skip(doc.sections@.len() as int)) =~= out@);
    }
    out
}

} // verus!
