//! The document model: a nested mapping from section names to key/value
//! pairs, stored as association lists with unique keys and viewed as a
//! `Map` of `Map`s.

use vstd::prelude::*;

use crate::text::str_eq;

verus! {

/// One key/value pair of a section.
pub struct Entry {
    pub key: String,
    pub value: String,
}

/// A named group of key/value pairs with pairwise distinct keys.
pub struct Section {
    pub name: String,
    pub entries: Vec<Entry>,
}

/// A parsed INI document: sections with pairwise distinct names.
pub struct Document {
    pub sections: Vec<Section>,
}

/// The keys of `es` are pairwise distinct.
pub open spec fn entry_keys_unique(es: Seq<Entry>) -> bool {
    forall|i: int, j: int| 0 <= i < j < es.len() ==> es[i].key@ != es[j].key@
}

/// The names of `ss` are pairwise distinct.
pub open spec fn section_names_unique(ss: Seq<Section>) -> bool {
    forall|i: int, j: int| 0 <= i < j < ss.len() ==> ss[i].name@ != ss[j].name@
}

/// The mapping that a list of entries stands for; on duplicate keys the
/// later entry wins.
pub open spec fn entries_map(es: Seq<Entry>) -> Map<Seq<char>, Seq<char>>
    decreases es.len(),
{
    if es.len() == 0 {
        Map::empty()
    } else {
        entries_map(es.drop_last()).insert(es.last().key@, es.last().value@)
    }
}

/// The mapping that a list of sections stands for; on duplicate names the
/// later section wins.
pub open spec fn sections_map(ss: Seq<Section>) -> Map<Seq<char>, Map<Seq<char>, Seq<char>>>
    decreases ss.len(),
{
    if ss.len() == 0 {
        Map::empty()
    } else {
        sections_map(ss.drop_last()).insert(ss.last().name@, ss.last().map_view())
    }
}

impl Section {
    /// The key/value mapping of this section.
    pub open spec fn map_view(self) -> Map<Seq<char>, Seq<char>> {
        entries_map(self.entries@)
    }

    /// Distinct keys, and at least one entry: a section exists in a
    /// document only once a key has been inserted into it.
    pub open spec fn wf(self) -> bool {
        &&& entry_keys_unique(self.entries@)
        &&& self.entries@.len() > 0
    }
}

impl View for Document {
    type V = Map<Seq<char>, Map<Seq<char>, Seq<char>>>;

    open spec fn view(&self) -> Map<Seq<char>, Map<Seq<char>, Seq<char>>> {
        sections_map(self.sections@)
    }
}

impl Document {
    /// Distinct section names, and every section well-formed.
    pub open spec fn well_formed(self) -> bool {
        &&& section_names_unique(self.sections@)
        &&& forall|i: int| 0 <= i < self.sections@.len() ==> (#[trigger] self.sections@[i]).wf()
    }

    /// Creates an empty document.
    pub fn new() -> (d: Document)
        ensures
            d@ == Map::<Seq<char>, Map<Seq<char>, Seq<char>>>::empty(),
            d.well_formed(),
    {
        Document { sections: Vec::new() }
    }
}

/// `m` with `key -> value` inserted into the section named `section`,
/// which is created when absent.
pub open spec fn doc_map_insert(
    m: Map<Seq<char>, Map<Seq<char>, Seq<char>>>,
    section: Seq<char>,
    key: Seq<char>,
    value: Seq<char>,
) -> Map<Seq<char>, Map<Seq<char>, Seq<char>>> {
    let sec = if m.contains_key(section) {
        m[section]
    } else {
        Map::empty()
    };
    m.insert(section, sec.insert(key, value))
}

/// A key of `entries_map(es)` is exactly a key of some entry of `es`.
pub proof fn lemma_entries_map_contains(es: Seq<Entry>, k: Seq<char>)
    ensures
        entries_map(es).contains_key(k) <==> exists|i: int|
            0 <= i < es.len() && (#[trigger] es[i]).key@ == k,
    decreases es.len(),
{
    if es.len() > 0 {
        lemma_entries_map_contains(es.drop_last(), k);
        if es.last().key@ == k {
            assert(es[es.len() - 1].key@ == k);
        } else if entries_map(es).contains_key(k) {
            let i = choose|i: int| 0 <= i < es.drop_last().len() && (#[trigger] es.drop_last()[i]).key@
                == k;
            assert(es[i].key@ == k);
        } else if exists|i: int| 0 <= i < es.len() && (#[trigger] es[i]).key@ == k {
            let i = choose|i: int| 0 <= i < es.len() && (#[trigger] es[i]).key@ == k;
            assert(es.drop_last()[i].key@ == k);
        }
    }
}

/// With distinct keys, `entries_map` maps each entry's key to its value.
pub proof fn lemma_entries_map_index(es: Seq<Entry>, i: int)
    requires
        entry_keys_unique(es),
        0 <= i < es.len(),
    ensures
        entries_map(es).contains_key(es[i].key@),
        entries_map(es)[es[i].key@] == es[i].value@,
    decreases es.len(),
{
    if i < es.len() - 1 {
        assert(entry_keys_unique(es.drop_last())) by {
            assert(forall|a: int, b: int|
                0 <= a < b < es.drop_last().len() ==> es.drop_last()[a] == es[a]
                    && es.drop_last()[b] == es[b]);
        }
        lemma_entries_map_index(es.drop_last(), i);
        assert(es.drop_last()[i] == es[i]);
        assert(es[i].key@ != es.last().key@);
    }
}

/// Appending an entry inserts its pair into the mapping.
pub proof fn lemma_entries_map_push(es: Seq<Entry>, e: Entry)
    ensures
        entries_map(es.push(e)) == entries_map(es).insert(e.key@, e.value@),
{
    assert(es.push(e).drop_last() =~= es);
    assert(es.push(e).last() == e);
}

/// Replacing the entry whose key is `e.key` updates that key's value in
/// the mapping.
pub proof fn lemma_entries_map_update(es: Seq<Entry>, i: int, e: Entry)
    requires
        entry_keys_unique(es),
        0 <= i < es.len(),
        es[i].key@ == e.key@,
    ensures
        entries_map(es.update(i, e)) == entries_map(es).insert(e.key@, e.value@),
    decreases es.len(),
{
    let up = es.update(i, e);
    if i == es.len() - 1 {
        assert(up.drop_last() =~= es.drop_last());
        assert(up.last() == e);
        assert(entries_map(es.drop_last()).insert(es.last().key@, es.last().value@).insert(
            e.key@,
            e.value@,
        ) =~= entries_map(es.drop_last()).insert(e.key@, e.value@));
    } else {
        assert(entry_keys_unique(es.drop_last())) by {
            assert(forall|a: int, b: int|
                0 <= a < b < es.drop_last().len() ==> es.drop_last()[a] == es[a]
                    && es.drop_last()[b] == es[b]);
        }
        assert(up.drop_last() =~= es.drop_last().update(i, e));
        lemma_entries_map_update(es.drop_last(), i, e);
        assert(up.last() == es.last());
        assert(es[i].key@ != es.last().key@);
        assert(entries_map(es.drop_last()).insert(e.key@, e.value@).insert(
            es.last().key@,
            es.last().value@,
        ) =~= entries_map(es.drop_last()).insert(es.last().key@, es.last().value@).insert(
            e.key@,
            e.value@,
        ));
    }
}

/// A key of `sections_map(ss)` is exactly the name of some section of `ss`.
pub proof fn lemma_sections_map_contains(ss: Seq<Section>, n: Seq<char>)
    ensures
        sections_map(ss).contains_key(n) <==> exists|i: int|
            0 <= i < ss.len() && (#[trigger] ss[i]).name@ == n,
    decreases ss.len(),
{
    if ss.len() > 0 {
        lemma_sections_map_contains(ss.drop_last(), n);
        if ss.last().name@ == n {
            assert(ss[ss.len() - 1].name@ == n);
        } else if sections_map(ss).contains_key(n) {
            let i = choose|i: int|
                0 <= i < ss.drop_last().len() && (#[trigger] ss.drop_last()[i]).name@ == n;
            assert(ss[i].name@ == n);
        } else if exists|i: int| 0 <= i < ss.len() && (#[trigger] ss[i]).name@ == n {
            let i = choose|i: int| 0 <= i < ss.len() && (#[trigger] ss[i]).name@ == n;
            assert(ss.drop_last()[i].name@ == n);
        }
    }
}

/// With distinct names, `sections_map` maps each section's name to its
/// key/value mapping.
pub proof fn lemma_sections_map_index(ss: Seq<Section>, i: int)
    requires
        section_names_unique(ss),
        0 <= i < ss.len(),
    ensures
        sections_map(ss).contains_key(ss[i].name@),
        sections_map(ss)[ss[i].name@] == ss[i].map_view(),
    decreases ss.len(),
{
    if i < ss.len() - 1 {
        assert(section_names_unique(ss.drop_last())) by {
            assert(forall|a: int, b: int|
                0 <= a < b < ss.drop_last().len() ==> ss.drop_last()[a] == ss[a]
                    && ss.drop_last()[b] == ss[b]);
        }
        lemma_sections_map_index(ss.drop_last(), i);
        assert(ss.drop_last()[i] == ss[i]);
        assert(ss[i].name@ != ss.last().name@);
    }
}

/// Appending a section inserts its name and mapping.
pub proof fn lemma_sections_map_push(ss: Seq<Section>, s: Section)
    ensures
        sections_map(ss.push(s)) == sections_map(ss).insert(s.name@, s.map_view()),
{
    assert(ss.push(s).drop_last() =~= ss);
    assert(ss.push(s).last() == s);
}

/// Replacing the section whose name is `s.name` updates that name's
/// mapping.
pub proof fn lemma_sections_map_update(ss: Seq<Section>, i: int, s: Section)
    requires
        section_names_unique(ss),
        0 <= i < ss.len(),
        ss[i].name@ == s.name@,
    ensures
        sections_map(ss.update(i, s)) == sections_map(ss).insert(s.name@, s.map_view()),
    decreases ss.len(),
{
    let up = ss.update(i, s);
    if i == ss.len() - 1 {
        assert(up.drop_last() =~= ss.drop_last());
        assert(up.last() == s);
        assert(sections_map(ss.drop_last()).insert(ss.last().name@, ss.last().map_view()).insert(
            s.name@,
            s.map_view(),
        ) =~= sections_map(ss.drop_last()).insert(s.name@, s.map_view()));
    } else {
        assert(section_names_unique(ss.drop_last())) by {
            assert(forall|a: int, b: int|
                0 <= a < b < ss.drop_last().len() ==> ss.drop_last()[a] == ss[a]
                    && ss.drop_last()[b] == ss[b]);
        }
        assert(up.drop_last() =~= ss.drop_last().update(i, s));
        lemma_sections_map_update(ss.drop_last(), i, s);
        assert(up.last() == ss.last());
        assert(ss[i].name@ != ss.last().name@);
        assert(sections_map(ss.drop_last()).insert(s.name@, s.map_view()).insert(
            ss.last().name@,
            ss.last().map_view(),
        ) =~= sections_map(ss.drop_last()).insert(ss.last().name@, ss.last().map_view()).insert(
            s.name@,
            s.map_view(),
        ));
    }
}

/// Finds the index of the section named `name`, if any.
fn find_section(sections: &Vec<Section>, name: &str) -> (r: Option<usize>)
    ensures
        match r {
            Some(i) => i < sections@.len() && sections@[i as int].name@ == name@,
            None => forall|i: int|
                0 <= i < sections@.len() ==> (#[trigger] sections@[i]).name@ != name@,
        },
{
    let mut i: usize = 0;
    while i < sections.len()
        invariant
            0 <= i <= sections@.len(),
            forall|j: int| 0 <= j < i ==> (#[trigger] sections@[j]).name@ != name@,
        decreases sections@.len() - i,
    {
        if str_eq(sections[i].name.as_str(), name) {
            return Some(i);
        }
        i += 1;
    }
    None
}

/// Finds the index of the entry whose key is `key`, if any.
fn find_entry(entries: &Vec<Entry>, key: &str) -> (r: Option<usize>)
    ensures
        match r {
            Some(j) => j < entries@.len() && entries@[j as int].key@ == key@,
            None => forall|j: int|
                0 <= j < entries@.len() ==> (#[trigger] entries@[j]).key@ != key@,
        },
{
    let mut j: usize = 0;
    while j < entries.len()
        invariant
            0 <= j <= entries@.len(),
            forall|i: int| 0 <= i < j ==> (#[trigger] entries@[i]).key@ != key@,
        decreases entries@.len() - j,
    {
        if str_eq(entries[j].key.as_str(), key) {
            return Some(j);
        }
        j += 1;
    }
    None
}

impl Document {
    /// Inserts `key -> value` into the section named `section`, creating
    /// the section when absent and overwriting the key's previous value
    /// when present.
    pub fn insert(&mut self, section: &str, key: String, value: String)
        requires
            old(self).well_formed(),
        ensures
            final(self)@ == doc_map_insert(old(self)@, section@, key@, value@),
            final(self).well_formed(),
    {
        proof {
            lemma_sections_map_contains(self.sections@, section@);
        }
        match find_section(&self.sections, section) {
            Some(i) => {
                proof {
                    lemma_sections_map_index(self.sections@, i as int);
                }
                let ghost ss0 = self.sections@;
                let mut sec = self.sections.remove(i);
                proof {
                    lemma_entries_map_contains(sec.entries@, key@);
                }
                match find_entry(&sec.entries, key.as_str()) {
                    Some(j) => {
                        let ghost es0 = sec.entries@;
                        let entry = Entry { key, value };
                        proof {
                            lemma_entries_map_update(es0, j as int, entry);
                        }
                        let _ = sec.entries.remove(j);
                        sec.entries.insert(j, entry);
                        proof {
                            assert(sec.entries@ =~= es0.update(j as int, entry));
                        }
                    },
                    None => {
                        let ghost es0 = sec.entries@;
                        let entry = Entry { key, value };
                        proof {
                            lemma_entries_map_push(es0, entry);
                        }
                        sec.entries.push(entry);
                    },
                }
                let ghost secf = sec;
                self.sections.insert(i, sec);
                proof {
                    assert(self.sections@ =~= ss0.update(i as int, secf));
                    lemma_sections_map_update(ss0, i as int, secf);
                }
            },
            None => {
                let ghost ss0 = self.sections@;
                let mut entries: Vec<Entry> = Vec::new();
                let entry = Entry { key, value };
                entries.push(entry);
                proof {
                    assert(entries@ =~= Seq::<Entry>::empty().push(entry));
                    lemma_entries_map_push(Seq::<Entry>::empty(), entry);
                }
                let sec = Section { name: section.to_owned(), entries };
                proof {
                    lemma_sections_map_push(ss0, sec);
                }
                self.sections.push(sec);
            },
        }
    }

    /// Looks up the value of `key` in the section named `section`.
    pub fn get(&self, section: &str, key: &str) -> (r: Option<String>)
        requires
            self.well_formed(),
        ensures
            match r {
                Some(v) => self@.contains_key(section@) && self@[section@].contains_key(key@)
                    && v@ == self@[section@][key@],
                None => !self@.contains_key(section@) || !self@[section@].contains_key(key@),
            },
    {
        proof {
            lemma_sections_map_contains(self.sections@, section@);
        }
        match find_section(&self.sections, section) {
            Some(i) => {
                proof {
                    lemma_sections_map_index(self.sections@, i as int);
                    lemma_entries_map_contains(self.sections@[i as int].entries@, key@);
                }
                match find_entry(&self.sections[i].entries, key) {
                    Some(j) => {
                        proof {
                            lemma_entries_map_index(self.sections@[i as int].entries@, j as int);
                        }
                        Some(self.sections[i].entries[j].value.clone())
                    },
                    None => None,
                }
            },
            None => None,
        }
    }
}

/// Inserting twice under the same section and key retains only the value
/// written last.
pub proof fn lemma_insert_last_wins(
    m: Map<Seq<char>, Map<Seq<char>, Seq<char>>>,
    section: Seq<char>,
    key: Seq<char>,
    v1: Seq<char>,
    v2: Seq<char>,
)
    ensures
        doc_map_insert(doc_map_insert(m, section, key, v1), section, key, v2) == doc_map_insert(
            m,
            section,
            key,
            v2,
        ),
{
    let sec0 = if m.contains_key(section) {
        m[section]
    } else {
        Map::<Seq<char>, Seq<char>>::empty()
    };
    assert(sec0.insert(key, v1).insert(key, v2) =~= sec0.insert(key, v2));
    assert(doc_map_insert(doc_map_insert(m, section, key, v1), section, key, v2)
        =~= doc_map_insert(m, section, key, v2));
}

} // verus!
