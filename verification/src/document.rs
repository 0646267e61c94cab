//! The document model: a read-only mapping from section name to section, and
//! from key to value within each section.
//!
//! Both mappings are stored as association vectors whose keys are pairwise
//! distinct; their views are the finite maps the vectors denote, so every
//! lookup contract speaks the language of `Map`.

use vstd::prelude::*;

verus! {

/// A named group of key/value entries.
#[derive(Clone, Debug, PartialEq, Eq)]
pub struct IniSection {
    pub(crate) entries: Vec<(String, String)>,
}

/// A parsed document: the sections of the input, each under its name.
#[derive(Clone, Debug, PartialEq, Eq)]
pub struct Ini {
    pub(crate) sections: Vec<(String, IniSection)>,
}

/// The map denoted by an association list of keys and values, later entries
/// winning (well-formed lists have no repeated key, so nothing is won).
pub open spec fn entry_map(s: Seq<(String, String)>) -> Map<Seq<char>, Seq<char>>
    decreases s.len(),
{
    if s.len() == 0 {
        Map::empty()
    } else {
        entry_map(s.drop_last()).insert(s.last().0@, s.last().1@)
    }
}

/// The map denoted by an association list of names and sections.
pub open spec fn section_map(s: Seq<(String, IniSection)>) -> Map<
    Seq<char>,
    Map<Seq<char>, Seq<char>>,
>
    decreases s.len(),
{
    if s.len() == 0 {
        Map::empty()
    } else {
        section_map(s.drop_last()).insert(s.last().0@, s.last().1@)
    }
}

/// `entry_map` holds a key exactly when some list entry carries it.
pub proof fn lemma_entry_map_contains(s: Seq<(String, String)>, k: Seq<char>)
    ensures
        entry_map(s).contains_key(k) <==> exists|i: int| 0 <= i < s.len() && s[i].0@ == k,
    decreases s.len(),
{
    if s.len() > 0 {
        lemma_entry_map_contains(s.drop_last(), k);
        if entry_map(s).contains_key(k) && s.last().0@ != k {
            let i = choose|i: int| 0 <= i < s.drop_last().len() && s.drop_last()[i].0@ == k;
            assert(s[i].0@ == k);
        }
        if exists|i: int| 0 <= i < s.len() && s[i].0@ == k {
            let i = choose|i: int| 0 <= i < s.len() && s[i].0@ == k;
            if i < s.len() - 1 {
                assert(s.drop_last()[i].0@ == k);
            }
        }
    }
}

/// In a list with pairwise-distinct keys, `entry_map` sends each key to the
/// value stored beside it.
pub proof fn lemma_entry_map_index(s: Seq<(String, String)>, i: int)
    requires
        forall|p: int, q: int| 0 <= p < q < s.len() ==> s[p].0@ != s[q].0@,
        0 <= i < s.len(),
    ensures
        entry_map(s).contains_key(s[i].0@),
        entry_map(s)[s[i].0@] == s[i].1@,
    decreases s.len(),
{
    if i < s.len() - 1 {
        lemma_entry_map_index(s.drop_last(), i);
        assert(s.drop_last()[i] == s[i]);
        assert(s.last().0@ != s[i].0@);
    }
}

/// `section_map` holds a name exactly when some list entry carries it.
pub proof fn lemma_section_map_contains(s: Seq<(String, IniSection)>, k: Seq<char>)
    ensures
        section_map(s).contains_key(k) <==> exists|i: int| 0 <= i < s.len() && s[i].0@ == k,
    decreases s.len(),
{
    if s.len() > 0 {
        lemma_section_map_contains(s.drop_last(), k);
        if section_map(s).contains_key(k) && s.last().0@ != k {
            let i = choose|i: int| 0 <= i < s.drop_last().len() && s.drop_last()[i].0@ == k;
            assert(s[i].0@ == k);
        }
        if exists|i: int| 0 <= i < s.len() && s[i].0@ == k {
            let i = choose|i: int| 0 <= i < s.len() && s[i].0@ == k;
            if i < s.len() - 1 {
                assert(s.drop_last()[i].0@ == k);
            }
        }
    }
}

/// In a list with pairwise-distinct names, `section_map` sends each name to
/// the section stored beside it.
pub proof fn lemma_section_map_index(s: Seq<(String, IniSection)>, i: int)
    requires
        forall|p: int, q: int| 0 <= p < q < s.len() ==> s[p].0@ != s[q].0@,
        0 <= i < s.len(),
    ensures
        section_map(s).contains_key(s[i].0@),
        section_map(s)[s[i].0@] == s[i].1@,
    decreases s.len(),
{
    if i < s.len() - 1 {
        lemma_section_map_index(s.drop_last(), i);
        assert(s.drop_last()[i] == s[i]);
        assert(s.last().0@ != s[i].0@);
    }
}

impl View for IniSection {
    type V = Map<Seq<char>, Seq<char>>;

    open(crate) spec fn view(&self) -> Map<Seq<char>, Seq<char>> {
        entry_map(self.entries@)
    }
}

impl View for Ini {
    type V = Map<Seq<char>, Map<Seq<char>, Seq<char>>>;

    open(crate) spec fn view(&self) -> Map<Seq<char>, Map<Seq<char>, Seq<char>>> {
        section_map(self.sections@)
    }
}

impl IniSection {
    /// No two entries share a key.
    pub open(crate) spec fn wf(&self) -> bool {
        forall|p: int, q: int|
            0 <= p < q < self.entries@.len() ==> self.entries@[p].0@ != self.entries@[q].0@
    }

    /// Get the value for a key.
    ///
    /// Returns `None` if the key is not present.
    pub fn get<'a>(&'a self, key: &str) -> (r: Option<&'a str>)
        requires
            self.wf(),
        ensures
            match r {
                Some(v) => self@.contains_key(key@) && v@ == self@[key@],
                None => !self@.contains_key(key@),
            },
    {
        let k = key.to_owned();
        let mut i: usize = 0;
        while i < self.entries.len()
            invariant
                i <= self.entries@.len(),
                k@ == key@,
                forall|j: int| 0 <= j < i ==> self.entries@[j].0@ != key@,
            decreases self.entries@.len() - i,
        {
            let e = &self.entries[i];
            if e.0 == k {
                proof {
                    lemma_entry_map_index(self.entries@, i as int);
                }
                return Some(self.entries[i].1.as_str());
            }
            i += 1;
        }
        proof {
            lemma_entry_map_contains(self.entries@, key@);
        }
        None
    }

    /// The number of entries the section holds.
    pub fn len(&self) -> (r: usize)
        requires
            self.wf(),
        ensures
            r == self@.dom().len(),
    {
        proof {
            lemma_entry_map_len(self.entries@);
        }
        self.entries.len()
    }
}

/// With pairwise-distinct keys, the map an entry list denotes has exactly one
/// key per entry.
proof fn lemma_entry_map_len(s: Seq<(String, String)>)
    requires
        forall|p: int, q: int| 0 <= p < q < s.len() ==> s[p].0@ != s[q].0@,
    ensures
        entry_map(s).dom().finite(),
        entry_map(s).dom().len() == s.len(),
    decreases s.len(),
{
    if s.len() > 0 {
        lemma_entry_map_len(s.drop_last());
        lemma_entry_map_contains(s.drop_last(), s.last().0@);
        assert(forall|i: int|
            0 <= i < s.drop_last().len() ==> s.drop_last()[i].0@ != s.last().0@);
    }
}

/// With pairwise-distinct names, the map a section list denotes has exactly
/// one name per section.
proof fn lemma_section_map_len(s: Seq<(String, IniSection)>)
    requires
        forall|p: int, q: int| 0 <= p < q < s.len() ==> s[p].0@ != s[q].0@,
    ensures
        section_map(s).dom().finite(),
        section_map(s).dom().len() == s.len(),
    decreases s.len(),
{
    if s.len() > 0 {
        lemma_section_map_len(s.drop_last());
        lemma_section_map_contains(s.drop_last(), s.last().0@);
        assert(forall|i: int|
            0 <= i < s.drop_last().len() ==> s.drop_last()[i].0@ != s.last().0@);
    }
}

impl Ini {
    /// No two sections share a name, and every section is well formed.
    pub open(crate) spec fn wf(&self) -> bool {
        &&& forall|p: int, q: int|
            0 <= p < q < self.sections@.len() ==> self.sections@[p].0@ != self.sections@[q].0@
        &&& forall|i: int| 0 <= i < self.sections@.len() ==> (#[trigger] self.sections@[i].1).wf()
    }

    /// Get the section.
    ///
    /// Returns `None` if the section does not exist in the ini.
    pub fn get_section<'a>(&'a self, section: &str) -> (r: Option<&'a IniSection>)
        requires
            self.wf(),
        ensures
            match r {
                Some(sect) => self@.contains_key(section@) && sect@ == self@[section@]
                    && sect.wf(),
                None => !self@.contains_key(section@),
            },
    {
        let k = section.to_owned();
        let mut i: usize = 0;
        while i < self.sections.len()
            invariant
                i <= self.sections@.len(),
                k@ == section@,
                forall|j: int| 0 <= j < i ==> self.sections@[j].0@ != section@,
            decreases self.sections@.len() - i,
        {
            let e = &self.sections[i];
            if e.0 == k {
                proof {
                    lemma_section_map_index(self.sections@, i as int);
                }
                return Some(&self.sections[i].1);
            }
            i += 1;
        }
        proof {
            lemma_section_map_contains(self.sections@, section@);
        }
        None
    }

    /// The number of sections the document holds.
    pub fn section_count(&self) -> (r: usize)
        requires
            self.wf(),
        ensures
            r == self@.dom().len(),
    {
        proof {
            lemma_section_map_len(self.sections@);
        }
        self.sections.len()
    }
}

impl Default for IniSection {
    /// An empty section.
    fn default() -> (r: IniSection)
        ensures
            r@ == Map::<Seq<char>, Seq<char>>::empty(),
            r.wf(),
    {
        IniSection { entries: Vec::new() }
    }
}

impl Default for Ini {
    /// A document with no sections.
    fn default() -> (r: Ini)
        ensures
            r@ == Map::<Seq<char>, Map<Seq<char>, Seq<char>>>::empty(),
            r.wf(),
    {
        Ini { sections: Vec::new() }
    }
}

/// Lookup idempotence: the lookup contract of `Ini::get_section` and
/// `IniSection::get` pins one result for a given mapping and name, so two
/// results it admits — and hence any two calls with the same arguments on the
/// same value — are equal.
pub proof fn lemma_lookup_idempotent<V>(r1: Option<V>, r2: Option<V>, m: Map<Seq<char>, V>, key: Seq<char>)
    requires
        match r1 {
            Some(v) => m.contains_key(key) && v == m[key],
            None => !m.contains_key(key),
        },
        match r2 {
            Some(v) => m.contains_key(key) && v == m[key],
            None => !m.contains_key(key),
        },
    ensures
        r1 == r2,
{
}

} // verus!
