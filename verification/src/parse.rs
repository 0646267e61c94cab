//! The parsing engine.
//!
//! `spec_parse` is the functional definition of the format: it folds over the
//! lines of the input, growing a map from section name to section, and stops
//! at the first malformed line with the error the line deserves.
//! `Ini::parse` is the executable parser, and its contract says that it
//! returns exactly the document or the error that `spec_parse` describes.

use crate::document::Ini;
use crate::document::IniSection;
use crate::document::entry_map;
use crate::document::lemma_entry_map_contains;
use crate::document::lemma_section_map_contains;
use crate::document::section_map;
use crate::error::ErrorModel;
use crate::error::IniParsingError;
use crate::lines::spec_lines;
use crate::lines::split_lines;
use crate::text::all_white;
use crate::text::all_whitespace;
use crate::text::find_char;
use crate::text::find_first;
use crate::text::is_white;
use crate::text::lemma_find_first;
use crate::text::lemma_trim_end_pad;
use crate::text::lemma_trim_start_pad;
use crate::text::trim_end_spec;
use crate::text::trim_end_str;
use crate::text::trim_start_spec;
use crate::text::trim_start_str;
use vstd::prelude::*;
use vstd::string::StrSliceExecFns;

verus! {

/// Describes a method for parsing ini files.
///
/// The ini format is not a universally agreed upon standard; programs differ
/// in the small print, most visibly in how whitespace around `=` is handled.
#[derive(Copy, Clone, Debug, PartialEq)]
pub enum IniMode {
    /// Simple X=Y, where everything is passed through verbatim.
    ///
    /// Keys, values and sections cannot be multi-line; keys cannot contain
    /// `=`; keys cannot start with `;`, `#` or `[`; comments must stand on
    /// their own lines with nothing before the comment delimiter.
    Simple,
    /// Same as `Simple`, but whitespace around the `=` is trimmed: trailing
    /// whitespace is stripped from the key and leading whitespace from the
    /// value, so `key = value` means the same as `key=value`.
    SimpleTrimmed,
}

/// The model of a parsed document: section contents by section name.
pub type DocumentModel = Map<Seq<char>, Map<Seq<char>, Seq<char>>>;

/// A line the parser passes over: empty, whitespace only, or a comment (its
/// first character is `;` or `#`).
pub open spec fn spec_skip_line(l: Seq<char>) -> bool {
    l.len() == 0 || l[0] == ';' || l[0] == '#' || all_white(l)
}

/// The key/value split of a non-skipped, non-header line at its first `=`,
/// after the trimming the mode asks for.
pub open spec fn spec_key_value(l: Seq<char>, p: int, mode: IniMode) -> (Seq<char>, Seq<char>) {
    let raw_key = l.take(p);
    let raw_value = l.skip(p + 1);
    match mode {
        IniMode::Simple => (raw_key, raw_value),
        IniMode::SimpleTrimmed => (trim_end_spec(raw_key), trim_start_spec(raw_value)),
    }
}

/// One pass over the remaining lines, `line_no` being the 1-based number of
/// the first of them, `doc` the document built so far and `cur` the name of
/// the section currently open, if any.
pub open spec fn spec_parse_lines(
    lines: Seq<Seq<char>>,
    line_no: nat,
    doc: DocumentModel,
    cur: Option<Seq<char>>,
    mode: IniMode,
) -> Result<DocumentModel, ErrorModel>
    decreases lines.len(),
{
    if lines.len() == 0 {
        Ok(doc)
    } else {
        let l = lines.first();
        let rest = lines.drop_first();
        if spec_skip_line(l) {
            spec_parse_lines(rest, line_no + 1, doc, cur, mode)
        } else if l[0] == '[' {
            match find_first(l, ']') {
                None => Err(ErrorModel::BrokenSectionTitle { line: line_no }),
                Some(e) => {
                    let title = l.subrange(1, e);
                    if doc.contains_key(title) {
                        Err(ErrorModel::DuplicateSection { line: line_no, section: title })
                    } else {
                        spec_parse_lines(
                            rest,
                            line_no + 1,
                            doc.insert(title, Map::empty()),
                            Some(title),
                            mode,
                        )
                    }
                },
            }
        } else {
            match cur {
                None => Err(ErrorModel::ExpectedSectionTitle { line: line_no }),
                Some(name) => match find_first(l, '=') {
                    None => Err(ErrorModel::MissingEquals { line: line_no }),
                    Some(p) => {
                        let kv = spec_key_value(l, p, mode);
                        let sect = doc[name];
                        if sect.contains_key(kv.0) {
                            Err(
                                ErrorModel::DuplicateSectionKey {
                                    line: line_no,
                                    section: name,
                                    key: kv.0,
                                },
                            )
                        } else {
                            spec_parse_lines(
                                rest,
                                line_no + 1,
                                doc.insert(name, sect.insert(kv.0, kv.1)),
                                cur,
                                mode,
                            )
                        }
                    },
                },
            }
        }
    }
}

/// What parsing `text` under `mode` yields: the document, or the error at
/// the first malformed line.
pub open spec fn spec_parse(text: Seq<char>, mode: IniMode) -> Result<DocumentModel, ErrorModel> {
    spec_parse_lines(spec_lines(text), 1, Map::empty(), None, mode)
}

/// The contract of `Ini::parse`: the result is well formed and is, section
/// for section and error for error, what `spec_parse` assigns to the input.
pub open spec fn parse_result_matches(
    r: Result<Ini, IniParsingError>,
    text: Seq<char>,
    mode: IniMode,
) -> bool {
    match r {
        Ok(ini) => ini.wf() && spec_parse(text, mode) == Result::<DocumentModel, ErrorModel>::Ok(
            ini@,
        ),
        Err(e) => spec_parse(text, mode) == Result::<DocumentModel, ErrorModel>::Err(e@),
    }
}

/// The document denoted by the finished sections together with the one still
/// being filled.
spec fn building(done: Seq<(String, IniSection)>, cur: Option<(String, IniSection)>) -> DocumentModel {
    match cur {
        None => section_map(done),
        Some(c) => section_map(done).insert(c.0@, c.1@),
    }
}

/// The name of the section currently being filled, if any.
spec fn cur_label(cur: Option<(String, IniSection)>) -> Option<Seq<char>> {
    match cur {
        None => None,
        Some(c) => Some(c.0@),
    }
}

/// The partial parser state is well formed: finished sections carry pairwise
/// distinct names and distinct keys, and the open section's name is fresh.
spec fn state_wf(done: Seq<(String, IniSection)>, cur: Option<(String, IniSection)>) -> bool {
    &&& forall|p: int, q: int| 0 <= p < q < done.len() ==> done[p].0@ != done[q].0@
    &&& forall|i: int| 0 <= i < done.len() ==> (#[trigger] done[i].1).wf()
    &&& match cur {
        None => true,
        Some(c) => c.1.wf() && forall|i: int| 0 <= i < done.len() ==> done[i].0@ != c.0@,
    }
}

/// Whether the line is ignored by the parser.
fn line_skippable(line: &str) -> (r: bool)
    ensures
        r == spec_skip_line(line@),
{
    if line.unicode_len() == 0 {
        true
    } else {
        let c = line.get_char(0);
        if c == ';' || c == '#' {
            true
        } else {
            all_whitespace(line)
        }
    }
}

/// Whether some finished section carries this name.
fn contains_section(sections: &Vec<(String, IniSection)>, name: &String) -> (r: bool)
    ensures
        r == exists|i: int| 0 <= i < sections@.len() && sections@[i].0@ == name@,
{
    let mut i: usize = 0;
    while i < sections.len()
        invariant
            i <= sections@.len(),
            forall|j: int| 0 <= j < i ==> sections@[j].0@ != name@,
        decreases sections@.len() - i,
    {
        let e = &sections[i];
        if e.0 == *name {
            return true;
        }
        i += 1;
    }
    false
}

/// Whether the open section carries this name.
fn current_matches(cur: &Option<(String, IniSection)>, name: &String) -> (r: bool)
    ensures
        r == match *cur {
            Some(c) => c.0@ == name@,
            None => false,
        },
{
    match cur {
        None => false,
        Some(c) => c.0 == *name,
    }
}

/// Whether the section already holds an entry under this key.
fn section_has_key(sect: &IniSection, key: &String) -> (r: bool)
    ensures
        r == exists|i: int| 0 <= i < sect.entries@.len() && sect.entries@[i].0@ == key@,
{
    let mut i: usize = 0;
    while i < sect.entries.len()
        invariant
            i <= sect.entries@.len(),
            forall|j: int| 0 <= j < i ==> sect.entries@[j].0@ != key@,
        decreases sect.entries@.len() - i,
    {
        let e = &sect.entries[i];
        if e.0 == *key {
            return true;
        }
        i += 1;
    }
    false
}

impl Ini {
    /// Parse the ini.
    ///
    /// The whole input is consumed in a single pass; the result is either the
    /// complete document or the error at the first malformed line, exactly as
    /// `spec_parse` assigns them.
    pub fn parse(string: &str, config: IniMode) -> (r: Result<Ini, IniParsingError>)
        ensures
            parse_result_matches(r, string@, config),
    {
        match config {
            IniMode::Simple => Ini::parse_simple(string, config),
            IniMode::SimpleTrimmed => Ini::parse_simple(string, config),
        }
    }

    fn parse_simple(string: &str, config: IniMode) -> (r: Result<Ini, IniParsingError>)
        ensures
            parse_result_matches(r, string@, config),
    {
        let ghost lv = spec_lines(string@);
        let lines = split_lines(string);
        let mut done: Vec<(String, IniSection)> = Vec::new();
        let mut cur: Option<(String, IniSection)> = None;
        let mut idx: usize = 0;
        proof {
            assert(lv.skip(0) =~= lv);
        }
        while idx < lines.len()
            invariant
                idx <= lines@.len(),
                state_wf(done@, cur),
                spec_parse_lines(
                    lv.skip(idx as int),
                    (idx + 1) as nat,
                    building(done@, cur),
                    cur_label(cur),
                    config,
                ) == spec_parse(string@, config),
            decreases lines@.len() - idx,
        {
            let line: &str = lines[idx];
            let ghost ls = lv.skip(idx as int);
            let ghost doc0 = building(done@, cur);
            let ghost cur0 = cur;
            let ghost done0 = done@;
            proof {
                assert(ls.first() == line@);
                assert(ls.drop_first() =~= lv.skip(idx as int + 1));
            }
            if line_skippable(line) {
                // no state change
            } else {
                let c0 = line.get_char(0);
                if c0 == '[' {
                    match find_char(line, ']') {
                        None => {
                            let e = IniParsingError::BrokenSectionTitle { line_number: idx + 1 };
                            return Err(e);
                        },
                        Some(end) => {
                            proof {
                                lemma_find_first(line@, ']');
                            }
                            let title = line.substring_char(1, end);
                            let title_owned = title.to_owned();
                            let dup = contains_section(&done, &title_owned) || current_matches(
                                &cur,
                                &title_owned,
                            );
                            proof {
                                lemma_section_map_contains(done@, title_owned@);
                                assert(dup == doc0.contains_key(title_owned@));
                            }
                            if dup {
                                let e = IniParsingError::DuplicateSection {
                                    line_number: idx + 1,
                                    section: title_owned,
                                };
                                return Err(e);
                            }
                            let prev = cur;
                            if let Some(p) = prev {
                                done.push(p);
                            }
                            cur = Some((title_owned, IniSection { entries: Vec::new() }));
                            proof {
                                if cur0 is Some {
                                    assert(done@.drop_last() =~= done0);
                                }
                                assert(building(done@, cur) =~= doc0.insert(
                                    cur_label(cur)->Some_0,
                                    Map::empty(),
                                ));
                                assert(entry_map(Seq::<(String, String)>::empty()) =~= Map::<
                                    Seq<char>,
                                    Seq<char>,
                                >::empty());
                            }
                        },
                    }
                } else {
                    match cur {
                        None => {
                            let e = IniParsingError::ExpectedSectionTitle { line_number: idx + 1 };
                            return Err(e);
                        },
                        Some(current) => {
                            let (sname, mut sect) = current;
                            let ghost old_sect = sect;
                            match find_char(line, '=') {
                                None => {
                                    let e = IniParsingError::MissingEquals { line_number: idx + 1 };
                                    return Err(e);
                                },
                                Some(p) => {
                                    proof {
                                        lemma_find_first(line@, '=');
                                    }
                                    let n = line.unicode_len();
                                    let raw_key = line.substring_char(0, p);
                                    let raw_value = line.substring_char(p + 1, n);
                                    let key_str = match config {
                                        IniMode::Simple => raw_key,
                                        IniMode::SimpleTrimmed => trim_end_str(raw_key),
                                    };
                                    let value_str = match config {
                                        IniMode::Simple => raw_value,
                                        IniMode::SimpleTrimmed => trim_start_str(raw_value),
                                    };
                                    let key = key_str.to_owned();
                                    let value = value_str.to_owned();
                                    proof {
                                        assert((key@, value@) == spec_key_value(
                                            line@,
                                            p as int,
                                            config,
                                        ));
                                        lemma_entry_map_contains(sect.entries@, key@);
                                        assert(doc0[sname@] == sect@);
                                    }
                                    if section_has_key(&sect, &key) {
                                        let e = IniParsingError::DuplicateSectionKey {
                                            line_number: idx + 1,
                                            section: sname,
                                            key,
                                        };
                                        return Err(e);
                                    }
                                    sect.entries.push((key, value));
                                    cur = Some((sname, sect));
                                    proof {
                                        assert(sect.entries@.drop_last() =~= old_sect.entries@);
                                        assert(building(done@, cur) =~= doc0.insert(
                                            sname@,
                                            old_sect@.insert(key@, value@),
                                        ));
                                        assert forall|a: int, b: int|
                                            0 <= a < b < sect.entries@.len() implies sect.entries@[a].0@
                                            != sect.entries@[b].0@ by {
                                            if b == sect.entries@.len() - 1 {
                                                assert(sect.entries@[a].0@
                                                    == old_sect.entries@[a].0@);
                                            }
                                        }
                                    }
                                },
                            }
                        },
                    }
                }
            }
            idx += 1;
        }
        let ghost done_g = done@;
        let ghost cur_g = cur;
        proof {
            assert(lv.skip(lines@.len() as int) =~= Seq::<Seq<char>>::empty());
        }
        let mut sections = done;
        if let Some(p) = cur {
            sections.push(p);
        }
        let ini = Ini { sections };
        proof {
            if cur_g is Some {
                assert(ini.sections@.drop_last() =~= done_g);
            }
            assert(ini@ == building(done_g, cur_g));
        }
        Ok(ini)
    }
}

/// A key/value line whose split at the first `=` carries no whitespace next
/// to the `=`: trimming such a line changes nothing.
pub open spec fn line_untrimmable(l: Seq<char>) -> bool {
    match find_first(l, '=') {
        None => true,
        Some(p) => trim_end_spec(l.take(p)) == l.take(p) && trim_start_spec(l.skip(p + 1))
            == l.skip(p + 1),
    }
}

/// No line of `text` holds whitespace next to the `=` of its key/value split.
pub open spec fn no_padding(text: Seq<char>) -> bool {
    forall|i: int|
        0 <= i < spec_lines(text).len() ==> line_untrimmable(#[trigger] spec_lines(text)[i])
}

proof fn lemma_mode_equivalence_lines(
    lines: Seq<Seq<char>>,
    line_no: nat,
    doc: DocumentModel,
    cur: Option<Seq<char>>,
)
    requires
        forall|i: int| 0 <= i < lines.len() ==> line_untrimmable(#[trigger] lines[i]),
    ensures
        spec_parse_lines(lines, line_no, doc, cur, IniMode::Simple) == spec_parse_lines(
            lines,
            line_no,
            doc,
            cur,
            IniMode::SimpleTrimmed,
        ),
    decreases lines.len(),
{
    if lines.len() > 0 {
        let l = lines.first();
        let rest = lines.drop_first();
        assert(line_untrimmable(lines[0]));
        assert(forall|i: int| 0 <= i < rest.len() ==> rest[i] == lines[i + 1]);
        if spec_skip_line(l) {
            lemma_mode_equivalence_lines(rest, line_no + 1, doc, cur);
        } else if l[0] == '[' {
            match find_first(l, ']') {
                None => {
                },
                Some(e) => {
                    let title = l.subrange(1, e);
                    if !doc.contains_key(title) {
                        lemma_mode_equivalence_lines(
                            rest,
                            line_no + 1,
                            doc.insert(title, Map::empty()),
                            Some(title),
                        );
                    }
                },
            }
        } else {
            match cur {
                None => {
                },
                Some(name) => match find_first(l, '=') {
                    None => {
                    },
                    Some(p) => {
                        assert(spec_key_value(l, p, IniMode::Simple) == spec_key_value(
                            l,
                            p,
                            IniMode::SimpleTrimmed,
                        ));
                        let kv = spec_key_value(l, p, IniMode::Simple);
                        let sect = doc[name];
                        if !sect.contains_key(kv.0) {
                            lemma_mode_equivalence_lines(
                                rest,
                                line_no + 1,
                                doc.insert(name, sect.insert(kv.0, kv.1)),
                                cur,
                            );
                        }
                    },
                },
            }
        }
    }
}

/// Mode equivalence: on an input where no key/value line holds whitespace
/// next to its `=`, the two modes parse to the same result.
pub proof fn lemma_mode_equivalence(text: Seq<char>)
    requires
        no_padding(text),
    ensures
        spec_parse(text, IniMode::Simple) == spec_parse(text, IniMode::SimpleTrimmed),
{
    lemma_mode_equivalence_lines(spec_lines(text), 1, Map::empty(), None);
}

/// A whitespace-padded key/value line under `SimpleTrimmed` splits into
/// exactly the key and value that the unpadded line yields under `Simple`.
pub proof fn lemma_padded_key_value(
    key: Seq<char>,
    pad1: Seq<char>,
    pad2: Seq<char>,
    value: Seq<char>,
)
    requires
        find_first(key, '=') is None,
        all_white(pad1),
        all_white(pad2),
        trim_end_spec(key) == key,
        trim_start_spec(value) == value,
    ensures
        ({
            let plain = key + seq!['='] + value;
            let padded = key + pad1 + seq!['='] + pad2 + value;
            &&& find_first(plain, '=') == Some(key.len() as int)
            &&& find_first(padded, '=') == Some(key.len() + pad1.len() as int)
            &&& spec_key_value(padded, key.len() + pad1.len() as int, IniMode::SimpleTrimmed)
                == spec_key_value(plain, key.len() as int, IniMode::Simple)
        }),
{
    let plain = key + seq!['='] + value;
    let padded = key + pad1 + seq!['='] + pad2 + value;
    lemma_find_first(key, '=');
    assert(!is_white('='));
    let kp = key.len() as int;
    let kq = key.len() + pad1.len() as int;
    assert(plain[kp] == '=');
    assert(padded[kq] == '=');
    assert(forall|j: int| 0 <= j < kp ==> plain[j] != '=');
    assert forall|j: int| 0 <= j < kq implies padded[j] != '=' by {
        if j < kp {
            assert(padded[j] == key[j]);
        } else {
            assert(padded[j] == pad1[j - kp]);
            assert(is_white(pad1[j - kp]));
        }
    }
    lemma_find_first(plain, '=');
    match find_first(plain, '=') {
        None => {
            assert(false);
        },
        Some(i) => {
            if i < kp {
                assert(false);
            }
            if i > kp {
                assert(plain[kp] != '=');
                assert(false);
            }
        },
    }
    lemma_find_first(padded, '=');
    match find_first(padded, '=') {
        None => {
            assert(false);
        },
        Some(i) => {
            if i < kq {
                assert(false);
            }
            if i > kq {
                assert(padded[kq] != '=');
                assert(false);
            }
        },
    }
    assert(plain.take(kp) =~= key);
    assert(plain.skip(kp + 1) =~= value);
    assert(padded.take(kq) =~= key + pad1);
    assert(padded.skip(kq + 1) =~= pad2 + value);
    lemma_trim_end_pad(key, pad1);
    lemma_trim_start_pad(pad2, value);
}

/// Parsing is deterministic: two results that the contract of `Ini::parse`
/// admits for the same input and mode are the same document, or the same
/// error.
pub proof fn lemma_parse_deterministic(
    r1: Result<Ini, IniParsingError>,
    r2: Result<Ini, IniParsingError>,
    text: Seq<char>,
    mode: IniMode,
)
    requires
        parse_result_matches(r1, text, mode),
        parse_result_matches(r2, text, mode),
    ensures
        match (r1, r2) {
            (Ok(a), Ok(b)) => a@ == b@,
            (Err(a), Err(b)) => a@ == b@,
            _ => false,
        },
{
}

/// Empty input parses to the empty document, not to an error.
pub proof fn lemma_empty_input(mode: IniMode)
    ensures
        spec_parse(Seq::empty(), mode) == Result::<DocumentModel, ErrorModel>::Ok(
            Map::<Seq<char>, Map<Seq<char>, Seq<char>>>::empty(),
        ),
{
    assert(spec_lines(Seq::empty()) =~= Seq::<Seq<char>>::empty());
}


/// `l2` is `l1` — a key/value line split by its first `=` into a key with no
/// trailing whitespace and a value with no leading whitespace — with
/// whitespace inserted around that `=`.
pub open spec fn padded_variant_line(l2: Seq<char>, l1: Seq<char>) -> bool {
    &&& !spec_skip_line(l1)
    &&& l1[0] != '['
    &&& match (find_first(l1, '='), find_first(l2, '=')) {
        (Some(p1), Some(p2)) => {
            let key = l1.take(p1);
            let value = l1.skip(p1 + 1);
            &&& trim_end_spec(key) == key
            &&& trim_start_spec(value) == value
            &&& p1 <= p2
            &&& l2.take(p1) == key
            &&& all_white(l2.subrange(p1, p2))
            &&& l2.len() - p2 - 1 >= value.len()
            &&& all_white(l2.subrange(p2 + 1, l2.len() - value.len()))
            &&& l2.skip(l2.len() - value.len()) == value
        },
        _ => false,
    }
}

/// `t2` is `t1` with whitespace inserted around the `=` of key/value lines:
/// line for line, either the texts agree (and the line is skipped, a section
/// header, or a line with no `=` at all), or the line is a padded variant of
/// the original key/value line.
pub open spec fn padded_variant(t2: Seq<char>, t1: Seq<char>) -> bool {
    let lines1 = spec_lines(t1);
    let lines2 = spec_lines(t2);
    &&& lines2.len() == lines1.len()
    &&& forall|i: int|
        0 <= i < lines1.len() ==> {
            ||| (#[trigger] lines2[i]) == (#[trigger] lines1[i]) && (spec_skip_line(lines1[i])
                || lines1[i][0] == '[' || find_first(lines1[i], '=') is None)
            ||| padded_variant_line(lines2[i], lines1[i])
        }
}

proof fn lemma_padded_variant_lines(
    lines2: Seq<Seq<char>>,
    lines1: Seq<Seq<char>>,
    line_no: nat,
    doc: DocumentModel,
    cur: Option<Seq<char>>,
)
    requires
        lines2.len() == lines1.len(),
        forall|i: int|
            0 <= i < lines1.len() ==> {
                ||| (#[trigger] lines2[i]) == (#[trigger] lines1[i]) && (spec_skip_line(lines1[i])
                    || lines1[i][0] == '[' || find_first(lines1[i], '=') is None)
                ||| padded_variant_line(lines2[i], lines1[i])
            },
    ensures
        spec_parse_lines(lines2, line_no, doc, cur, IniMode::SimpleTrimmed) == spec_parse_lines(
            lines1,
            line_no,
            doc,
            cur,
            IniMode::Simple,
        ),
    decreases lines1.len(),
{
    if lines1.len() > 0 {
        let l1 = lines1.first();
        let l2 = lines2.first();
        let rest1 = lines1.drop_first();
        let rest2 = lines2.drop_first();
        assert(forall|i: int| 0 <= i < rest1.len() ==> rest1[i] == lines1[i + 1]);
        assert(forall|i: int| 0 <= i < rest2.len() ==> rest2[i] == lines2[i + 1]);
        assert(lines1[0] == l1 && lines2[0] == l2);
        if l2 == l1 && (spec_skip_line(l1) || l1[0] == '[' || find_first(l1, '=') is None) {
            if spec_skip_line(l1) {
                lemma_padded_variant_lines(rest2, rest1, line_no + 1, doc, cur);
            } else if l1[0] == '[' {
                match find_first(l1, ']') {
                    None => {
                    },
                    Some(e) => {
                        let title = l1.subrange(1, e);
                        if !doc.contains_key(title) {
                            lemma_padded_variant_lines(
                                rest2,
                                rest1,
                                line_no + 1,
                                doc.insert(title, Map::empty()),
                                Some(title),
                            );
                        }
                    },
                }
            } else {
                // no `=`: both modes fail with the same missing-equals error
                // (or the same missing-section error first)
            }
        } else {
            assert(padded_variant_line(l2, l1));
            let p1 = find_first(l1, '=')->Some_0;
            let p2 = find_first(l2, '=')->Some_0;
            lemma_find_first(l1, '=');
            lemma_find_first(l2, '=');
            let key = l1.take(p1);
            let value = l1.skip(p1 + 1);
            let pad1 = l2.subrange(p1, p2);
            let pad2 = l2.subrange(p2 + 1, l2.len() - value.len());
            // the padded line is still an ordinary key/value line
            assert(!is_white('='));
            assert(l2[p2] == '=');
            assert(!all_white(l2));
            if p1 > 0 {
                assert(l2.take(p1)[0] == l2[0]);
                assert(key[0] == l1[0]);
                assert(l2[0] == l1[0]);
            } else {
                assert(l1[0] == '=');
                if p2 > 0 {
                    assert(pad1[0] == l2[0]);
                    assert(is_white(pad1[0]));
                } else {
                    assert(l2[0] == '=');
                }
            }
            assert(!spec_skip_line(l2));
            assert(l2[0] != '[');
            // the split of the padded line trims back to the original split
            assert(l2.take(p2) =~= key + pad1);
            assert(l2.skip(p2 + 1) =~= pad2 + value);
            lemma_trim_end_pad(key, pad1);
            lemma_trim_start_pad(pad2, value);
            assert(spec_key_value(l2, p2, IniMode::SimpleTrimmed) == spec_key_value(
                l1,
                p1,
                IniMode::Simple,
            ));
            match cur {
                None => {
                },
                Some(name) => {
                    let kv = spec_key_value(l1, p1, IniMode::Simple);
                    let sect = doc[name];
                    if !sect.contains_key(kv.0) {
                        lemma_padded_variant_lines(
                            rest2,
                            rest1,
                            line_no + 1,
                            doc.insert(name, sect.insert(kv.0, kv.1)),
                            cur,
                        );
                    }
                },
            }
        }
    }
}

/// Padding a document with whitespace around the `=` of its key/value lines
/// and parsing it under `SimpleTrimmed` yields what the unpadded original
/// yields under `Simple` — the same document, or the same error at the same
/// line.
pub proof fn lemma_padded_variant(t2: Seq<char>, t1: Seq<char>)
    requires
        padded_variant(t2, t1),
    ensures
        spec_parse(t2, IniMode::SimpleTrimmed) == spec_parse(t1, IniMode::Simple),
{
    lemma_padded_variant_lines(spec_lines(t2), spec_lines(t1), 1, Map::empty(), None);
}

/// A line built as `key + pad1 + '=' + pad2 + value` is a padded variant of
/// the line `key + '=' + value`, whenever the unpadded line is an ordinary
/// key/value line (not skipped and not a section header).
pub proof fn lemma_padded_variant_line_built(
    key: Seq<char>,
    pad1: Seq<char>,
    pad2: Seq<char>,
    value: Seq<char>,
)
    requires
        find_first(key, '=') is None,
        all_white(pad1),
        all_white(pad2),
        trim_end_spec(key) == key,
        trim_start_spec(value) == value,
        !spec_skip_line(key + seq!['='] + value),
        (key + seq!['='] + value)[0] != '[',
    ensures
        padded_variant_line(key + pad1 + seq!['='] + pad2 + value, key + seq!['='] + value),
{
    let plain = key + seq!['='] + value;
    let padded = key + pad1 + seq!['='] + pad2 + value;
    lemma_padded_key_value(key, pad1, pad2, value);
    let p1 = key.len() as int;
    let p2 = key.len() + pad1.len() as int;
    assert(plain.take(p1) =~= key);
    assert(plain.skip(p1 + 1) =~= value);
    assert(padded.take(p1) =~= key);
    assert(padded.subrange(p1, p2) =~= pad1);
    assert(padded.len() - p2 - 1 == pad2.len() + value.len());
    assert(padded.subrange(p2 + 1, padded.len() - value.len()) =~= pad2);
    assert(padded.skip(padded.len() - value.len()) =~= value);
}

} // verus!
