//! The INI file format.
//!
//! - `[section]` headers
//! - `key = value` entries
//! - `#` line comments
//! - `;` comments after white space
//! - continuation lines, which start with white space and hold no `key =` of
//!   their own

use crate::error;
use crate::error::{Error, ErrorView};
use crate::table;
use crate::text;
use crate::text::find;
use crate::text::number;
use crate::text::split;
use crate::text::trim;
use crate::text::Text;
use indexmap::IndexMap;
use vstd::prelude::*;

verus! {

/// A section: a name, and values under keys in the order of the file.
#[derive(Debug)]
pub struct IniSection {
    /// The section's name, such as `DEFAULT` or `sshd`.
    pub name: String,
    /// The values under their keys.
    pub entries: IndexMap<String, String>,
}

/// The model of a section.
#[verifier::ext_equal]
pub struct SectionView {
    pub name: Text,
    pub entries: Seq<(Text, Text)>,
}

impl View for IniSection {
    type V = SectionView;

    open spec fn view(&self) -> SectionView {
        SectionView { name: self.name@, entries: table::entries(self.entries) }
    }
}

/// A document: sections in the order of the file.
#[derive(Debug)]
pub struct IniDocument {
    /// The sections; several may have the same name.
    pub sections: Vec<IniSection>,
}

impl View for IniDocument {
    type V = Seq<SectionView>;

    open spec fn view(&self) -> Seq<SectionView> {
        sections_view(self.sections@)
    }
}

/// The models of sections.
pub open spec fn sections_view(s: Seq<IniSection>) -> Seq<SectionView> {
    s.map_values(|x: IniSection| x@)
}

/// A section without entries.
pub open spec fn bare(name: Text) -> SectionView {
    SectionView { name, entries: Seq::empty() }
}

/// A section after a key is given a value.
pub open spec fn with_value(s: SectionView, key: Text, value: Text) -> SectionView {
    SectionView { name: s.name, entries: table::put(s.entries, key, value) }
}

/// A section after a line is added to the value of a key.
pub open spec fn with_line(s: SectionView, key: Text, line: Text) -> SectionView {
    let value = match table::lookup(s.entries, key) {
        Some(v) => if v.len() == 0 {
            line
        } else {
            v + "\n"@ + line
        },
        None => line,
    };
    with_value(s, key, value)
}

/// The first position of a section with the name, or the number of sections
/// where there is none.
pub open spec fn section_slot(d: Seq<SectionView>, name: Text) -> int
    decreases d.len(),
{
    if d.len() == 0 || d[0].name == name {
        0
    } else {
        1 + section_slot(d.drop_first(), name)
    }
}

/// The first section with the name.
pub open spec fn section_of(d: Seq<SectionView>, name: Text) -> Option<SectionView> {
    if section_slot(d, name) < d.len() {
        Some(d[section_slot(d, name)])
    } else {
        None
    }
}

/// The document with a section of that name: as it is where it has one, with
/// a section without entries at its end where it has none.
pub open spec fn with_section(d: Seq<SectionView>, name: Text) -> Seq<SectionView> {
    if section_slot(d, name) < d.len() {
        d
    } else {
        d.push(bare(name))
    }
}

/// A document after the entries of a section are put into its section of the
/// same name.
pub open spec fn absorbed(d: Seq<SectionView>, s: SectionView) -> Seq<SectionView> {
    let w = with_section(d, s.name);
    let i = section_slot(d, s.name);
    w.update(
        i,
        SectionView { name: w[i].name, entries: table::put_all(w[i].entries, s.entries) },
    )
}

/// A document after another is merged into it, section by section.
pub open spec fn merged(d: Seq<SectionView>, more: Seq<SectionView>) -> Seq<SectionView>
    decreases more.len(),
{
    if more.len() == 0 {
        d
    } else {
        absorbed(merged(d, more.drop_last()), more.last())
    }
}

/// The sections with the name, in their order.
pub open spec fn all_named(d: Seq<SectionView>, name: Text) -> Seq<SectionView>
    decreases d.len(),
{
    if d.len() == 0 {
        Seq::empty()
    } else if d.last().name == name {
        all_named(d.drop_last(), name).push(d.last())
    } else {
        all_named(d.drop_last(), name)
    }
}

pub proof fn lemma_section_slot(d: Seq<SectionView>, name: Text)
    ensures
        0 <= section_slot(d, name) <= d.len(),
        section_slot(d, name) < d.len() ==> d[section_slot(d, name)].name == name,
        forall|i: int| 0 <= i < section_slot(d, name) ==> (#[trigger] d[i]).name != name,
    decreases d.len(),
{
    if d.len() > 0 && d[0].name != name {
        let t = d.drop_first();
        lemma_section_slot(t, name);
        assert forall|i: int| 0 <= i < section_slot(d, name) implies (#[trigger] d[i]).name
            != name by {
            if i > 0 {
                assert(d[i] == t[i - 1]);
            }
        }
    }
}

pub proof fn lemma_section_slot_at(d: Seq<SectionView>, name: Text, i: int)
    requires
        0 <= i <= d.len(),
        forall|j: int| 0 <= j < i ==> (#[trigger] d[j]).name != name,
        i < d.len() ==> d[i].name == name,
    ensures
        section_slot(d, name) == i,
{
    lemma_section_slot(d, name);
    if section_slot(d, name) < i {
        assert(d[section_slot(d, name)].name != name);
    }
}

impl Default for IniSection {
    fn default() -> (r: IniSection)
        ensures
            r@ == bare(Seq::empty()),
    {
        let r = IniSection { name: String::new(), entries: table::new_table() };
        assert(r@ =~= bare(Seq::empty()));
        r
    }
}

impl IniSection {
    /// A section without entries.
    pub fn named(name: &str) -> (r: IniSection)
        ensures
            r@ == bare(name@),
    {
        IniSection { name: name.to_owned(), entries: table::new_table() }
    }

    /// The value of a key.
    pub fn get(&self, key: &str) -> (r: Option<&str>)
        ensures
            text::opt_str(r) == table::lookup(self@.entries, key@),
    {
        table::get(&self.entries, key)
    }

    /// The value of a key, or `default` where there is none.
    pub fn get_or<'a>(&'a self, key: &str, default: &'a str) -> (r: &'a str)
        ensures
            r@ == (match table::lookup(self@.entries, key@) {
                Some(v) => v,
                None => default@,
            }),
    {
        match self.get(key) {
            Some(v) => v,
            None => default,
        }
    }

    /// Gives a key a value.
    pub fn set(&mut self, key: &str, value: &str)
        ensures
            final(self)@ == with_value(old(self)@, key@, value@),
    {
        table::insert(&mut self.entries, key.to_owned(), value.to_owned());
    }

    /// Adds a line to the value of a key.
    pub fn append(&mut self, key: &str, suffix: &str)
        ensures
            final(self)@ == with_line(old(self)@, key@, suffix@),
    {
        let value = match self.get(key) {
            Some(v) => if v.is_empty() {
                suffix.to_owned()
            } else {
                text::cat3(v, "\n", suffix)
            },
            None => suffix.to_owned(),
        };
        table::insert(&mut self.entries, key.to_owned(), value);
    }

    /// Whether the section has no entries.
    pub fn is_empty(&self) -> (r: bool)
        ensures
            r == (self@.entries.len() == 0),
    {
        table::size(&self.entries) == 0
    }
}

impl Clone for IniSection {
    fn clone(&self) -> (r: IniSection)
        ensures
            r@ == self@,
    {
        IniSection { name: self.name.clone(), entries: table::copy(&self.entries) }
    }
}

impl Clone for IniDocument {
    fn clone(&self) -> (r: IniDocument)
        ensures
            r@ == self@,
    {
        let mut sections: Vec<IniSection> = Vec::new();
        let mut i: usize = 0;
        while i < self.sections.len()
            invariant
                i <= self.sections.len(),
                sections_view(sections@) == self@.take(i as int),
            decreases self.sections.len() - i,
        {
            let ghost before = sections@;
            let s = self.sections[i].clone();
            sections.push(s);
            i += 1;
            assert(sections_view(sections@) =~= self@.take(i as int)) by {
                assert(sections_view(sections@) =~= sections_view(before).push(s@));
            }
        }
        assert(self@.take(i as int) =~= self@);
        IniDocument { sections }
    }
}

impl Default for IniDocument {
    fn default() -> (r: IniDocument)
        ensures
            r@ == Seq::<SectionView>::empty(),
    {
        IniDocument::new()
    }
}

impl IniDocument {
    /// A document without sections.
    pub fn new() -> (r: IniDocument)
        ensures
            r@ == Seq::<SectionView>::empty(),
    {
        let r = IniDocument { sections: Vec::new() };
        assert(r@ =~= Seq::<SectionView>::empty());
        r
    }

    /// The first position of a section with the name.
    fn slot(&self, name: &str) -> (r: usize)
        ensures
            r == section_slot(self@, name@),
            r <= self.sections.len(),
    {
        let mut i: usize = 0;
        while i < self.sections.len() && !text::same(self.sections[i].name.as_str(), name)
            invariant
                i <= self.sections.len(),
                forall|j: int| 0 <= j < i ==> (#[trigger] self@[j]).name != name@,
            decreases self.sections.len() - i,
        {
            assert(self@[i as int] == self.sections@[i as int]@);
            i += 1;
        }
        proof {
            if i < self.sections.len() {
                assert(self@[i as int] == self.sections@[i as int]@);
            }
            lemma_section_slot_at(self@, name@, i as int);
        }
        i
    }

    /// The first section with the name.
    pub fn section(&self, name: &str) -> (r: Option<&IniSection>)
        ensures
            match r {
                Some(s) => section_of(self@, name@) == Some(s@),
                None => section_of(self@, name@) is None,
            },
    {
        let i = self.slot(name);
        if i < self.sections.len() {
            Some(&self.sections[i])
        } else {
            None
        }
    }

    /// The first section with the name, to be changed in place.
    pub fn section_mut(&mut self, name: &str) -> (r: Option<&mut IniSection>)
        ensures
            match r {
                Some(s) => {
                    &&& section_slot(old(self)@, name@) < old(self)@.len()
                    &&& s@ == old(self)@[section_slot(old(self)@, name@)]
                    &&& final(self)@ == old(self)@.update(
                        section_slot(old(self)@, name@),
                        final(s)@,
                    )
                },
                None => section_of(old(self)@, name@) is None && final(self)@ == old(self)@,
            },
    {
        let i = self.slot(name);
        if i < self.sections.len() {
            Some(&mut self.sections[i])
        } else {
            None
        }
    }

    /// The sections with the name, in their order.
    pub fn sections_named(&self, name: &str) -> (r: Vec<&IniSection>)
        ensures
            r@.map_values(|s: &IniSection| s@) == all_named(self@, name@),
    {
        let mut out: Vec<&IniSection> = Vec::new();
        let mut i: usize = 0;
        proof {
            assert(self@.take(0) =~= Seq::empty());
            assert(out@.map_values(|s: &IniSection| s@) =~= Seq::empty());
        }
        while i < self.sections.len()
            invariant
                i <= self.sections.len(),
                out@.map_values(|s: &IniSection| s@) == all_named(self@.take(i as int), name@),
            decreases self.sections.len() - i,
        {
            let ghost before = out@;
            proof {
                assert(self@.take(i + 1).drop_last() =~= self@.take(i as int));
                assert(self@.take(i + 1).last() == self.sections@[i as int]@);
            }
            if text::same(self.sections[i].name.as_str(), name) {
                out.push(&self.sections[i]);
                assert(out@.map_values(|s: &IniSection| s@) =~= before.map_values(
                    |s: &IniSection| s@,
                ).push(self.sections@[i as int]@));
            }
            i += 1;
        }
        assert(self@.take(i as int) =~= self@);
        out
    }

    /// The first section with the name, to be changed in place; a new one at
    /// the end where there is none.
    pub fn section_or_insert(&mut self, name: &str) -> (r: &mut IniSection)
        ensures
            section_slot(old(self)@, name@) < with_section(old(self)@, name@).len(),
            r@ == with_section(old(self)@, name@)[section_slot(old(self)@, name@)],
            final(self)@ == with_section(old(self)@, name@).update(
                section_slot(old(self)@, name@),
                final(r)@,
            ),
    {
        let i = self.slot(name);
        if i >= self.sections.len() {
            self.sections.push(IniSection::named(name));
        }
        &mut self.sections[i]
    }

    /// Merges a document into this one: the entries of each of its sections go
    /// into the section of the same name, and replace what stands there.
    pub fn merge(&mut self, other: IniDocument)
        ensures
            final(self)@ == merged(old(self)@, other@),
    {
        let ghost start = self@;
        let mut i: usize = 0;
        assert(other@.take(0) =~= Seq::empty());
        while i < other.sections.len()
            invariant
                i <= other.sections.len(),
                self@ == merged(start, other@.take(i as int)),
            decreases other.sections.len() - i,
        {
            proof {
                assert(other@.take(i + 1).drop_last() =~= other@.take(i as int));
                assert(other@.take(i + 1).last() == other.sections@[i as int]@);
            }
            let sec = &other.sections[i];
            let target = self.section_or_insert(sec.name.as_str());
            table::insert_all(&mut target.entries, &sec.entries);
            i += 1;
        }
        assert(other@.take(i as int) =~= other@);
    }
}

/// The first position, from `i` on, of a `;` that follows a blank or a tab;
/// the text's length where there is none.
pub open spec fn comment_start(s: Text, i: int) -> int
    decreases s.len() - i,
{
    if i >= s.len() {
        s.len() as int
    } else if i > 0 && s[i] == ';' && (s[i - 1] == ' ' || s[i - 1] == '\t') {
        i
    } else {
        comment_start(s, i + 1)
    }
}

/// The text without the comment at its end: without the first `;` that follows
/// a blank or a tab, what comes after it and the white space before it.
pub open spec fn uncommented(s: Text) -> Text {
    let i = comment_start(s, 0);
    if i < s.len() {
        trim::end_trimmed(s.take(i))
    } else {
        s
    }
}

/// What has been read of a document: its sections, and the key that a
/// continuation line belongs to.
pub struct Reading {
    pub doc: Seq<SectionView>,
    pub key: Option<Text>,
}

/// An error at a line.
pub open spec fn line_error(lineno: nat, what: Text) -> ErrorView {
    ErrorView::Config("line "@ + number::decimal(lineno) + ": "@ + what)
}

/// The document with its last section changed to `s`.
pub open spec fn with_last(d: Seq<SectionView>, s: SectionView) -> Seq<SectionView> {
    d.update(d.len() - 1, s)
}

/// A character of an option's name.
pub open spec fn in_name(c: char) -> bool {
    text::is_letter(c) || text::is_digit(c) || c == '_' || c == '-' || c == '.'
}

/// Whether a text is one option's name.
pub open spec fn bare_name(s: Text) -> bool {
    s.len() > 0 && forall|i: int| 0 <= i < s.len() ==> in_name(#[trigger] s[i])
}

/// Whether a line has a key of its own: what stands before its first `=` is
/// one option's name.
pub open spec fn has_own_key(t: Text) -> bool {
    match find::cut(t, '=') {
        Some((k, _)) => bare_name(trim::trimmed(k)),
        None => false,
    }
}

/// Reads one line; `lineno` counts from 1.
pub open spec fn read_line(st: Reading, raw: Text, lineno: nat) -> Result<Reading, ErrorView> {
    let line = trim::end_stripped(raw, '\r');
    let body = trim::trimmed(line);
    let t = uncommented(body);
    let indented = line.len() > 0 && (line[0] == ' ' || line[0] == '\t');
    let continues = indented && st.key is Some && !has_own_key(t);
    if body.len() == 0 || body[0] == '#' {
        Ok(st)
    } else if continues {
        if st.doc.len() == 0 {
            Ok(st)
        } else {
            Ok(
                Reading {
                    doc: with_last(
                        st.doc,
                        with_line(st.doc.last(), st.key->0, trim::trimmed(t)),
                    ),
                    key: st.key,
                },
            )
        }
    } else if t.len() > 0 && t[0] == '[' {
        let end = find::find(t, ']');
        if end < t.len() {
            Ok(Reading { doc: st.doc.push(bare(trim::trimmed(t.subrange(1, end)))), key: None })
        } else {
            Err(line_error(lineno, "missing ] in header"@))
        }
    } else {
        match find::cut(t, '=') {
            None => Err(line_error(lineno, "expected key = value"@)),
            Some((k, v)) => {
                let key = trim::trimmed(k);
                if st.doc.len() == 0 {
                    Err(line_error(lineno, "entry before any [section]"@))
                } else {
                    Ok(
                        Reading {
                            doc: with_last(
                                st.doc,
                                with_value(st.doc.last(), key, trim::trimmed(uncommented(v))),
                            ),
                            key: Some(key),
                        },
                    )
                }
            },
        }
    }
}

/// Reads the lines from position `i` on.
pub open spec fn read_lines(lines: Seq<Text>, i: int, st: Reading) -> Result<
    Seq<SectionView>,
    ErrorView,
>
    decreases lines.len() - i,
{
    if i >= lines.len() {
        Ok(st.doc)
    } else {
        match read_line(st, lines[i], (i + 1) as nat) {
            Ok(next) => read_lines(lines, i + 1, next),
            Err(e) => Err(e),
        }
    }
}

/// The document that a text describes.
pub open spec fn ini_of(input: Text) -> Result<Seq<SectionView>, ErrorView> {
    read_lines(split::lines_of(input), 0, Reading { doc: Seq::empty(), key: None })
}

/// The string without the comment at its end.
pub fn strip_inline_comment(s: &str) -> (r: &str)
    ensures
        r@ == uncommented(s@),
{
    let v = text::chars_of(s);
    let mut last_ws = false;
    let mut i: usize = 0;
    while i < v.len()
        invariant
            i <= v.len(),
            v@ == s@,
            last_ws == (i > 0 && (s@[i - 1] == ' ' || s@[i - 1] == '\t')),
            comment_start(s@, 0) == comment_start(s@, i as int),
        decreases v.len() - i,
    {
        let c = v[i];
        if c == ';' && last_ws {
            return trim::trim_end(s.substring_char(0, i));
        }
        last_ws = c == ' ' || c == '\t';
        i += 1;
    }
    s
}

fn is_bare_name(s: &str) -> (r: bool)
    ensures
        r == bare_name(s@),
{
    let v = text::chars_of(s);
    let mut i: usize = 0;
    while i < v.len()
        invariant
            i <= v.len(),
            v@ == s@,
            forall|j: int| 0 <= j < i ==> in_name(#[trigger] s@[j]),
        decreases v.len() - i,
    {
        let c = v[i];
        if !(text::letter(c) || text::digit(c) || c == '_' || c == '-' || c == '.') {
            assert(!in_name(s@[i as int]));
            return false;
        }
        i += 1;
    }
    v.len() > 0
}

fn owns_key(t: &str) -> (r: bool)
    ensures
        r == has_own_key(t@),
{
    match find::split_once(t, '=') {
        Some((k, _)) => is_bare_name(trim::trim(k)),
        None => false,
    }
}

fn fault(lineno: usize, what: &str) -> (e: Error)
    ensures
        e@ == line_error(lineno as nat, what@),
{
    let n = number::to_decimal(lineno as u64);
    Error::Config(text::cat4("line ", n.as_str(), ": ", what))
}

/// Reads a document.
pub fn parse_ini(input: &str) -> (r: Result<IniDocument, Error>)
    ensures
        error::outcome(r) == ini_of(input@),
{
    let lines = split::lines(input);
    let ghost all = text::texts(lines@);
    let mut doc = IniDocument::new();
    let mut current: Option<String> = None;
    let mut i: usize = 0;
    while i < lines.len()
        invariant
            i <= lines.len(),
            all == text::texts(lines@),
            ini_of(input@) == read_lines(
                all,
                i as int,
                (Reading { doc: doc@, key: text::opt_text(current) }),
            ),
        decreases lines.len() - i,
    {
        let ghost st = Reading { doc: doc@, key: text::opt_text(current) };
        let line = trim::strip_end(lines[i].as_str(), '\r');
        assert(all[i as int] == lines@[i as int]@);
        i += 1;
        let n = line.unicode_len();
        let indented = n > 0 && (line.get_char(0) == ' ' || line.get_char(0) == '\t');
        let trimmed = trim::trim(line);
        if trimmed.is_empty() || trimmed.get_char(0) == '#' {
            continue;
        }
        let body = strip_inline_comment(trimmed);
        if indented && !owns_key(body) {
            if let Some(key) = &current {
                let m = doc.sections.len();
                if m > 0 {
                    let more = trim::trim(body);
                    let ghost before = doc@;
                    doc.sections[m - 1].append(key.as_str(), more);
                    assert(doc@ =~= with_last(before, with_line(before.last(), key@, more@)));
                }
                continue;
            }
        }
        if !body.is_empty() && body.get_char(0) == '[' {
            match find::position(body, ']') {
                Some(end) => {
                    proof {
                        find::lemma_find(body@, ']');
                    }
                    let name = trim::trim(body.substring_char(1, end));
                    let ghost before = doc@;
                    doc.sections.push(IniSection::named(name));
                    current = None;
                    assert(doc@ =~= before.push(bare(name@)));
                },
                None => {
                    return Err(fault(i, "missing ] in header"));
                },
            }
            continue;
        }
        match find::split_once(body, '=') {
            None => {
                return Err(fault(i, "expected key = value"));
            },
            Some((k, v)) => {
                let key = trim::trim(k);
                let value = trim::trim(strip_inline_comment(v));
                let m = doc.sections.len();
                if m == 0 {
                    return Err(fault(i, "entry before any [section]"));
                }
                let ghost before = doc@;
                doc.sections[m - 1].set(key, value);
                current = Some(key.to_owned());
                assert(doc@ =~= with_last(before, with_value(before.last(), key@, value@)));
            },
        }
    }
    Ok(doc)
}

/// The value of a key in the first section with the name.
pub open spec fn value_of(d: Seq<SectionView>, name: Text, key: Text) -> Option<Text> {
    match section_of(d, name) {
        Some(s) => table::lookup(s.entries, key),
        None => None,
    }
}

/// The value that a document gives a key last, over all of its sections with
/// the name.
pub open spec fn last_setting(d: Seq<SectionView>, name: Text, key: Text) -> Option<Text>
    decreases d.len(),
{
    if d.len() == 0 {
        None
    } else if d.last().name == name && table::last_value(d.last().entries, key) is Some {
        table::last_value(d.last().entries, key)
    } else {
        last_setting(d.drop_last(), name, key)
    }
}

/// After a value is set, getting it gives it back, and the other keys are as
/// they were.
pub proof fn law_set_get(s: SectionView, key: Text, value: Text, other: Text)
    ensures
        table::lookup(with_value(s, key, value).entries, key) == Some(value),
        other != key ==> table::lookup(with_value(s, key, value).entries, other) == table::lookup(
            s.entries,
            other,
        ),
{
    table::law_put_lookup(s.entries, key, value, other);
}

proof fn lemma_end_trimmed_start(s: Text)
    requires
        s.len() > 0,
        !trim::is_space(s[0]),
    ensures
        trim::end_trimmed(s).len() > 0,
        trim::end_trimmed(s)[0] == s[0],
    decreases s.len(),
{
    if trim::is_space(s.last()) {
        lemma_end_trimmed_start(s.drop_last());
    }
}

/// A line with a key of its own gives that key its value, whether it is
/// indented or not, and no other key.
pub proof fn law_own_key_is_set(st: Reading, raw: Text, lineno: nat, other: Text)
    requires
        st.doc.len() > 0,
        ({
            let body = trim::trimmed(trim::end_stripped(raw, '\r'));
            body.len() > 0 && body[0] != '#' && has_own_key(uncommented(body))
        }),
    ensures
        ({
            let body = trim::trimmed(trim::end_stripped(raw, '\r'));
            let (k, v) = find::cut(uncommented(body), '=')->0;
            let key = trim::trimmed(k);
            let before = st.doc.last().entries;
            &&& read_line(st, raw, lineno) is Ok
            &&& read_line(st, raw, lineno)->Ok_0.key == Some(key)
            &&& ({
                let after = read_line(st, raw, lineno)->Ok_0.doc.last().entries;
                &&& table::lookup(after, key) == Some(trim::trimmed(uncommented(v)))
                &&& other != key ==> table::lookup(after, other) == table::lookup(before, other)
            })
        }),
{
    let body = trim::trimmed(trim::end_stripped(raw, '\r'));
    let t = uncommented(body);
    let (k, v) = find::cut(t, '=')->0;
    let key = trim::trimmed(k);
    find::lemma_find(t, '=');
    if t[0] == '[' {
        assert(k[0] == '[');
        lemma_end_trimmed_start(k);
        assert(in_name(key[0]));
    }
    law_set_get(st.doc.last(), key, trim::trimmed(uncommented(v)), other);
}

proof fn lemma_absorbed_value(d: Seq<SectionView>, s: SectionView, name: Text, key: Text)
    ensures
        value_of(absorbed(d, s), name, key) == (if name == s.name && table::last_value(
            s.entries,
            key,
        ) is Some {
            table::last_value(s.entries, key)
        } else {
            value_of(d, name, key)
        }),
{
    let i = section_slot(d, s.name);
    let w = with_section(d, s.name);
    let a = absorbed(d, s);
    lemma_section_slot(d, s.name);
    lemma_section_slot(d, name);
    table::law_put_all_lookup(w[i].entries, s.entries, key);
    if name == s.name {
        lemma_section_slot_at(a, name, i);
    } else {
        let j = section_slot(d, name);
        if j < d.len() || i < d.len() {
            lemma_section_slot_at(a, name, j);
        } else {
            lemma_section_slot_at(a, name, j + 1);
        }
    }
}

/// After a merge, a key has the value that the merged document gives it last,
/// and where it gives none, the value that it had.
pub proof fn law_merge_later_wins(
    d: Seq<SectionView>,
    more: Seq<SectionView>,
    name: Text,
    key: Text,
)
    ensures
        value_of(merged(d, more), name, key) == (match last_setting(more, name, key) {
            Some(v) => Some(v),
            None => value_of(d, name, key),
        }),
    decreases more.len(),
{
    if more.len() > 0 {
        law_merge_later_wins(d, more.drop_last(), name, key);
        lemma_absorbed_value(merged(d, more.drop_last()), more.last(), name, key);
    }
}

/// The entries of all of the sections, put one after the other onto `acc`.
pub open spec fn put_sections(acc: Seq<(Text, Text)>, secs: Seq<SectionView>) -> Seq<(Text, Text)>
    decreases secs.len(),
{
    if secs.len() == 0 {
        acc
    } else {
        table::put_all(put_sections(acc, secs.drop_last()), secs.last().entries)
    }
}

/// Puts the entries of all sections with the name into `acc`.
pub fn insert_sections(acc: &mut IndexMap<String, String>, doc: &IniDocument, name: &str)
    ensures
        table::entries(*final(acc)) == put_sections(
            table::entries(*old(acc)),
            all_named(doc@, name@),
        ),
{
    let secs = doc.sections_named(name);
    let ghost all = all_named(doc@, name@);
    let ghost start = table::entries(*acc);
    let mut i: usize = 0;
    proof {
        assert(all == secs@.map_values(|s: &IniSection| s@));
        assert(all.take(0) =~= Seq::empty());
    }
    while i < secs.len()
        invariant
            i <= secs.len() == all.len(),
            all == secs@.map_values(|s: &IniSection| s@),
            table::entries(*acc) == put_sections(start, all.take(i as int)),
        decreases secs.len() - i,
    {
        proof {
            assert(all.take(i + 1).drop_last() =~= all.take(i as int));
            assert(all.take(i + 1).last() == secs@[i as int]@);
        }
        table::insert_all(acc, &secs[i].entries);
        i += 1;
    }
    assert(all.take(i as int) =~= all);
}

/// Putting the sections of a name onto entries gives each key the value that
/// the document sets last under the name, and leaves the others as they were.
pub proof fn law_sections_put(acc: Seq<(Text, Text)>, d: Seq<SectionView>, name: Text, key: Text)
    ensures
        table::lookup(put_sections(acc, all_named(d, name)), key) == (match last_setting(
            d,
            name,
            key,
        ) {
            Some(v) => Some(v),
            None => table::lookup(acc, key),
        }),
    decreases d.len(),
{
    if d.len() > 0 {
        law_sections_put(acc, d.drop_last(), name, key);
        if d.last().name == name {
            let front = all_named(d.drop_last(), name);
            assert(front.push(d.last()).drop_last() =~= front);
            table::law_put_all_lookup(put_sections(acc, front), d.last().entries, key);
        }
    }
}

proof fn lemma_no_comment(s: Text, i: int)
    requires
        0 <= i,
        forall|k: int|
            i <= k < s.len() ==> #[trigger] s[k] != ';' || k == 0 || (s[k - 1] != ' ' && s[k - 1]
                != '\t'),
    ensures
        comment_start(s, i) >= s.len(),
    decreases s.len() - i,
{
    if i < s.len() {
        lemma_no_comment(s, i + 1);
    }
}

proof fn lemma_comment_at(s: Text, i: int, n: int)
    requires
        0 <= i <= n < s.len(),
        n > 0,
        s[n] == ';',
        s[n - 1] == ' ',
        forall|k: int| i <= k < n ==> s[k] != ';',
    ensures
        comment_start(s, i) == n,
    decreases n - i,
{
    if i < n {
        lemma_comment_at(s, i + 1, n);
    }
}

/// A blank and a semicolon begin a comment within a line; a semicolon without
/// a blank before it begins none.
pub proof fn law_inline_comment(s: Text, rest: Text)
    requires
        s.len() > 0,
        !s.contains(';'),
        !trim::is_space(s.last()),
    ensures
        uncommented(s + " ;"@ + rest) == s,
        uncommented(s) == s,
        !rest.contains(';') && !rest.contains(' ') && !rest.contains('\t') ==> uncommented(
            s + ";"@ + rest,
        ) == s + ";"@ + rest,
{
    reveal_strlit(" ;");
    reveal_strlit(";");
    let t = s + " ;"@ + rest;
    let n = s.len() + 1;
    assert forall|k: int| 0 <= k < n implies t[k] != ';' by {
        if k < s.len() {
            assert(s.contains(s[k]));
            assert(t[k] == s[k]);
        }
    }
    assert(t[n as int] == ';' && t[n - 1] == ' ');
    lemma_comment_at(t, 0, n as int);
    let e = Seq::<char>::empty();
    let front = t.take(n as int);
    trim::law_white_space(' ');
    assert(front =~= s.push(' '));
    assert(front.drop_last() =~= s);
    assert(front.last() == ' ');
    assert(trim::end_trimmed(s) == s);
    assert(trim::end_trimmed(front) == s);
    assert forall|k: int| 0 <= k < s.len() implies s[k] != ';' by {
        assert(s.contains(s[k]));
    }
    lemma_no_comment(s, 0);
    if !rest.contains(';') {
        let u = s + ";"@ + rest;
        assert forall|k: int| 0 <= k < u.len() implies #[trigger] u[k] != ';' || k == 0 || (u[k - 1] != ' '
            && u[k - 1] != '\t') by {
            if k < s.len() {
                assert(u[k] == s[k]);
            } else if k == s.len() {
                assert(u[k - 1] == s.last());
            } else {
                assert(u[k] == rest[k - s.len() - 1]);
                assert(rest.contains(rest[k - s.len() - 1]));
            }
        }
        lemma_no_comment(u, 0);
    }
}

proof fn lemma_plain_line(s: Text)
    requires
        s.len() > 0,
        !trim::is_space(s[0]),
        !trim::is_space(s.last()),
        !s.contains(';'),
    ensures
        trim::end_stripped(s, '\r') == s,
        trim::trimmed(s) == s,
        uncommented(s) == s,
{
    let e = Seq::<char>::empty();
    trim::law_white_space(' ');
    assert(s.last() != '\r');
    trim::law_trimmed(e, s, e);
    assert(e + s + e =~= s);
    law_inline_comment(s, e);
}

/// Empty lines and lines that begin with `#` say nothing.
pub proof fn law_comment_lines(st: Reading, s: Text, lineno: nat)
    requires
        s.len() > 0 ==> !trim::is_space(s.last()),
    ensures
        read_line(st, Seq::empty(), lineno) == Ok::<Reading, ErrorView>(st),
        read_line(st, "#"@ + s, lineno) == Ok::<Reading, ErrorView>(st),
{
    reveal_strlit("#");
    let e = Seq::<char>::empty();
    let t = "#"@ + s;
    trim::law_white_space('#');
    trim::law_white_space(' ');
    trim::law_trimmed(e, e, e);
    assert(e + e + e =~= e);
    assert(t[0] == '#');
    assert(t.last() == (if s.len() > 0 {
        s.last()
    } else {
        '#'
    }));
    assert(!trim::is_space(t.last()));
    assert(t.last() != '\r');
    trim::law_trimmed(e, t, e);
    assert(e + t + e =~= t);
}

/// A name in square brackets begins a section of that name; without the
/// closing bracket it is an error of its line.
#[verifier::spinoff_prover]
#[verifier::rlimit(60)]
pub proof fn law_header_begins_section(st: Reading, name: Text, lineno: nat)
    requires
        name.len() > 0,
        !trim::is_space(name[0]),
        !trim::is_space(name.last()),
        !name.contains(']'),
        !name.contains(';'),
    ensures
        read_line(st, "["@ + name + "]"@, lineno) == Ok::<Reading, ErrorView>(
            Reading {
                doc: st.doc.push(SectionView { name, entries: Seq::empty() }),
                key: None,
            },
        ),
        read_line(st, "["@ + name, lineno) == Err::<Reading, ErrorView>(
            ErrorView::Config("line "@ + number::decimal(lineno) + ": "@ + "missing ] in header"@),
        ),
{
    reveal_strlit("[");
    reveal_strlit("]");
    let e = Seq::<char>::empty();
    trim::law_white_space('[');
    trim::law_white_space(']');
    let t = "["@ + name + "]"@;
    let u = "["@ + name;
    assert(t[0] == '[' && t.last() == ']');
    assert(u[0] == '[' && u.last() == name.last());
    assert(!t.contains(';')) by {
        if t.contains(';') {
            let i = choose|i: int| 0 <= i < t.len() && t[i] == ';';
            assert(t[i] == name[i - 1]);
            assert(name.contains(name[i - 1]));
        }
    }
    assert(!u.contains(';')) by {
        if u.contains(';') {
            let i = choose|i: int| 0 <= i < u.len() && u[i] == ';';
            assert(u[i] == name[i - 1]);
            assert(name.contains(name[i - 1]));
        }
    }
    lemma_plain_line(t);
    lemma_plain_line(u);
    assert forall|k: int| 0 <= k < name.len() + 1 implies t[k] != ']' by {
        if k > 0 {
            assert(t[k] == name[k - 1]);
            assert(name.contains(name[k - 1]));
        }
    }
    find::lemma_find_at(t, ']', name.len() as int + 1);
    assert(t.subrange(1, name.len() as int + 1) =~= name);
    trim::law_trimmed(e, name, e);
    assert(e + name + e =~= name);
    assert(!u.contains(']')) by {
        if u.contains(']') {
            let i = choose|i: int| 0 <= i < u.len() && u[i] == ']';
            assert(u[i] == name[i - 1]);
            assert(name.contains(name[i - 1]));
        }
    }
    find::lemma_find(u, ']');
}

/// `key = value` gives the key of the section that was begun last the value;
/// before any section, and without `=`, it is an error of its line.
#[verifier::spinoff_prover]
#[verifier::rlimit(60)]
pub proof fn law_entry_gives_value(st: Reading, key: Text, value: Text, lineno: nat)
    requires
        bare_name(key),
        value.len() > 0,
        !trim::is_space(value[0]),
        !trim::is_space(value.last()),
        !value.contains(';'),
    ensures
        st.doc.len() > 0 ==> read_line(st, key + " = "@ + value, lineno) == Ok::<
            Reading,
            ErrorView,
        >(
            Reading {
                doc: st.doc.drop_last().push(
                    SectionView {
                        name: st.doc.last().name,
                        entries: table::put(st.doc.last().entries, key, value),
                    },
                ),
                key: Some(key),
            },
        ),
        st.doc.len() == 0 ==> read_line(st, key + " = "@ + value, lineno) == Err::<
            Reading,
            ErrorView,
        >(
            ErrorView::Config(
                "line "@ + number::decimal(lineno) + ": "@ + "entry before any [section]"@,
            ),
        ),
        read_line(st, key, lineno) == Err::<Reading, ErrorView>(
            ErrorView::Config("line "@ + number::decimal(lineno) + ": "@ + "expected key = value"@),
        ),
{
    reveal_strlit(" = ");
    let e = Seq::<char>::empty();
    let t = key + " = "@ + value;
    assert forall|i: int| 0 <= i < key.len() implies key[i] != ';' && key[i] != '=' && key[i] != '['
        && key[i] != '#' && !trim::is_space(key[i]) by {
        assert(in_name(key[i]));
        trim::law_white_space(key[i]);
    }
    assert(t[0] == key[0] && t.last() == value.last());
    assert(!t.contains(';')) by {
        if t.contains(';') {
            let i = choose|i: int| 0 <= i < t.len() && t[i] == ';';
            if i >= key.len() + 3 {
                assert(t[i] == value[i - key.len() - 3]);
                assert(value.contains(value[i - key.len() - 3]));
            } else if i < key.len() {
                assert(t[i] == key[i]);
            }
        }
    }
    assert(!key.contains(';'));
    lemma_plain_line(t);
    lemma_plain_line(key);
    let k = key + " "@;
    reveal_strlit(" ");
    assert forall|i: int| 0 <= i < k.len() implies k[i] != '=' by {
        if i < key.len() {
            assert(k[i] == key[i]);
        }
    }
    assert(!k.contains('='));
    find::law_cut(k, '=', " "@ + value);
    assert(t =~= k.push('=') + (" "@ + value));
    trim::law_white_space(' ');
    trim::law_trimmed(e, key, " "@);
    assert(e + key + " "@ =~= k);
    let v = " "@ + value;
    assert(!v.contains(';')) by {
        if v.contains(';') {
            let i = choose|i: int| 0 <= i < v.len() && v[i] == ';';
            assert(v[i] == value[i - 1]);
            assert(value.contains(value[i - 1]));
        }
    }
    assert(v.last() == value.last());
    law_inline_comment(v, e);
    trim::law_trimmed(" "@, value, e);
    assert(" "@ + value + e =~= v);
    assert(!key.contains('=')) by {
        if key.contains('=') {
            let i = choose|i: int| 0 <= i < key.len() && key[i] == '=';
        }
    }
    find::law_cut(key, '=', e);
    if st.doc.len() > 0 {
        let s = SectionView {
            name: st.doc.last().name,
            entries: table::put(st.doc.last().entries, key, value),
        };
        assert(with_last(st.doc, s) =~= st.doc.drop_last().push(s));
    }
}

/// An indented line without `=` goes on with the value of the key before it.
#[verifier::spinoff_prover]
#[verifier::rlimit(60)]
pub proof fn law_indented_line_goes_on(st: Reading, key: Text, before: Text, s: Text, lineno: nat)
    requires
        st.doc.len() > 0,
        st.key == Some(key),
        table::lookup(st.doc.last().entries, key) == Some(before),
        before.len() > 0,
        s.len() > 0,
        !trim::is_space(s[0]),
        !trim::is_space(s.last()),
        s[0] != '#',
        !s.contains(';'),
        !s.contains('='),
    ensures
        read_line(st, " "@ + s, lineno) == Ok::<Reading, ErrorView>(
            Reading {
                doc: st.doc.drop_last().push(
                    SectionView {
                        name: st.doc.last().name,
                        entries: table::put(
                            st.doc.last().entries,
                            key,
                            before + "\n"@ + s,
                        ),
                    },
                ),
                key: Some(key),
            },
        ),
{
    reveal_strlit(" ");
    let e = Seq::<char>::empty();
    let line = " "@ + s;
    trim::law_white_space(' ');
    assert(line.last() == s.last());
    assert(line.last() != '\r');
    lemma_plain_line(s);
    trim::law_trimmed(" "@, s, e);
    assert(" "@ + s + e =~= line);
    find::law_cut(s, '=', e);
    let sec = SectionView {
        name: st.doc.last().name,
        entries: table::put(st.doc.last().entries, key, before + "\n"@ + s),
    };
    assert(with_last(st.doc, sec) =~= st.doc.drop_last().push(sec));
}

/// Lines are read in turn, and the first that is wrong decides.
pub proof fn law_lines_in_turn(lines: Seq<Text>, i: int, st: Reading, next: Reading, e: ErrorView)
    requires
        0 <= i < lines.len(),
    ensures
        read_line(st, lines[i], (i + 1) as nat) == Ok::<Reading, ErrorView>(next) ==> read_lines(
            lines,
            i,
            st,
        ) == read_lines(lines, i + 1, next),
        read_line(st, lines[i], (i + 1) as nat) == Err::<Reading, ErrorView>(e) ==> read_lines(
            lines,
            i,
            st,
        ) == Err::<Seq<SectionView>, ErrorView>(e),
        read_lines(lines, lines.len() as int, st) == Ok::<Seq<SectionView>, ErrorView>(st.doc),
{
}

} // verus!
