//! Configuration files that draw in other files.
//!
//! Nothing here touches a disk. What is known of the files comes in as a
//! `FileSet`. Where a file is asked for that the set does not know, the answer
//! is `Stop::Need`: the caller looks the file up, adds what it found, and asks
//! again.

use crate::config::parser;
use crate::config::parser::{IniDocument, SectionView};
use crate::error::{Error, ErrorView};
use crate::text;
use crate::text::find;
use crate::text::split;
use crate::text::Text;
use vstd::prelude::*;

verus! {

/// What is known of a path.
#[derive(Debug)]
pub struct SourceFile {
    /// The path as it was asked for.
    pub path: String,
    /// The path's canonical form, or the path itself where it has none.
    pub canonical: String,
    /// The directory that holds the path.
    pub parent: Option<String>,
    /// Whether there is a file.
    pub exists: bool,
    /// What the file holds, or why it cannot be read.
    pub content: Result<String, String>,
}

/// The model of what is known of a path.
pub struct SourceView {
    pub path: Text,
    pub canonical: Text,
    pub parent: Option<Text>,
    pub exists: bool,
    pub content: Result<Text, Text>,
}

impl View for SourceFile {
    type V = SourceView;

    open spec fn view(&self) -> SourceView {
        SourceView {
            path: self.path@,
            canonical: self.canonical@,
            parent: text::opt_text(self.parent),
            exists: self.exists,
            content: match self.content {
                Ok(c) => Ok(c@),
                Err(m) => Err(m@),
            },
        }
    }
}

/// The files that have been looked up.
#[derive(Debug)]
pub struct FileSet {
    /// What is known, each path as it was looked up.
    pub files: Vec<SourceFile>,
}

impl View for FileSet {
    type V = Seq<SourceView>;

    open spec fn view(&self) -> Seq<SourceView> {
        self.files@.map_values(|f: SourceFile| f@)
    }
}

/// Why there is no answer yet, or none at all.
#[derive(Debug)]
pub enum Stop {
    /// This path has to be looked up first.
    Need(String),
    /// This directory has to be listed first.
    NeedDir(String),
    /// There is no answer.
    Failed(Error),
}

/// The model of `Stop`.
pub enum StopView {
    Need(Text),
    NeedDir(Text),
    Failed(ErrorView),
}

impl View for Stop {
    type V = StopView;

    open spec fn view(&self) -> StopView {
        match *self {
            Stop::Need(p) => StopView::Need(p@),
            Stop::NeedDir(p) => StopView::NeedDir(p@),
            Stop::Failed(e) => StopView::Failed(e@),
        }
    }
}

/// The model of an answer.
pub open spec fn answer<T: View>(r: Result<T, Stop>) -> Result<T::V, StopView> {
    match r {
        Ok(v) => Ok(v@),
        Err(s) => Err(s@),
    }
}

/// What is known of a path: the first entry for it.
pub open spec fn known(files: Seq<SourceView>, path: Text) -> Option<SourceView>
    decreases files.len(),
{
    if files.len() == 0 {
        None
    } else if files[0].path == path {
        Some(files[0])
    } else {
        known(files.drop_first(), path)
    }
}

/// A path below a directory. An absolute path stays as it is.
pub open spec fn below(dir: Text, name: Text) -> Text {
    if find::starts(name, "/"@) || dir.len() == 0 {
        name
    } else if dir.last() == '/' {
        dir + name
    } else {
        dir + "/"@ + name
    }
}

/// Where a drawn-in file is looked for: next to the file that draws it in,
/// and then in the search directories, in their order.
pub open spec fn candidates(name: Text, parent: Option<Text>, dirs: Seq<Text>) -> Seq<Text> {
    let searched = dirs.map_values(|d: Text| below(d, name));
    match parent {
        Some(p) => seq![below(p, name)] + searched,
        None => searched,
    }
}

/// The first of the paths, from position `i` on, that exists.
pub open spec fn first_existing(files: Seq<SourceView>, paths: Seq<Text>, i: int) -> Result<
    Option<Text>,
    StopView,
>
    decreases paths.len() - i,
{
    if i >= paths.len() {
        Ok(None)
    } else {
        match known(files, paths[i]) {
            None => Err(StopView::Need(paths[i])),
            Some(f) => if f.exists {
                Ok(Some(paths[i]))
            } else {
                first_existing(files, paths, i + 1)
            },
        }
    }
}

/// Where a drawn-in file is.
pub open spec fn include_path(
    files: Seq<SourceView>,
    name: Text,
    parent: Option<Text>,
    dirs: Seq<Text>,
) -> Result<Text, StopView> {
    match first_existing(files, candidates(name, parent, dirs), 0) {
        Err(s) => Err(s),
        Ok(Some(p)) => Ok(p),
        Ok(None) => Err(
            StopView::Failed(
                ErrorView::Config(
                    "include not found: "@ + name + " (searched "@ + text::list_text(dirs) + ")"@,
                ),
            ),
        ),
    }
}

/// The document in a file.
pub open spec fn file_doc(files: Seq<SourceView>, path: Text) -> Result<Seq<SectionView>, StopView> {
    match known(files, path) {
        None => Err(StopView::Need(path)),
        Some(f) => match f.content {
            Err(m) => Err(
                StopView::Failed(ErrorView::Config("reading "@ + path + ": "@ + m)),
            ),
            Ok(c) => match parser::ini_of(c) {
                Ok(d) => Ok(d),
                Err(e) => Err(StopView::Failed(e)),
            },
        },
    }
}

/// The names that the `[INCLUDES]` sections of a document list under a key.
pub open spec fn listed(sections: Seq<SectionView>, key: Text) -> Seq<Text>
    decreases sections.len(),
{
    if sections.len() == 0 {
        Seq::empty()
    } else {
        listed(sections.drop_last(), key) + (match crate::table::lookup(
            sections.last().entries,
            key,
        ) {
            Some(v) => split::items(v, true),
            None => Seq::empty(),
        })
    }
}

/// The names that a document draws in, under `before` or `after`.
pub open spec fn drawn_in(doc: Seq<SectionView>, key: Text) -> Seq<Text> {
    listed(parser::all_named(doc, "INCLUDES"@), key)
}

/// How many of the known files have not been entered.
pub open spec fn unentered(files: Seq<SourceView>, seen: Set<Text>) -> nat
    decreases files.len(),
{
    if files.len() == 0 {
        0
    } else {
        unentered(files.drop_last(), seen) + (if seen.contains(files.last().canonical) {
            0nat
        } else {
            1nat
        })
    }
}

/// A document with the files that it draws in: the `before` files are merged
/// in front of it and the `after` files behind it, each with the files that it
/// draws in itself. `seen` holds the files that are being resolved; one that
/// draws itself in is an error.
pub open spec fn resolved(
    files: Seq<SourceView>,
    dirs: Seq<Text>,
    doc: Seq<SectionView>,
    path: Text,
    seen: Set<Text>,
) -> Result<Seq<SectionView>, StopView>
    decreases unentered(files, seen), 0nat,
    via resolved_shrinks
{
    match known(files, path) {
        None => Err(StopView::Need(path)),
        Some(f) => if seen.contains(f.canonical) {
            Err(
                StopView::Failed(
                    ErrorView::Config("cyclic include detected at "@ + f.canonical),
                ),
            )
        } else {
            let inner = seen.insert(f.canonical);
            match resolved_all(
                files,
                dirs,
                drawn_in(doc, "before"@),
                0,
                f.parent,
                inner,
                Seq::empty(),
            ) {
                Err(s) => Err(s),
                Ok(front) => resolved_all(
                    files,
                    dirs,
                    drawn_in(doc, "after"@),
                    0,
                    f.parent,
                    inner,
                    parser::merged(front, doc),
                ),
            }
        },
    }
}

/// The document `acc` with the named files from position `i` on merged into
/// it, in their order.
pub open spec fn resolved_all(
    files: Seq<SourceView>,
    dirs: Seq<Text>,
    names: Seq<Text>,
    i: int,
    parent: Option<Text>,
    seen: Set<Text>,
    acc: Seq<SectionView>,
) -> Result<Seq<SectionView>, StopView>
    decreases unentered(files, seen), (if i < names.len() { names.len() - i } else { 0 }) + 1,
{
    if i >= names.len() {
        Ok(acc)
    } else {
        match include_path(files, names[i], parent, dirs) {
            Err(s) => Err(s),
            Ok(p) => match file_doc(files, p) {
                Err(s) => Err(s),
                Ok(d) => match resolved(files, dirs, d, p, seen) {
                    Err(s) => Err(s),
                    Ok(x) => resolved_all(
                        files,
                        dirs,
                        names,
                        i + 1,
                        parent,
                        seen,
                        parser::merged(acc, x),
                    ),
                },
            },
        }
    }
}

#[via_fn]
proof fn resolved_shrinks(
    files: Seq<SourceView>,
    dirs: Seq<Text>,
    doc: Seq<SectionView>,
    path: Text,
    seen: Set<Text>,
) {
    lemma_known(files, path);
    if let Some(f) = known(files, path) {
        if !seen.contains(f.canonical) {
            lemma_entering(files, seen, f.canonical);
        }
    }
}

/// What is known of a path stands in the set.
proof fn lemma_known(files: Seq<SourceView>, path: Text)
    ensures
        known(files, path) matches Some(f) ==> files.contains(f),
    decreases files.len(),
{
    if files.len() > 0 {
        if files[0].path == path {
            assert(files[0] == known(files, path)->0);
        } else {
            let t = files.drop_first();
            lemma_known(t, path);
            if let Some(f) = known(t, path) {
                let i = choose|i: int| 0 <= i < t.len() && t[i] == f;
                assert(files[i + 1] == f);
            }
        }
    }
}

/// Entering a file that has not been entered leaves fewer to enter.
proof fn lemma_entering(files: Seq<SourceView>, seen: Set<Text>, c: Text)
    ensures
        unentered(files, seen.insert(c)) <= unentered(files, seen),
        (exists|f: SourceView| files.contains(f) && f.canonical == c) && !seen.contains(c)
            ==> unentered(files, seen.insert(c)) < unentered(files, seen),
    decreases files.len(),
{
    if files.len() > 0 {
        let t = files.drop_last();
        lemma_entering(t, seen, c);
        if (exists|f: SourceView| files.contains(f) && f.canonical == c) && !seen.contains(c) {
            let f = choose|f: SourceView| files.contains(f) && f.canonical == c;
            let i = choose|i: int| 0 <= i < files.len() && files[i] == f;
            if i < t.len() {
                assert(t[i] == f);
                assert(t.contains(f));
            }
        }
    }
}

impl FileSet {
    /// A set that knows no file.
    pub fn new() -> (r: FileSet)
        ensures
            r@ == Seq::<SourceView>::empty(),
    {
        let r = FileSet { files: Vec::new() };
        assert(r@ =~= Seq::<SourceView>::empty());
        r
    }

    /// Adds what was found out about a path.
    pub fn add_file(&mut self, f: SourceFile)
        ensures
            final(self)@ == old(self)@.push(f@),
    {
        let ghost before = self@;
        self.files.push(f);
        assert(self@ =~= before.push(f@));
    }

    /// What is known of a path.
    pub fn find(&self, path: &str) -> (r: Option<&SourceFile>)
        ensures
            match r {
                Some(f) => known(self@, path@) == Some(f@),
                None => known(self@, path@) is None,
            },
    {
        let mut i: usize = 0;
        assert(self@.skip(0) =~= self@);
        while i < self.files.len()
            invariant
                i <= self.files.len(),
                known(self@, path@) == known(self@.skip(i as int), path@),
            decreases self.files.len() - i,
        {
            proof {
                text::lemma_skip_step(self@, i as int);
                assert(self@[i as int] == self.files@[i as int]@);
            }
            if text::same(self.files[i].path.as_str(), path) {
                return Some(&self.files[i]);
            }
            i += 1;
        }
        None
    }
}

/// A path below a directory.
pub fn join_path(dir: &str, name: &str) -> (r: String)
    ensures
        r@ == below(dir@, name@),
{
    let n = dir.unicode_len();
    if find::starts_with(name, "/") || n == 0 {
        name.to_owned()
    } else if dir.get_char(n - 1) == '/' {
        text::cat2(dir, name)
    } else {
        text::cat3(dir, "/", name)
    }
}

/// Finds a drawn-in file: next to the file that draws it in, or in the search
/// directories.
pub fn resolve_include_path(
    name: &str,
    base: &Option<String>,
    search_dirs: &Vec<String>,
    files: &FileSet,
) -> (r: Result<String, Stop>)
    ensures
        answer(r) == include_path(
            files@,
            name@,
            text::opt_text(*base),
            text::texts(search_dirs@),
        ),
{
    let ghost dirs = text::texts(search_dirs@);
    let ghost paths = candidates(name@, text::opt_text(*base), dirs);
    let ghost shift: int = if base is Some {
        1
    } else {
        0
    };
    if let Some(b) = base {
        let candidate = join_path(b.as_str(), name);
        assert(paths[0] == candidate@);
        match files.find(candidate.as_str()) {
            None => {
                return Err(Stop::Need(candidate));
            },
            Some(f) => if f.exists {
                return Ok(candidate);
            },
        }
    }
    let mut i: usize = 0;
    assert(paths.len() == dirs.len() + shift);
    while i < search_dirs.len()
        invariant
            i <= search_dirs.len(),
            dirs == text::texts(search_dirs@),
            paths == candidates(name@, text::opt_text(*base), dirs),
            shift == (if base is Some { 1int } else { 0int }),
            paths.len() == dirs.len() + shift,
            first_existing(files@, paths, 0) == first_existing(files@, paths, i + shift),
        decreases search_dirs.len() - i,
    {
        let candidate = join_path(search_dirs[i].as_str(), name);
        assert(paths[i + shift] == candidate@);
        match files.find(candidate.as_str()) {
            None => {
                return Err(Stop::Need(candidate));
            },
            Some(f) => if f.exists {
                return Ok(candidate);
            },
        }
        i += 1;
    }
    let shown = text::show_list(search_dirs);
    Err(
        Stop::Failed(
            Error::Config(
                text::cat5("include not found: ", name, " (searched ", shown.as_str(), ")"),
            ),
        ),
    )
}

/// Reads the document in a file.
pub fn parse_ini_file(path: &str, files: &FileSet) -> (r: Result<IniDocument, Stop>)
    ensures
        answer(r) == file_doc(files@, path@),
{
    match files.find(path) {
        None => Err(Stop::Need(path.to_owned())),
        Some(f) => match &f.content {
            Err(m) => Err(
                Stop::Failed(Error::Config(text::cat4("reading ", path, ": ", m.as_str()))),
            ),
            Ok(c) => match parser::parse_ini(c.as_str()) {
                Ok(d) => Ok(d),
                Err(e) => Err(Stop::Failed(e)),
            },
        },
    }
}

fn collect_includes(doc: &IniDocument, key: &str) -> (r: Vec<String>)
    ensures
        text::texts(r@) == drawn_in(doc@, key@),
{
    let secs = doc.sections_named("INCLUDES");
    let ghost all = parser::all_named(doc@, "INCLUDES"@);
    let mut out: Vec<String> = Vec::new();
    let mut i: usize = 0;
    proof {
        assert(secs@.map_values(|s: &parser::IniSection| s@) == all);
        assert(all.len() == secs@.len());
        assert(all.take(0) =~= Seq::empty());
        assert(text::texts(out@) =~= Seq::empty());
    }
    while i < secs.len()
        invariant
            i <= secs.len() == all.len(),
            all == secs@.map_values(|s: &parser::IniSection| s@),
            text::texts(out@) == listed(all.take(i as int), key@),
        decreases secs.len() - i,
    {
        let ghost before = out@;
        proof {
            assert(all.take(i + 1).drop_last() =~= all.take(i as int));
            assert(all.take(i + 1).last() == secs@[i as int]@);
        }
        match secs[i].get(key) {
            Some(v) => {
                let mut more = split::split_items(v, true);
                let ghost added = more@;
                out.append(&mut more);
                assert(text::texts(out@) =~= text::texts(before) + text::texts(added));
            },
            None => {
                assert(text::texts(out@) + Seq::<Text>::empty() =~= text::texts(out@));
            },
        }
        i += 1;
    }
    assert(all.take(i as int) =~= all);
    out
}

/// The files in the list as a set.
pub open spec fn entered(seen: Seq<String>) -> Set<Text> {
    text::texts(seen).to_set()
}

fn was_entered(seen: &Vec<String>, c: &str) -> (r: bool)
    ensures
        r == entered(seen@).contains(c@),
{
    let mut i: usize = 0;
    while i < seen.len()
        invariant
            i <= seen.len(),
            forall|k: int| 0 <= k < i ==> (#[trigger] text::texts(seen@)[k]) != c@,
        decreases seen.len() - i,
    {
        assert(text::texts(seen@)[i as int] == seen@[i as int]@);
        if text::same(seen[i].as_str(), c) {
            return true;
        }
        i += 1;
    }
    false
}

/// Resolves the `before` and `after` files of a document.
pub fn resolve_includes(
    doc: IniDocument,
    path: &str,
    search_dirs: &Vec<String>,
    files: &FileSet,
    seen: &Vec<String>,
) -> (r: Result<IniDocument, Stop>)
    ensures
        answer(r) == resolved(
            files@,
            text::texts(search_dirs@),
            doc@,
            path@,
            entered(seen@),
        ),
    decreases unentered(files@, entered(seen@)), 0nat,
{
    let f = match files.find(path) {
        None => {
            return Err(Stop::Need(path.to_owned()));
        },
        Some(f) => f,
    };
    if was_entered(seen, f.canonical.as_str()) {
        return Err(
            Stop::Failed(
                Error::Config(text::cat2("cyclic include detected at ", f.canonical.as_str())),
            ),
        );
    }
    let mut inner: Vec<String> = text::copy_strings(seen);
    let ghost plain = inner@;
    inner.push(f.canonical.clone());
    proof {
        text::lemma_texts_push(plain, inner@.last());
        lemma_set_push(text::texts(seen@), f.canonical@);
        lemma_known(files@, path@);
        lemma_entering(files@, entered(seen@), f.canonical@);
    }
    let before = collect_includes(&doc, "before");
    let after = collect_includes(&doc, "after");
    let mut result = IniDocument::new();
    match merge_named(&mut result, &before, &f.parent, search_dirs, files, &inner) {
        Some(s) => {
            return Err(s);
        },
        None => {},
    }
    result.merge(doc);
    match merge_named(&mut result, &after, &f.parent, search_dirs, files, &inner) {
        Some(s) => {
            return Err(s);
        },
        None => {},
    }
    Ok(result)
}

/// Merges the named files into `acc`, in their order. What is returned is why
/// it stopped; `acc` is of use only where it did not.
fn merge_named(
    acc: &mut IniDocument,
    names: &Vec<String>,
    parent: &Option<String>,
    search_dirs: &Vec<String>,
    files: &FileSet,
    seen: &Vec<String>,
) -> (r: Option<Stop>)
    ensures
        resolved_all(
            files@,
            text::texts(search_dirs@),
            text::texts(names@),
            0,
            text::opt_text(*parent),
            entered(seen@),
            old(acc)@,
        ) == (match r {
            Some(s) => Err::<Seq<SectionView>, StopView>(s@),
            None => Ok(final(acc)@),
        }),
    decreases unentered(files@, entered(seen@)), 1nat,
{
    let ghost dirs = text::texts(search_dirs@);
    let ghost all = text::texts(names@);
    let ghost start = acc@;
    let mut i: usize = 0;
    while i < names.len()
        invariant
            i <= names.len(),
            start == old(acc)@,
            dirs == text::texts(search_dirs@),
            all == text::texts(names@),
            resolved_all(
                files@,
                dirs,
                all,
                0,
                text::opt_text(*parent),
                entered(seen@),
                start,
            ) == resolved_all(
                files@,
                dirs,
                all,
                i as int,
                text::opt_text(*parent),
                entered(seen@),
                acc@,
            ),
        decreases names.len() - i,
    {
        assert(all[i as int] == names@[i as int]@);
        let p = match resolve_include_path(names[i].as_str(), parent, search_dirs, files) {
            Ok(p) => p,
            Err(s) => {
                return Some(s);
            },
        };
        let d = match parse_ini_file(p.as_str(), files) {
            Ok(d) => d,
            Err(s) => {
                return Some(s);
            },
        };
        let x = match resolve_includes(d, p.as_str(), search_dirs, files, seen) {
            Ok(x) => x,
            Err(s) => {
                return Some(s);
            },
        };
        acc.merge(x);
        i += 1;
    }
    None
}

proof fn lemma_set_push(s: Seq<Text>, t: Text)
    ensures
        s.push(t).to_set() == s.to_set().insert(t),
{
    let a = s.push(t).to_set();
    let b = s.to_set().insert(t);
    assert forall|x: Text| a.contains(x) <==> b.contains(x) by {
        if a.contains(x) {
            let i = choose|i: int| 0 <= i < s.push(t).len() && s.push(t)[i] == x;
            if i < s.len() {
                assert(s[i] == x);
                assert(s.contains(x));
            }
        }
        if b.contains(x) {
            if x == t {
                assert(s.push(t)[s.len() as int] == t);
            } else {
                let i = choose|i: int| 0 <= i < s.len() && s[i] == x;
                assert(s.push(t)[i] == x);
            }
        }
    }
    assert(a =~= b);
}

/// A file that draws itself in, directly or through others, is an error.
pub proof fn law_cycle_is_error(
    files: Seq<SourceView>,
    dirs: Seq<Text>,
    doc: Seq<SectionView>,
    path: Text,
    seen: Set<Text>,
)
    requires
        known(files, path) is Some,
        seen.contains(known(files, path)->0.canonical),
    ensures
        resolved(files, dirs, doc, path, seen) == Err::<Seq<SectionView>, StopView>(
            StopView::Failed(
                ErrorView::Config(
                    "cyclic include detected at "@ + known(files, path)->0.canonical,
                ),
            ),
        ),
{
}

/// Without `after` files, what a document sets itself wins over its `before`
/// files.
pub proof fn law_own_values_win(
    files: Seq<SourceView>,
    dirs: Seq<Text>,
    doc: Seq<SectionView>,
    path: Text,
    seen: Set<Text>,
    name: Text,
    key: Text,
)
    requires
        drawn_in(doc, "after"@).len() == 0,
        parser::last_setting(doc, name, key) is Some,
    ensures
        resolved(files, dirs, doc, path, seen) matches Ok(x) ==> parser::value_of(x, name, key)
            == parser::last_setting(doc, name, key),
{
    if let Ok(x) = resolved(files, dirs, doc, path, seen) {
        let f = known(files, path)->0;
        let front = resolved_all(
            files,
            dirs,
            drawn_in(doc, "before"@),
            0,
            f.parent,
            seen.insert(f.canonical),
            Seq::empty(),
        );
        parser::law_merge_later_wins(front->Ok_0, doc, name, key);
    }
}

/// What the last `after` file sets wins over everything else.
pub proof fn law_after_file_wins(
    files: Seq<SourceView>,
    dirs: Seq<Text>,
    names: Seq<Text>,
    parent: Option<Text>,
    seen: Set<Text>,
    acc: Seq<SectionView>,
    name: Text,
    key: Text,
)
    requires
        names.len() == 1,
    ensures
        resolved_all(files, dirs, names, 0, parent, seen, acc) matches Ok(x) ==> {
            let p = include_path(files, names[0], parent, dirs)->Ok_0;
            let d = resolved(files, dirs, file_doc(files, p)->Ok_0, p, seen)->Ok_0;
            parser::value_of(x, name, key) == (match parser::last_setting(d, name, key) {
                Some(v) => Some(v),
                None => parser::value_of(acc, name, key),
            })
        },
{
    if let Ok(x) = resolved_all(files, dirs, names, 0, parent, seen, acc) {
        let p = include_path(files, names[0], parent, dirs)->Ok_0;
        let d = resolved(files, dirs, file_doc(files, p)->Ok_0, p, seen)->Ok_0;
        assert(resolved_all(files, dirs, names, 1, parent, seen, parser::merged(acc, d)) == Ok::<
            Seq<SectionView>,
            StopView,
        >(parser::merged(acc, d)));
        parser::law_merge_later_wins(acc, d, name, key);
    }
}

/// The document `acc` with the files at the paths from position `i` on merged
/// into it, each with what it draws in. A file that does not exist is passed
/// over, unless `must` holds: then it has to be readable.
pub open spec fn loaded(
    files: Seq<SourceView>,
    dirs: Seq<Text>,
    paths: Seq<Text>,
    i: int,
    must: bool,
    acc: Seq<SectionView>,
) -> Result<Seq<SectionView>, StopView>
    decreases paths.len() - i,
{
    if i >= paths.len() {
        Ok(acc)
    } else {
        match known(files, paths[i]) {
            None => Err(StopView::Need(paths[i])),
            Some(f) => if !must && !f.exists {
                loaded(files, dirs, paths, i + 1, must, acc)
            } else {
                match file_doc(files, paths[i]) {
                    Err(s) => Err(s),
                    Ok(d) => match resolved(files, dirs, d, paths[i], Set::empty()) {
                        Err(s) => Err(s),
                        Ok(x) => loaded(
                            files,
                            dirs,
                            paths,
                            i + 1,
                            must,
                            parser::merged(acc, x),
                        ),
                    },
                }
            },
        }
    }
}

/// Merges the files at the paths into `acc`. What is returned is why it
/// stopped; `acc` is of use only where it did not.
pub fn load_paths(
    acc: &mut IniDocument,
    paths: &Vec<String>,
    must: bool,
    search_dirs: &Vec<String>,
    files: &FileSet,
) -> (r: Option<Stop>)
    ensures
        loaded(
            files@,
            text::texts(search_dirs@),
            text::texts(paths@),
            0,
            must,
            old(acc)@,
        ) == (match r {
            Some(s) => Err::<Seq<SectionView>, StopView>(s@),
            None => Ok(final(acc)@),
        }),
{
    let ghost dirs = text::texts(search_dirs@);
    let ghost all = text::texts(paths@);
    let ghost start = acc@;
    let mut i: usize = 0;
    while i < paths.len()
        invariant
            i <= paths.len(),
            start == old(acc)@,
            dirs == text::texts(search_dirs@),
            all == text::texts(paths@),
            loaded(files@, dirs, all, 0, must, start) == loaded(
                files@,
                dirs,
                all,
                i as int,
                must,
                acc@,
            ),
        decreases paths.len() - i,
    {
        let path = paths[i].as_str();
        assert(all[i as int] == path@);
        i += 1;
        match files.find(path) {
            None => {
                return Some(Stop::Need(path.to_owned()));
            },
            Some(f) => if !must && !f.exists {
                continue;
            },
        }
        let d = match parse_ini_file(path, files) {
            Ok(d) => d,
            Err(s) => {
                return Some(s);
            },
        };
        let none: Vec<String> = Vec::new();
        assert(entered(none@) =~= Set::empty());
        match resolve_includes(d, path, search_dirs, files, &none) {
            Ok(x) => {
                acc.merge(x);
            },
            Err(s) => {
                return Some(s);
            },
        }
    }
    None
}

/// The paths of a definition in a subdirectory of each search directory, in
/// their order: `<name>.conf` and then `<name>.local`.
pub open spec fn definition_paths(dirs: Seq<Text>, sub: Text, name: Text) -> Seq<Text>
    decreases dirs.len(),
{
    if dirs.len() == 0 {
        Seq::empty()
    } else {
        let d = below(dirs.last(), sub);
        definition_paths(dirs.drop_last(), sub, name).push(below(d, name + ".conf"@)).push(
            below(d, name + ".local"@),
        )
    }
}

/// The document of a definition; `what` says of what kind it is. It is an
/// error where no file holds a section of it.
#[verifier::opaque]
pub open spec fn definition(
    what: Text,
    sub: Text,
    name: Text,
    dirs: Seq<Text>,
    files: Seq<SourceView>,
) -> Result<Seq<SectionView>, StopView> {
    match loaded(files, dirs, definition_paths(dirs, sub, name), 0, false, Seq::empty()) {
        Err(s) => Err(s),
        Ok(d) => if d.len() == 0 {
            Err(
                StopView::Failed(
                    ErrorView::Config(
                        what + " "@ + text::debug_text(name) + " not found in "@ + text::list_text(dirs),
                    ),
                ),
            )
        } else {
            Ok(d)
        },
    }
}

/// Loads the document of a definition.
pub fn load_definition(
    what: &str,
    sub: &str,
    name: &str,
    search_dirs: &Vec<String>,
    files: &FileSet,
) -> (r: Result<IniDocument, Stop>)
    ensures
        answer(r) == definition(what@, sub@, name@, text::texts(search_dirs@), files@),
{
    proof {
        reveal(definition);
    }
    let ghost dirs = text::texts(search_dirs@);
    let conf = text::cat2(name, ".conf");
    let local = text::cat2(name, ".local");
    let mut paths: Vec<String> = Vec::new();
    let mut i: usize = 0;
    proof {
        assert(dirs.take(0) =~= Seq::empty());
        assert(text::texts(paths@) =~= Seq::empty());
    }
    while i < search_dirs.len()
        invariant
            i <= search_dirs.len(),
            dirs == text::texts(search_dirs@),
            conf@ == name@ + ".conf"@,
            local@ == name@ + ".local"@,
            text::texts(paths@) == definition_paths(dirs.take(i as int), sub@, name@),
        decreases search_dirs.len() - i,
    {
        proof {
            assert(dirs.take(i + 1).drop_last() =~= dirs.take(i as int));
            assert(dirs.take(i + 1).last() == search_dirs@[i as int]@);
        }
        let d = join_path(search_dirs[i].as_str(), sub);
        let a = join_path(d.as_str(), conf.as_str());
        let b = join_path(d.as_str(), local.as_str());
        proof {
            text::lemma_texts_push(paths@, a);
            text::lemma_texts_push(paths@.push(a), b);
        }
        paths.push(a);
        paths.push(b);
        i += 1;
    }
    assert(dirs.take(i as int) =~= dirs);
    let mut doc = IniDocument::new();
    if let Some(s) = load_paths(&mut doc, &paths, false, search_dirs, files) {
        return Err(s);
    }
    if doc.sections.len() == 0 {
        let q = text::quoted(name);
        let shown = text::show_list(search_dirs);
        return Err(
            Stop::Failed(
                Error::Config(text::cat5(what, " ", q.as_str(), " not found in ", shown.as_str())),
            ),
        );
    }
    Ok(doc)
}

/// Of files that are loaded one after the other, the last one wins: what it
/// sets is what holds in the end.
pub proof fn law_last_file_wins(
    files: Seq<SourceView>,
    dirs: Seq<Text>,
    paths: Seq<Text>,
    i: int,
    must: bool,
    acc: Seq<SectionView>,
    name: Text,
    key: Text,
)
    requires
        0 <= i < paths.len(),
        known(files, paths.last()) matches Some(f) && f.exists,
    ensures
        loaded(files, dirs, paths, i, must, acc) matches Ok(x) ==> {
            let d = file_doc(files, paths.last())->Ok_0;
            let last = resolved(files, dirs, d, paths.last(), Set::empty())->Ok_0;
            parser::last_setting(last, name, key) is Some ==> parser::value_of(x, name, key)
                == parser::last_setting(last, name, key)
        },
    decreases paths.len() - i,
{
    if let Ok(x) = loaded(files, dirs, paths, i, must, acc) {
        let f = known(files, paths[i])->0;
        if !must && !f.exists {
            law_last_file_wins(files, dirs, paths, i + 1, must, acc, name, key);
        } else {
            let d = file_doc(files, paths[i])->Ok_0;
            let r = resolved(files, dirs, d, paths[i], Set::empty())->Ok_0;
            let next = parser::merged(acc, r);
            if i + 1 < paths.len() {
                law_last_file_wins(files, dirs, paths, i + 1, must, next, name, key);
            } else {
                assert(loaded(files, dirs, paths, i + 1, must, next) == Ok::<
                    Seq<SectionView>,
                    StopView,
                >(next));
                parser::law_merge_later_wins(acc, r, name, key);
            }
        }
    }
}

/// The value that a file gives a key of a section last, with what it draws in;
/// none where there is no such file.
pub open spec fn file_setting(
    files: Seq<SourceView>,
    dirs: Seq<Text>,
    path: Text,
    seen: Set<Text>,
    name: Text,
    key: Text,
) -> Option<Text> {
    match known(files, path) {
        None => None,
        Some(f) => if !f.exists {
            None
        } else {
            match file_doc(files, path) {
                Err(_) => None,
                Ok(d) => match resolved(files, dirs, d, path, seen) {
                    Err(_) => None,
                    Ok(x) => parser::last_setting(x, name, key),
                },
            }
        },
    }
}

/// Of files that are loaded one after the other, the last one that gives a key
/// a value decides it; `j` is its place. The other files do not count.
pub proof fn law_last_setting_file_decides(
    files: Seq<SourceView>,
    dirs: Seq<Text>,
    paths: Seq<Text>,
    i: int,
    acc: Seq<SectionView>,
    name: Text,
    key: Text,
    j: int,
)
    requires
        0 <= i <= j < paths.len(),
        file_setting(files, dirs, paths[j], Set::empty(), name, key) is Some,
        forall|k: int|
            j < k < paths.len() ==> file_setting(
                files,
                dirs,
                #[trigger] paths[k],
                Set::empty(),
                name,
                key,
            ) is None,
    ensures
        loaded(files, dirs, paths, i, false, acc) matches Ok(x) ==> parser::value_of(x, name, key)
            == file_setting(files, dirs, paths[j], Set::empty(), name, key),
    decreases paths.len() - i,
{
    if let Ok(x) = loaded(files, dirs, paths, i, false, acc) {
        let f = known(files, paths[i])->0;
        if !f.exists {
            law_last_setting_file_decides(files, dirs, paths, i + 1, acc, name, key, j);
        } else {
            let d = file_doc(files, paths[i])->Ok_0;
            let r = resolved(files, dirs, d, paths[i], Set::empty())->Ok_0;
            let next = parser::merged(acc, r);
            if i < j {
                law_last_setting_file_decides(files, dirs, paths, i + 1, next, name, key, j);
            } else {
                parser::law_merge_later_wins(acc, r, name, key);
                law_files_without_setting(files, dirs, paths, i + 1, next, name, key);
            }
        }
    }
}

/// Files that give a key no value leave it as it was.
pub proof fn law_files_without_setting(
    files: Seq<SourceView>,
    dirs: Seq<Text>,
    paths: Seq<Text>,
    i: int,
    acc: Seq<SectionView>,
    name: Text,
    key: Text,
)
    requires
        0 <= i <= paths.len(),
        forall|k: int|
            i <= k < paths.len() ==> file_setting(
                files,
                dirs,
                #[trigger] paths[k],
                Set::empty(),
                name,
                key,
            ) is None,
    ensures
        loaded(files, dirs, paths, i, false, acc) matches Ok(x) ==> parser::value_of(x, name, key)
            == parser::value_of(acc, name, key),
    decreases paths.len() - i,
{
    if i < paths.len() {
        if let Ok(x) = loaded(files, dirs, paths, i, false, acc) {
            let f = known(files, paths[i])->0;
            assert(file_setting(files, dirs, paths[i], Set::empty(), name, key) is None);
            if !f.exists {
                law_files_without_setting(files, dirs, paths, i + 1, acc, name, key);
            } else {
                let d = file_doc(files, paths[i])->Ok_0;
                let r = resolved(files, dirs, d, paths[i], Set::empty())->Ok_0;
                parser::law_merge_later_wins(acc, r, name, key);
                law_files_without_setting(
                    files,
                    dirs,
                    paths,
                    i + 1,
                    parser::merged(acc, r),
                    name,
                    key,
                );
            }
        }
    }
}

/// Loading two lists of files one after the other is loading them as one list.
pub proof fn law_lists_load_in_turn(
    files: Seq<SourceView>,
    dirs: Seq<Text>,
    a: Seq<Text>,
    b: Seq<Text>,
    i: int,
    acc: Seq<SectionView>,
)
    requires
        0 <= i <= a.len(),
    ensures
        loaded(files, dirs, a + b, i, false, acc) == (match loaded(files, dirs, a, i, false, acc) {
            Ok(x) => loaded(files, dirs, b, 0, false, x),
            Err(s) => Err(s),
        }),
    decreases a.len() - i,
{
    if i == a.len() {
        lemma_loaded_tail(files, dirs, a, b, 0, acc);
    } else {
        assert((a + b)[i] == a[i]);
        if let Some(f) = known(files, a[i]) {
            if !f.exists {
                law_lists_load_in_turn(files, dirs, a, b, i + 1, acc);
            } else if let Ok(d) = file_doc(files, a[i]) {
                if let Ok(r) = resolved(files, dirs, d, a[i], Set::empty()) {
                    law_lists_load_in_turn(files, dirs, a, b, i + 1, parser::merged(acc, r));
                }
            }
        }
    }
}

proof fn lemma_loaded_tail(
    files: Seq<SourceView>,
    dirs: Seq<Text>,
    a: Seq<Text>,
    b: Seq<Text>,
    k: int,
    acc: Seq<SectionView>,
)
    requires
        0 <= k <= b.len(),
    ensures
        loaded(files, dirs, a + b, a.len() + k, false, acc) == loaded(
            files,
            dirs,
            b,
            k,
            false,
            acc,
        ),
    decreases b.len() - k,
{
    if k < b.len() {
        assert((a + b)[a.len() + k] == b[k]);
        if let Some(f) = known(files, b[k]) {
            if !f.exists {
                lemma_loaded_tail(files, dirs, a, b, k + 1, acc);
            } else if let Ok(d) = file_doc(files, b[k]) {
                if let Ok(r) = resolved(files, dirs, d, b[k], Set::empty()) {
                    lemma_loaded_tail(files, dirs, a, b, k + 1, parser::merged(acc, r));
                }
            }
        }
    }
}

/// A drawn-in file is the one next to the file that draws it in, where that
/// exists, and otherwise the one in the first search directory that has it;
/// `j` is the directory's place.
pub proof fn law_include_is_found(
    files: Seq<SourceView>,
    name: Text,
    parent: Text,
    dirs: Seq<Text>,
    j: int,
)
    ensures
        ({
            let beside = known(files, below(parent, name));
            beside matches Some(f) && f.exists ==> include_path(files, name, Some(parent), dirs)
                == Ok::<Text, StopView>(below(parent, name))
        }),
        ({
            let beside = known(files, below(parent, name));
            &&& beside matches Some(f) && !f.exists
            &&& 0 <= j < dirs.len()
            &&& known(files, below(dirs[j], name)) matches Some(g) && g.exists
            &&& forall|k: int|
                0 <= k < j ==> (known(files, below(#[trigger] dirs[k], name)) matches Some(h)
                    && !h.exists)
        }) ==> include_path(files, name, Some(parent), dirs) == Ok::<Text, StopView>(
            below(dirs[j], name),
        ),
{
    let c = candidates(name, Some(parent), dirs);
    assert(c[0] == below(parent, name));
    let beside = known(files, below(parent, name));
    if beside is Some && !(beside->0).exists && 0 <= j < dirs.len() && known(
        files,
        below(dirs[j], name),
    ) is Some && (known(files, below(dirs[j], name))->0).exists && (forall|k: int|
        0 <= k < j ==> (known(files, below(#[trigger] dirs[k], name)) matches Some(h)
            && !h.exists)) {
        assert forall|k: int| 0 <= k <= j implies (known(files, #[trigger] c[k]) matches Some(h)
            && !h.exists) by {
            if k > 0 {
                assert(c[k] == below(dirs[k - 1], name));
            }
        }
        assert(c[j + 1] == below(dirs[j], name));
        lemma_first_existing(files, c, 0, j + 1);
    }
}

proof fn lemma_first_existing(files: Seq<SourceView>, c: Seq<Text>, i: int, j: int)
    requires
        0 <= i <= j < c.len(),
        known(files, c[j]) matches Some(g) && g.exists,
        forall|k: int|
            i <= k < j ==> (known(files, #[trigger] c[k]) matches Some(h) && !h.exists),
    ensures
        first_existing(files, c, i) == Ok::<Option<Text>, StopView>(Some(c[j])),
    decreases j - i,
{
    if i < j {
        assert(known(files, c[i]) matches Some(h) && !h.exists);
        lemma_first_existing(files, c, i + 1, j);
    }
}

/// What a document leaves out, its one `before` file gives, where there is no
/// `after` file.
pub proof fn law_before_file_counts(
    files: Seq<SourceView>,
    dirs: Seq<Text>,
    doc: Seq<SectionView>,
    path: Text,
    seen: Set<Text>,
    name: Text,
    key: Text,
)
    requires
        drawn_in(doc, "after"@).len() == 0,
        drawn_in(doc, "before"@).len() == 1,
        parser::last_setting(doc, name, key) is None,
    ensures
        resolved(files, dirs, doc, path, seen) matches Ok(x) ==> {
            let f = known(files, path)->0;
            let p = include_path(files, drawn_in(doc, "before"@)[0], f.parent, dirs)->Ok_0;
            let d = resolved(
                files,
                dirs,
                file_doc(files, p)->Ok_0,
                p,
                seen.insert(f.canonical),
            )->Ok_0;
            parser::value_of(x, name, key) == parser::last_setting(d, name, key)
        },
{
    if let Ok(x) = resolved(files, dirs, doc, path, seen) {
        let f = known(files, path)->0;
        let inner = seen.insert(f.canonical);
        let names = drawn_in(doc, "before"@);
        let none = Seq::<SectionView>::empty();
        let front = resolved_all(files, dirs, names, 0, f.parent, inner, none);
        law_after_file_wins(files, dirs, names, f.parent, inner, none, name, key);
        parser::law_merge_later_wins(front->Ok_0, doc, name, key);
        parser::lemma_section_slot(none, name);
    }
}

/// What a document draws in under `after` wins over what the document sets
/// itself, where there is one such file.
pub proof fn law_after_file_overrides(
    files: Seq<SourceView>,
    dirs: Seq<Text>,
    doc: Seq<SectionView>,
    path: Text,
    seen: Set<Text>,
    name: Text,
    key: Text,
)
    requires
        drawn_in(doc, "after"@).len() == 1,
    ensures
        resolved(files, dirs, doc, path, seen) matches Ok(x) ==> {
            let f = known(files, path)->0;
            let p = include_path(files, drawn_in(doc, "after"@)[0], f.parent, dirs)->Ok_0;
            let d = resolved(
                files,
                dirs,
                file_doc(files, p)->Ok_0,
                p,
                seen.insert(f.canonical),
            )->Ok_0;
            &&& parser::last_setting(d, name, key) matches Some(v) ==> parser::value_of(
                x,
                name,
                key,
            ) == Some(v)
            &&& parser::last_setting(d, name, key) is None ==> (parser::last_setting(
                doc,
                name,
                key,
            ) matches Some(v) ==> parser::value_of(x, name, key) == Some(v))
        },
{
    if let Ok(x) = resolved(files, dirs, doc, path, seen) {
        let f = known(files, path)->0;
        let inner = seen.insert(f.canonical);
        let none = Seq::<SectionView>::empty();
        let front = resolved_all(files, dirs, drawn_in(doc, "before"@), 0, f.parent, inner, none);
        let own = parser::merged(front->Ok_0, doc);
        law_after_file_wins(
            files,
            dirs,
            drawn_in(doc, "after"@),
            f.parent,
            inner,
            own,
            name,
            key,
        );
        parser::law_merge_later_wins(front->Ok_0, doc, name, key);
    }
}

/// A file is loaded as the document that its content describes; one that
/// cannot be read is an error that names it.
pub proof fn law_file_is_its_content(files: Seq<SourceView>, path: Text)
    ensures
        known(files, path) matches Some(f) ==> match f.content {
            Ok(c) => match parser::ini_of(c) {
                Ok(d) => file_doc(files, path) == Ok::<Seq<SectionView>, StopView>(d),
                Err(e) => file_doc(files, path) == Err::<Seq<SectionView>, StopView>(
                    StopView::Failed(e),
                ),
            },
            Err(m) => file_doc(files, path) == Err::<Seq<SectionView>, StopView>(
                StopView::Failed(ErrorView::Config("reading "@ + path + ": "@ + m)),
            ),
        },
        known(files, path) is None ==> file_doc(files, path) == Err::<Seq<SectionView>, StopView>(
            StopView::Need(path),
        ),
{
}

/// The files of a definition are, of each search directory in turn, the one
/// that ends in `.conf` and then the one that ends in `.local`.
pub proof fn law_definition_files(dirs: Seq<Text>, sub: Text, name: Text, i: int)
    requires
        0 <= i < dirs.len(),
    ensures
        definition_paths(dirs, sub, name).len() == 2 * dirs.len(),
        definition_paths(dirs, sub, name)[2 * i] == below(below(dirs[i], sub), name + ".conf"@),
        definition_paths(dirs, sub, name)[2 * i + 1] == below(
            below(dirs[i], sub),
            name + ".local"@,
        ),
    decreases dirs.len(),
{
    let front = dirs.drop_last();
    lemma_definition_len(front, sub, name);
    if i < front.len() {
        assert(front[i] == dirs[i]);
        law_definition_files(front, sub, name, i);
    }
}

proof fn lemma_definition_len(dirs: Seq<Text>, sub: Text, name: Text)
    ensures
        definition_paths(dirs, sub, name).len() == 2 * dirs.len(),
    decreases dirs.len(),
{
    if dirs.len() > 0 {
        lemma_definition_len(dirs.drop_last(), sub, name);
    }
}

/// The last of a definition's files that gives a key a value decides it.
pub proof fn law_definition_overlay(
    what: Text,
    sub: Text,
    name: Text,
    dirs: Seq<Text>,
    files: Seq<SourceView>,
    section: Text,
    key: Text,
    j: int,
)
    requires
        0 <= j < 2 * dirs.len(),
        ({
            let paths = definition_paths(dirs, sub, name);
            &&& file_setting(files, dirs, paths[j], Set::empty(), section, key) is Some
            &&& forall|k: int|
                j < k < paths.len() ==> file_setting(
                    files,
                    dirs,
                    #[trigger] paths[k],
                    Set::empty(),
                    section,
                    key,
                ) is None
        }),
    ensures
        definition(what, sub, name, dirs, files) matches Ok(d) ==> parser::value_of(
            d,
            section,
            key,
        ) == file_setting(
            files,
            dirs,
            definition_paths(dirs, sub, name)[j],
            Set::empty(),
            section,
            key,
        ),
{
    reveal(definition);
    lemma_definition_len(dirs, sub, name);
    law_last_setting_file_decides(
        files,
        dirs,
        definition_paths(dirs, sub, name),
        0,
        Seq::empty(),
        section,
        key,
        j,
    );
}

/// A path below a directory: one slash stands between them; an absolute path
/// stays as it is.
pub proof fn law_paths_below(dir: Text, name: Text)
    requires
        dir.len() > 0,
        name.len() > 0,
        name[0] != '/',
    ensures
        dir.last() != '/' ==> below(dir, name) == dir + "/"@ + name,
        below(dir + "/"@, name) == dir + "/"@ + name,
        below(dir, "/"@ + name) == "/"@ + name,
        below(Seq::empty(), name) == name,
{
    reveal_strlit("/");
    assert(!find::starts(name, "/"@)) by {
        if find::starts(name, "/"@) {
            assert(name.take(1)[0] == '/');
        }
    }
    assert(("/"@ + name).take(1) =~= "/"@);
    assert((dir + "/"@).last() == '/');
    assert(dir + "/"@ + name =~= (dir + "/"@) + name);
}

/// A file is looked for beside the one that names it, and then in every
/// directory in turn; the first that is there counts.
pub proof fn law_where_files_are_looked_for(
    files: Seq<SourceView>,
    name: Text,
    parent: Text,
    dirs: Seq<Text>,
    i: int,
    paths: Seq<Text>,
)
    requires
        0 <= i < dirs.len(),
    ensures
        candidates(name, None, dirs).len() == dirs.len(),
        candidates(name, None, dirs)[i] == below(dirs[i], name),
        candidates(name, Some(parent), dirs).len() == dirs.len() + 1,
        candidates(name, Some(parent), dirs)[0] == below(parent, name),
        candidates(name, Some(parent), dirs)[i + 1] == below(dirs[i], name),
        first_existing(files, paths, paths.len() as int) == Ok::<Option<Text>, StopView>(None),
        i < paths.len() ==> (match known(files, paths[i]) {
            None => first_existing(files, paths, i) == Err::<Option<Text>, StopView>(
                StopView::Need(paths[i]),
            ),
            Some(f) => {
                &&& f.exists ==> first_existing(files, paths, i) == Ok::<Option<Text>, StopView>(
                    Some(paths[i]),
                )
                &&& !f.exists ==> first_existing(files, paths, i) == first_existing(
                    files,
                    paths,
                    i + 1,
                )
            },
        }),
{
}

} // verus!
