//! Loading the whole configuration: the global settings, the jails, and the
//! filters and actions that the jails refer to.

use crate::config;
use crate::config::action::ActionDefinition;
use crate::config::files;
use crate::config::files::{FileSet, SourceView, Stop, StopView};
use crate::config::filter;
use crate::config::filter::FilterDefinition;
use crate::config::interpolator::{ContextView, InterpolationContext};
use crate::config::jail;
use crate::config::jail::{JailConfig, JailSet, JailView};
use crate::config::parser;
use crate::config::parser::{IniDocument, IniSection, SectionView};
use crate::error;
use crate::error::{Error, ErrorView};
use crate::table;
use crate::table::Registry;
use crate::text;
use crate::text::find;
use crate::text::number;
use crate::text::sort;
use crate::text::Text;
use crate::time;
use crate::time::TimeValue;
use indexmap::IndexMap;
use vstd::prelude::*;

verus! {

/// The names in a directory.
#[derive(Debug)]
pub struct DirListing {
    /// The directory.
    pub path: String,
    /// The names of its files; `None` where it cannot be read.
    pub names: Option<Vec<String>>,
}

/// The model of the names in a directory.
pub struct ListingView {
    pub path: Text,
    pub names: Option<Seq<Text>>,
}

impl View for DirListing {
    type V = ListingView;

    open spec fn view(&self) -> ListingView {
        ListingView {
            path: self.path@,
            names: match self.names {
                Some(v) => Some(text::texts(v@)),
                None => None,
            },
        }
    }
}

/// The directories that have been listed.
#[derive(Debug)]
pub struct DirSet {
    pub dirs: Vec<DirListing>,
}

impl View for DirSet {
    type V = Seq<ListingView>;

    open spec fn view(&self) -> Seq<ListingView> {
        self.dirs@.map_values(|d: DirListing| d@)
    }
}

/// What is known of a directory: the first entry for it.
pub open spec fn listing(dirs: Seq<ListingView>, path: Text) -> Option<ListingView>
    decreases dirs.len(),
{
    if dirs.len() == 0 {
        None
    } else if dirs[0].path == path {
        Some(dirs[0])
    } else {
        listing(dirs.drop_first(), path)
    }
}

/// Whether a file name ends in a dot and the extension, with something before
/// the dot.
pub open spec fn has_extension(name: Text, ext: Text) -> bool {
    let i = find::rfind(name, '.');
    i > 0 && name.skip(i + 1) == ext
}

/// The names with the extension, in their order.
pub open spec fn with_extension(names: Seq<Text>, ext: Text) -> Seq<Text>
    decreases names.len(),
{
    if names.len() == 0 {
        Seq::empty()
    } else if has_extension(names.last(), ext) {
        with_extension(names.drop_last(), ext).push(names.last())
    } else {
        with_extension(names.drop_last(), ext)
    }
}

/// The paths of the files in a directory that have the extension, sorted by
/// name. A directory that cannot be read has none.
pub open spec fn paths_in(lists: Seq<ListingView>, dir: Text, ext: Text) -> Result<
    Seq<Text>,
    StopView,
> {
    match listing(lists, dir) {
        None => Err(StopView::NeedDir(dir)),
        Some(l) => match l.names {
            None => Ok(Seq::empty()),
            Some(names) => Ok(
                sort::sorted(with_extension(names, ext)).map_values(
                    |n: Text| files::below(dir, n),
                ),
            ),
        },
    }
}

/// The document `acc` with the files of a directory that have the extension
/// merged into it.
pub open spec fn loaded_dir(
    files: Seq<SourceView>,
    lists: Seq<ListingView>,
    dirs: Seq<Text>,
    dir: Text,
    ext: Text,
    must: bool,
    acc: Seq<SectionView>,
) -> Result<Seq<SectionView>, StopView> {
    match paths_in(lists, dir, ext) {
        Err(s) => Err(s),
        Ok(paths) => files::loaded(files, dirs, paths, 0, must, acc),
    }
}

/// The document `acc` with two files of a directory merged into it.
pub open spec fn loaded_two(
    files: Seq<SourceView>,
    dirs: Seq<Text>,
    dir: Text,
    a: Text,
    b: Text,
    acc: Seq<SectionView>,
) -> Result<Seq<SectionView>, StopView> {
    files::loaded(files, dirs, seq![files::below(dir, a), files::below(dir, b)], 0, false, acc)
}

/// The document of the global settings: of each search directory from position
/// `i` on `fail2ban.conf`, `rail2ban.conf` and `fail2ban.d/*.conf`.
pub open spec fn global_doc(
    files: Seq<SourceView>,
    lists: Seq<ListingView>,
    dirs: Seq<Text>,
    i: int,
    acc: Seq<SectionView>,
) -> Result<Seq<SectionView>, StopView>
    decreases dirs.len() - i,
{
    if i >= dirs.len() {
        Ok(acc)
    } else {
        match loaded_two(files, dirs, dirs[i], "fail2ban.conf"@, "rail2ban.conf"@, acc) {
            Err(s) => Err(s),
            Ok(a) => match loaded_dir(
                files,
                lists,
                dirs,
                files::below(dirs[i], "fail2ban.d"@),
                "conf"@,
                true,
                a,
            ) {
                Err(s) => Err(s),
                Ok(b) => global_doc(files, lists, dirs, i + 1, b),
            },
        }
    }
}

/// The document of the jails: of each search directory from position `i` on
/// `jail.conf`, `rail2ban.conf`, `jail.d/*.conf`, `jail.local`,
/// `rail2ban.local` and `jail.d/*.local`. What comes later overrides.
pub open spec fn jail_doc(
    files: Seq<SourceView>,
    lists: Seq<ListingView>,
    dirs: Seq<Text>,
    i: int,
    acc: Seq<SectionView>,
) -> Result<Seq<SectionView>, StopView>
    decreases dirs.len() - i,
{
    if i >= dirs.len() {
        Ok(acc)
    } else {
        let dd = files::below(dirs[i], "jail.d"@);
        match loaded_two(files, dirs, dirs[i], "jail.conf"@, "rail2ban.conf"@, acc) {
            Err(s) => Err(s),
            Ok(a) => match loaded_dir(files, lists, dirs, dd, "conf"@, false, a) {
                Err(s) => Err(s),
                Ok(b) => match loaded_two(
                    files,
                    dirs,
                    dirs[i],
                    "jail.local"@,
                    "rail2ban.local"@,
                    b,
                ) {
                    Err(s) => Err(s),
                    Ok(c) => match loaded_dir(files, lists, dirs, dd, "local"@, false, c) {
                        Err(s) => Err(s),
                        Ok(d) => jail_doc(files, lists, dirs, i + 1, d),
                    },
                },
            },
        }
    }
}

impl DirSet {
    /// A set that knows no directory.
    pub fn new() -> (r: DirSet)
        ensures
            r@ == Seq::<ListingView>::empty(),
    {
        let r = DirSet { dirs: Vec::new() };
        assert(r@ =~= Seq::<ListingView>::empty());
        r
    }

    /// Adds what was found out about a directory.
    pub fn add_dir(&mut self, d: DirListing)
        ensures
            final(self)@ == old(self)@.push(d@),
    {
        let ghost before = self@;
        self.dirs.push(d);
        assert(self@ =~= before.push(d@));
    }

    /// What is known of a directory.
    pub fn find(&self, path: &str) -> (r: Option<&DirListing>)
        ensures
            match r {
                Some(d) => listing(self@, path@) == Some(d@),
                None => listing(self@, path@) is None,
            },
    {
        let mut i: usize = 0;
        assert(self@.skip(0) =~= self@);
        while i < self.dirs.len()
            invariant
                i <= self.dirs.len(),
                listing(self@, path@) == listing(self@.skip(i as int), path@),
            decreases self.dirs.len() - i,
        {
            proof {
                text::lemma_skip_step(self@, i as int);
                assert(self@[i as int] == self.dirs@[i as int]@);
            }
            if text::same(self.dirs[i].path.as_str(), path) {
                return Some(&self.dirs[i]);
            }
            i += 1;
        }
        None
    }
}

fn extension_is(name: &str, ext: &str) -> (r: bool)
    ensures
        r == has_extension(name@, ext@),
{
    match find::last_position(name, '.') {
        None => false,
        Some(i) => {
            let n = name.unicode_len();
            i > 0 && text::same(name.substring_char(i + 1, n), ext)
        },
    }
}

fn list_paths(lists: &DirSet, dir: &str, ext: &str) -> (r: Result<Vec<String>, Stop>)
    ensures
        match r {
            Ok(v) => paths_in(lists@, dir@, ext@) == Ok::<Seq<Text>, StopView>(text::texts(v@)),
            Err(s) => paths_in(lists@, dir@, ext@) == Err::<Seq<Text>, StopView>(s@),
        },
{
    let l = match lists.find(dir) {
        None => {
            return Err(Stop::NeedDir(dir.to_owned()));
        },
        Some(l) => l,
    };
    let mut paths: Vec<String> = Vec::new();
    let names = match &l.names {
        None => {
            assert(text::texts(paths@) =~= Seq::empty());
            return Ok(paths);
        },
        Some(names) => names,
    };
    let ghost all = text::texts(names@);
    let mut chosen: Vec<String> = Vec::new();
    let mut i: usize = 0;
    proof {
        assert(all.take(0) =~= Seq::empty());
        assert(text::texts(chosen@) =~= Seq::empty());
    }
    while i < names.len()
        invariant
            i <= names.len(),
            all == text::texts(names@),
            text::texts(chosen@) == with_extension(all.take(i as int), ext@),
        decreases names.len() - i,
    {
        proof {
            assert(all.take(i + 1).drop_last() =~= all.take(i as int));
            assert(all.take(i + 1).last() == names@[i as int]@);
        }
        if extension_is(names[i].as_str(), ext) {
            let name = names[i].clone();
            proof {
                text::lemma_texts_push(chosen@, name);
            }
            chosen.push(name);
        }
        i += 1;
    }
    assert(all.take(i as int) =~= all);
    let sorted = sort::sort(&chosen);
    let mut j: usize = 0;
    while j < sorted.len()
        invariant
            j <= sorted.len(),
            paths@.len() == j,
            forall|k: int|
                0 <= k < j ==> (#[trigger] paths@[k])@ == files::below(dir@, sorted@[k]@),
        decreases sorted.len() - j,
    {
        paths.push(files::join_path(dir, sorted[j].as_str()));
        j += 1;
    }
    assert(text::texts(paths@) =~= text::texts(sorted@).map_values(
        |n: Text| files::below(dir@, n),
    ));
    Ok(paths)
}

fn load_dir(
    acc: &mut IniDocument,
    dir: &str,
    ext: &str,
    must: bool,
    search_dirs: &Vec<String>,
    files: &FileSet,
    lists: &DirSet,
) -> (r: Option<Stop>)
    ensures
        loaded_dir(
            files@,
            lists@,
            text::texts(search_dirs@),
            dir@,
            ext@,
            must,
            old(acc)@,
        ) == (match r {
            Some(s) => Err::<Seq<SectionView>, StopView>(s@),
            None => Ok(final(acc)@),
        }),
{
    match list_paths(lists, dir, ext) {
        Ok(paths) => files::load_paths(acc, &paths, must, search_dirs, files),
        Err(s) => Some(s),
    }
}

fn load_two(
    acc: &mut IniDocument,
    dir: &str,
    a: &str,
    b: &str,
    search_dirs: &Vec<String>,
    files: &FileSet,
) -> (r: Option<Stop>)
    ensures
        loaded_two(
            files@,
            text::texts(search_dirs@),
            dir@,
            a@,
            b@,
            old(acc)@,
        ) == (match r {
            Some(s) => Err::<Seq<SectionView>, StopView>(s@),
            None => Ok(final(acc)@),
        }),
{
    let mut paths: Vec<String> = Vec::new();
    paths.push(files::join_path(dir, a));
    paths.push(files::join_path(dir, b));
    assert(text::texts(paths@) =~= seq![files::below(dir@, a@), files::below(dir@, b@)]);
    files::load_paths(acc, &paths, false, search_dirs, files)
}

/// The global settings.
#[derive(Debug)]
pub struct GlobalConfig {
    /// The log level.
    pub loglevel: String,
    /// Where the log goes.
    pub logtarget: String,
    /// The path of the control socket.
    pub socket: String,
    /// The path of the file with the process ID.
    pub pidfile: String,
    /// The path of the database.
    pub dbfile: String,
    /// How many matched lines the database keeps with a ban.
    pub dbmaxmatches: u32,
    /// For how many seconds the database keeps bans.
    pub dbpurgeage: u64,
    /// Whether IPv6 is used.
    pub allowipv6: String,
    /// The stack size of a thread in KiB.
    pub stacksize: u32,
}

/// The model of the global settings.
#[verifier::ext_equal]
pub struct GlobalView {
    pub loglevel: Text,
    pub logtarget: Text,
    pub socket: Text,
    pub pidfile: Text,
    pub dbfile: Text,
    pub dbmaxmatches: u32,
    pub dbpurgeage: u64,
    pub allowipv6: Text,
    pub stacksize: u32,
}

impl View for GlobalConfig {
    type V = GlobalView;

    open spec fn view(&self) -> GlobalView {
        GlobalView {
            loglevel: self.loglevel@,
            logtarget: self.logtarget@,
            socket: self.socket@,
            pidfile: self.pidfile@,
            dbfile: self.dbfile@,
            dbmaxmatches: self.dbmaxmatches,
            dbpurgeage: self.dbpurgeage,
            allowipv6: self.allowipv6@,
            stacksize: self.stacksize,
        }
    }
}

/// The settings that hold where the files say nothing.
pub open spec fn global_defaults() -> GlobalView {
    GlobalView {
        loglevel: "INFO"@,
        logtarget: "STDOUT"@,
        socket: "/var/run/rail2ban/rail2ban.sock"@,
        pidfile: "/var/run/rail2ban/rail2ban.pid"@,
        dbfile: "/var/lib/rail2ban/rail2ban.sqlite3"@,
        dbmaxmatches: 10,
        dbpurgeage: 86400,
        allowipv6: "auto"@,
        stacksize: 0,
    }
}

/// The value of a key of a section, or `d` where there is none.
pub open spec fn value_or(doc: Seq<SectionView>, section: Text, key: Text, d: Text) -> Text {
    match parser::value_of(doc, section, key) {
        Some(v) => v,
        None => d,
    }
}

/// The number under a key of a section, or `d` where there is none that can be
/// read.
pub open spec fn number_or(doc: Seq<SectionView>, section: Text, key: Text, d: u32) -> u32 {
    match parser::value_of(doc, section, key) {
        Some(v) => match number::unsigned_of(v, u32::MAX as nat) {
            Ok(n) => n as u32,
            Err(_) => d,
        },
        None => d,
    }
}

/// The global settings that a document describes.
pub open spec fn global_of(doc: Seq<SectionView>) -> Result<GlobalView, ErrorView> {
    let d = global_defaults();
    let def = "Definition"@;
    let age = match parser::value_of(doc, def, "dbpurgeage"@) {
        Some(v) => match time::time_of(v) {
            Ok(t) => Ok(
                match t.seconds {
                    Some(n) => n,
                    None => u64::MAX,
                },
            ),
            Err(e) => Err(e),
        },
        None => Ok(d.dbpurgeage),
    };
    match age {
        Err(e) => Err(e),
        Ok(dbpurgeage) => Ok(
            GlobalView {
                loglevel: value_or(doc, def, "loglevel"@, d.loglevel),
                logtarget: value_or(doc, def, "logtarget"@, d.logtarget),
                socket: value_or(doc, def, "socket"@, d.socket),
                pidfile: value_or(doc, def, "pidfile"@, d.pidfile),
                dbfile: value_or(doc, def, "dbfile"@, d.dbfile),
                dbmaxmatches: number_or(doc, def, "dbmaxmatches"@, d.dbmaxmatches),
                dbpurgeage,
                allowipv6: value_or(doc, def, "allowipv6"@, d.allowipv6),
                stacksize: number_or(doc, "Thread"@, "stacksize"@, d.stacksize),
            },
        ),
    }
}

impl GlobalConfig {
    /// The settings that hold where the files say nothing.
    pub fn defaults() -> (r: GlobalConfig)
        ensures
            r@ == global_defaults(),
    {
        GlobalConfig {
            loglevel: "INFO".to_owned(),
            logtarget: "STDOUT".to_owned(),
            socket: "/var/run/rail2ban/rail2ban.sock".to_owned(),
            pidfile: "/var/run/rail2ban/rail2ban.pid".to_owned(),
            dbfile: "/var/lib/rail2ban/rail2ban.sqlite3".to_owned(),
            dbmaxmatches: 10,
            dbpurgeage: 86400,
            allowipv6: "auto".to_owned(),
            stacksize: 0,
        }
    }

    /// The settings that a document describes.
    pub fn from_doc(doc: &IniDocument) -> (r: Result<GlobalConfig, Error>)
        ensures
            error::outcome(r) == global_of(doc@),
    {
        let mut g = GlobalConfig::defaults();
        if let Some(def) = doc.section("Definition") {
            if let Some(v) = def.get("loglevel") {
                g.loglevel = v.to_owned();
            }
            if let Some(v) = def.get("logtarget") {
                g.logtarget = v.to_owned();
            }
            if let Some(v) = def.get("socket") {
                g.socket = v.to_owned();
            }
            if let Some(v) = def.get("pidfile") {
                g.pidfile = v.to_owned();
            }
            if let Some(v) = def.get("dbfile") {
                g.dbfile = v.to_owned();
            }
            if let Some(v) = def.get("dbmaxmatches") {
                if let Ok(n) = number::parse_unsigned(v, u32::MAX as u64) {
                    g.dbmaxmatches = n as u32;
                }
            }
            if let Some(v) = def.get("dbpurgeage") {
                match TimeValue::parse(v) {
                    Ok(t) => {
                        g.dbpurgeage = t.to_seconds_or_max();
                    },
                    Err(e) => {
                        return Err(e);
                    },
                }
            }
            if let Some(v) = def.get("allowipv6") {
                g.allowipv6 = v.to_owned();
            }
        }
        if let Some(t) = doc.section("Thread") {
            if let Some(v) = t.get("stacksize") {
                if let Ok(n) = number::parse_unsigned(v, u32::MAX as u64) {
                    g.stacksize = n as u32;
                }
            }
        }
        Ok(g)
    }
}

/// The model of a filter or an action as it is written.
#[verifier::ext_equal]
pub struct DefView {
    pub name: Text,
    pub doc: Seq<SectionView>,
}

impl View for FilterDefinition {
    type V = DefView;

    open spec fn view(&self) -> DefView {
        DefView { name: self.name@, doc: self.doc@ }
    }
}

impl View for ActionDefinition {
    type V = DefView;

    open spec fn view(&self) -> DefView {
        DefView { name: self.name@, doc: self.doc@ }
    }
}

/// What is looked up for the values of `[DEFAULT]`: one another, and the
/// built-in values.
pub open spec fn default_context(
    doc: Seq<SectionView>,
    builtins: Seq<(Text, Text)>,
) -> ContextView {
    ContextView {
        doc,
        defaults: Seq::empty(),
        builtins,
        current_section: Some("DEFAULT"@),
        init: Seq::empty(),
        known: Seq::empty(),
    }
}

/// The entries with their variables replaced where they can be.
pub open spec fn replaced_entries(e: Seq<(Text, Text)>, ctx: ContextView) -> Seq<(Text, Text)>
    decreases e.len(),
{
    if e.len() == 0 {
        Seq::empty()
    } else {
        table::put(
            replaced_entries(e.drop_last(), ctx),
            e.last().0,
            filter::replaced_or_raw(e.last().1, ctx),
        )
    }
}

/// The values that every jail inherits: those of `[DEFAULT]` with their
/// variables replaced.
pub open spec fn inherited(doc: Seq<SectionView>, builtins: Seq<(Text, Text)>) -> Seq<(Text, Text)> {
    replaced_entries(
        parser::put_sections(Seq::empty(), parser::all_named(doc, "DEFAULT"@)),
        default_context(doc, builtins),
    )
}

/// What is looked up for the values of a jail.
pub open spec fn jail_context(
    doc: Seq<SectionView>,
    defaults: Seq<(Text, Text)>,
    builtins: Seq<(Text, Text)>,
    section: Option<Text>,
) -> ContextView {
    ContextView {
        doc,
        defaults,
        builtins,
        current_section: section,
        init: Seq::empty(),
        known: Seq::empty(),
    }
}

/// A value of a jail with its variables replaced: by the values of its own
/// section and then the inherited ones; where that fails, as it does for a
/// value that refers to itself, by the inherited ones alone; and where that
/// fails too, the value as it is written.
pub open spec fn jail_value(
    v: Text,
    doc: Seq<SectionView>,
    defaults: Seq<(Text, Text)>,
    builtins: Seq<(Text, Text)>,
    name: Text,
) -> Text {
    match crate::config::interpolator::interpolated(
        v,
        jail_context(doc, defaults, builtins, Some(name)),
        0,
    ) {
        Ok(t) => t,
        Err(_) => filter::replaced_or_raw(v, jail_context(doc, defaults, builtins, None)),
    }
}

/// The entries of a jail with their variables replaced.
pub open spec fn jail_entries(
    e: Seq<(Text, Text)>,
    doc: Seq<SectionView>,
    defaults: Seq<(Text, Text)>,
    builtins: Seq<(Text, Text)>,
    name: Text,
) -> Seq<(Text, Text)>
    decreases e.len(),
{
    if e.len() == 0 {
        Seq::empty()
    } else {
        table::put(
            jail_entries(e.drop_last(), doc, defaults, builtins, name),
            e.last().0,
            jail_value(e.last().1, doc, defaults, builtins, name),
        )
    }
}

/// Whether a section describes a jail.
pub open spec fn is_jail_section(s: SectionView) -> bool {
    &&& s.name != "DEFAULT"@
    &&& s.name != "INCLUDES"@
    &&& !find::starts(s.name, "Init"@)
    &&& !find::starts(s.name, "lt_"@)
    &&& !find::starts(s.name, "ipt_"@)
    &&& s.entries.len() > 0
}

/// The jails that the sections from position `i` on describe, added to `acc`.
pub open spec fn jails_from(
    doc: Seq<SectionView>,
    i: int,
    defaults: Seq<(Text, Text)>,
    builtins: Seq<(Text, Text)>,
    files: Seq<SourceView>,
    acc: Seq<(Text, JailView)>,
) -> Result<Seq<(Text, JailView)>, StopView>
    decreases doc.len() - i,
{
    if i >= doc.len() {
        Ok(acc)
    } else if !is_jail_section(doc[i]) {
        jails_from(doc, i + 1, defaults, builtins, files, acc)
    } else {
        let s = doc[i];
        match jail::jail_of(
            s.name,
            jail_entries(s.entries, doc, defaults, builtins, s.name),
            defaults,
            files,
        ) {
            Err(e) => Err(e),
            Ok(j) => jails_from(
                doc,
                i + 1,
                defaults,
                builtins,
                files,
                table::put(acc, s.name, j),
            ),
        }
    }
}

/// The models of jails under their names.
pub open spec fn jail_views(e: Seq<(Text, JailConfig)>) -> Seq<(Text, JailView)> {
    table::mapped(e, |j: JailConfig| j@)
}

impl JailSet {
    /// The jails stand under distinct names, and each is well formed.
    pub open spec fn wf(&self) -> bool {
        &&& self.jails.wf()
        &&& forall|i: int| 0 <= i < self.jails@.len() ==> (#[trigger] self.jails@[i]).1.wf()
    }

    /// The jails that a document describes, and what they inherit.
    pub fn from_doc(doc: &IniDocument, builtins: &IndexMap<String, String>, files: &FileSet) -> (r:
        Result<JailSet, Stop>)
        ensures
            match r {
                Ok(s) => {
                    &&& s.wf()
                    &&& table::entries(s.defaults) == inherited(doc@, table::entries(*builtins))
                    &&& jails_from(
                        doc@,
                        0,
                        inherited(doc@, table::entries(*builtins)),
                        table::entries(*builtins),
                        files@,
                        Seq::empty(),
                    ) == Ok::<Seq<(Text, JailView)>, StopView>(jail_views(s.jails@))
                },
                Err(e) => jails_from(
                    doc@,
                    0,
                    inherited(doc@, table::entries(*builtins)),
                    table::entries(*builtins),
                    files@,
                    Seq::empty(),
                ) == Err::<Seq<(Text, JailView)>, StopView>(e@),
            },
    {
        let defaults = inherit(doc, builtins);
        let ghost d = table::entries(defaults);
        let ghost b = table::entries(*builtins);
        let mut jails: Registry<JailConfig> = Registry::new();
        let mut i: usize = 0;
        assert(jail_views(jails@) =~= Seq::empty());
        while i < doc.sections.len()
            invariant
                i <= doc.sections.len(),
                d == table::entries(defaults),
                b == table::entries(*builtins),
                d == inherited(doc@, b),
                jails.wf(),
                forall|k: int| 0 <= k < jails@.len() ==> (#[trigger] jails@[k]).1.wf(),
                jails_from(doc@, 0, d, b, files@, Seq::empty()) == jails_from(
                    doc@,
                    i as int,
                    d,
                    b,
                    files@,
                    jail_views(jails@),
                ),
            decreases doc.sections.len() - i,
        {
            let sec = &doc.sections[i];
            assert(doc@[i as int] == sec@);
            i += 1;
            if !describes_jail(sec) {
                continue;
            }
            let own = jail_section(sec, doc, &defaults, builtins);
            match JailConfig::from_section(sec.name.as_str(), &own, &defaults, files) {
                Ok(j) => {
                    let ghost before = jails@;
                    proof {
                        let f = |j: JailConfig| j@;
                        table::lemma_mapped(before, f, sec.name@, j);
                        assert(jail_views(before) =~= table::mapped(before, f));
                        let after = table::put(before, sec.name@, j);
                        assert(jail_views(after) =~= table::mapped(after, f));
                    }
                    jails.insert(sec.name.clone(), j);
                    proof {
                        table::lemma_slot(before, sec.name@);
                        assert forall|k: int| 0 <= k < jails@.len() implies (
                        #[trigger] jails@[k]).1.wf() by {
                            if k < before.len() && k != table::slot(before, sec.name@) {
                                assert(jails@[k] == before[k]);
                            }
                        }
                    }
                },
                Err(e) => {
                    return Err(e);
                },
            }
        }
        Ok(JailSet { defaults, jails })
    }
}

fn describes_jail(s: &IniSection) -> (r: bool)
    ensures
        r == is_jail_section(s@),
{
    let n = s.name.as_str();
    !text::same(n, "DEFAULT") && !text::same(n, "INCLUDES") && !find::starts_with(n, "Init")
        && !find::starts_with(n, "lt_") && !find::starts_with(n, "ipt_") && !s.is_empty()
}

fn inherit(doc: &IniDocument, builtins: &IndexMap<String, String>) -> (r: IndexMap<String, String>)
    ensures
        table::entries(r) == inherited(doc@, table::entries(*builtins)),
{
    let mut raw = table::new_table();
    parser::insert_sections(&mut raw, doc, "DEFAULT");
    let none = table::new_table();
    let ctx = InterpolationContext {
        doc,
        defaults: &none,
        builtins,
        current_section: Some("DEFAULT".to_owned()),
        init: &none,
        known: &none,
    };
    let ghost c = default_context(doc@, table::entries(*builtins));
    let ghost all = table::entries(raw);
    let mut out = table::new_table();
    let n = table::size(&raw);
    let mut i: usize = 0;
    assert(all.take(0) =~= Seq::empty());
    while i < n
        invariant
            i <= n == all.len(),
            all == table::entries(raw),
            c == ctx@,
            table::entries(out) == replaced_entries(all.take(i as int), c),
        decreases n - i,
    {
        proof {
            assert(all.take(i + 1).drop_last() =~= all.take(i as int));
            assert(all.take(i + 1).last() == all[i as int]);
        }
        if let Some((k, v)) = table::at(&raw, i) {
            let value = filter::interpolate_or_raw(v.as_str(), &ctx);
            table::insert(&mut out, k.clone(), value);
        }
        i += 1;
    }
    assert(all.take(i as int) =~= all);
    out
}

fn jail_section(
    sec: &IniSection,
    doc: &IniDocument,
    defaults: &IndexMap<String, String>,
    builtins: &IndexMap<String, String>,
) -> (r: IniSection)
    ensures
        r@.entries == jail_entries(
            sec@.entries,
            doc@,
            table::entries(*defaults),
            table::entries(*builtins),
            sec@.name,
        ),
{
    let none = table::new_table();
    let own = InterpolationContext {
        doc,
        defaults,
        builtins,
        current_section: Some(sec.name.clone()),
        init: &none,
        known: &none,
    };
    let bare = InterpolationContext {
        doc,
        defaults,
        builtins,
        current_section: None,
        init: &none,
        known: &none,
    };
    let ghost d = table::entries(*defaults);
    let ghost b = table::entries(*builtins);
    let ghost all = sec@.entries;
    let mut out = IniSection::named(sec.name.as_str());
    let n = table::size(&sec.entries);
    let mut i: usize = 0;
    assert(all.take(0) =~= Seq::empty());
    while i < n
        invariant
            i <= n == all.len(),
            all == table::entries(sec.entries),
            own@ == jail_context(doc@, d, b, Some(sec@.name)),
            bare@ == jail_context(doc@, d, b, None),
            out@.entries == jail_entries(all.take(i as int), doc@, d, b, sec@.name),
        decreases n - i,
    {
        proof {
            assert(all.take(i + 1).drop_last() =~= all.take(i as int));
            assert(all.take(i + 1).last() == all[i as int]);
        }
        if let Some((k, v)) = table::at(&sec.entries, i) {
            let value = match crate::config::interpolator::interpolate(v.as_str(), &own) {
                Ok(t) => t,
                Err(_) => filter::interpolate_or_raw(v.as_str(), &bare),
            };
            out.set(k.as_str(), value.as_str());
        }
        i += 1;
    }
    assert(all.take(i as int) =~= all);
    out
}

/// The actions that specifications from position `i` on name, added to `acc`.
/// One that cannot be loaded is passed over.
pub open spec fn actions_from(
    specs: Seq<Text>,
    i: int,
    dirs: Seq<Text>,
    files: Seq<SourceView>,
    acc: Seq<(Text, DefView)>,
) -> Result<Seq<(Text, DefView)>, StopView>
    decreases specs.len() - i,
{
    if i >= specs.len() {
        Ok(acc)
    } else {
        let name = jail::spec_name(specs[i]);
        if name.len() == 0 || table::lookup(acc, name) is Some {
            actions_from(specs, i + 1, dirs, files, acc)
        } else {
            match files::definition("action"@, "action.d"@, name, dirs, files) {
                Ok(doc) => actions_from(
                    specs,
                    i + 1,
                    dirs,
                    files,
                    table::put(acc, name, DefView { name, doc }),
                ),
                Err(StopView::Failed(_)) => actions_from(specs, i + 1, dirs, files, acc),
                Err(s) => Err(s),
            }
        }
    }
}

/// The filter of a jail added to `acc`.
pub open spec fn filter_added(
    name: Text,
    dirs: Seq<Text>,
    files: Seq<SourceView>,
    acc: Seq<(Text, DefView)>,
) -> Result<Seq<(Text, DefView)>, StopView> {
    if name.len() == 0 || table::lookup(acc, name) is Some {
        Ok(acc)
    } else {
        match files::definition("filter"@, "filter.d"@, name, dirs, files) {
            Ok(doc) => Ok(table::put(acc, name, DefView { name, doc })),
            Err(s) => Err(s),
        }
    }
}

/// The filters and the actions that the jails from position `i` on refer to,
/// added to those at hand. A filter that cannot be loaded is an error.
pub open spec fn definitions_from(
    jails: Seq<(Text, JailView)>,
    i: int,
    dirs: Seq<Text>,
    files: Seq<SourceView>,
    filters: Seq<(Text, DefView)>,
    actions: Seq<(Text, DefView)>,
) -> Result<(Seq<(Text, DefView)>, Seq<(Text, DefView)>), StopView>
    decreases jails.len() - i,
{
    if i >= jails.len() {
        Ok((filters, actions))
    } else {
        match filter_added(jails[i].1.filter, dirs, files, filters) {
            Err(s) => Err(s),
            Ok(f) => match actions_from(jails[i].1.actions, 0, dirs, files, actions) {
                Err(s) => Err(s),
                Ok(a) => definitions_from(jails, i + 1, dirs, files, f, a),
            },
        }
    }
}

/// The whole configuration.
pub struct LoadedConfig {
    /// What jails inherit, and the built-in values.
    pub defaults: IndexMap<String, String>,
    /// The jails.
    pub jails: JailSet,
    /// The filters that jails refer to.
    pub filters: Registry<FilterDefinition>,
    /// The actions that jails refer to.
    pub actions: Registry<ActionDefinition>,
    /// The global settings.
    pub global: GlobalConfig,
}

/// The model of the whole configuration.
pub struct ConfigView {
    pub defaults: Seq<(Text, Text)>,
    pub inherited: Seq<(Text, Text)>,
    pub jails: Seq<(Text, JailView)>,
    pub filters: Seq<(Text, DefView)>,
    pub actions: Seq<(Text, DefView)>,
    pub global: GlobalView,
}

/// The models of filters under their names.
pub open spec fn filter_views(e: Seq<(Text, FilterDefinition)>) -> Seq<(Text, DefView)> {
    table::mapped(e, |d: FilterDefinition| d@)
}

/// The models of actions under their names.
pub open spec fn action_views(e: Seq<(Text, ActionDefinition)>) -> Seq<(Text, DefView)> {
    table::mapped(e, |d: ActionDefinition| d@)
}

impl View for LoadedConfig {
    type V = ConfigView;

    open spec fn view(&self) -> ConfigView {
        ConfigView {
            defaults: table::entries(self.defaults),
            inherited: table::entries(self.jails.defaults),
            jails: jail_views(self.jails.jails@),
            filters: filter_views(self.filters@),
            actions: action_views(self.actions@),
            global: self.global@,
        }
    }
}

/// The whole configuration, from what is known of the files and directories.
pub open spec fn config_of(
    dirs: Seq<Text>,
    builtins: Seq<(Text, Text)>,
    files: Seq<SourceView>,
    lists: Seq<ListingView>,
) -> Result<ConfigView, StopView> {
    match global_doc(files, lists, dirs, 0, Seq::empty()) {
        Err(s) => Err(s),
        Ok(g) => match global_of(g) {
            Err(e) => Err(StopView::Failed(e)),
            Ok(global) => match jail_doc(files, lists, dirs, 0, Seq::empty()) {
                Err(s) => Err(s),
                Ok(doc) => {
                    let shared = inherited(doc, builtins);
                    match jails_from(doc, 0, shared, builtins, files, Seq::empty()) {
                        Err(s) => Err(s),
                        Ok(jails) => match definitions_from(
                            jails,
                            0,
                            dirs,
                            files,
                            Seq::empty(),
                            Seq::empty(),
                        ) {
                            Err(s) => Err(s),
                            Ok(d) => Ok(
                                ConfigView {
                                    defaults: table::put_missing(shared, builtins),
                                    inherited: shared,
                                    jails,
                                    filters: d.0,
                                    actions: d.1,
                                    global,
                                },
                            ),
                        },
                    }
                },
            },
        },
    }
}

fn add_actions(
    specs: &Vec<String>,
    search_dirs: &Vec<String>,
    files: &FileSet,
    acc: &mut Registry<ActionDefinition>,
) -> (r: Option<Stop>)
    requires
        old(acc).wf(),
    ensures
        final(acc).wf(),
        actions_from(
            text::texts(specs@),
            0,
            text::texts(search_dirs@),
            files@,
            action_views(old(acc)@),
        ) == (match r {
            Some(s) => Err::<Seq<(Text, DefView)>, StopView>(s@),
            None => Ok(action_views(final(acc)@)),
        }),
{
    let ghost all = text::texts(specs@);
    let ghost dirs = text::texts(search_dirs@);
    let ghost start = action_views(acc@);
    let mut i: usize = 0;
    while i < specs.len()
        invariant
            i <= specs.len(),
            start == action_views(old(acc)@),
            all == text::texts(specs@),
            dirs == text::texts(search_dirs@),
            acc.wf(),
            actions_from(all, 0, dirs, files@, start) == actions_from(
                all,
                i as int,
                dirs,
                files@,
                action_views(acc@),
            ),
        decreases specs.len() - i,
    {
        let name = jail::name_of_spec(specs[i].as_str());
        let ghost before = acc@;
        let ghost f = |d: ActionDefinition| d@;
        proof {
            assert(all[i as int] == specs@[i as int]@);
            assert(action_views(before) =~= table::mapped(before, f));
            table::lemma_mapped(before, f, name@, arbitrary());
        }
        i += 1;
        if name.is_empty() || acc.get(name).is_some() {
            continue;
        }
        match ActionDefinition::load(name, search_dirs, files) {
            Ok(a) => {
                proof {
                    table::lemma_mapped(before, f, name@, a);
                    let after = table::put(before, name@, a);
                    assert(action_views(after) =~= table::mapped(after, f));
                }
                acc.insert(name.to_owned(), a);
            },
            Err(Stop::Failed(_)) => {},
            Err(s) => {
                return Some(s);
            },
        }
    }
    None
}

fn add_filter(
    name: &str,
    search_dirs: &Vec<String>,
    files: &FileSet,
    acc: &mut Registry<FilterDefinition>,
) -> (r: Option<Stop>)
    requires
        old(acc).wf(),
    ensures
        final(acc).wf(),
        filter_added(
            name@,
            text::texts(search_dirs@),
            files@,
            filter_views(old(acc)@),
        ) == (match r {
            Some(s) => Err::<Seq<(Text, DefView)>, StopView>(s@),
            None => Ok(filter_views(final(acc)@)),
        }),
{
    let ghost before = acc@;
    let ghost f = |d: FilterDefinition| d@;
    proof {
        assert(filter_views(before) =~= table::mapped(before, f));
        table::lemma_mapped(before, f, name@, arbitrary());
    }
    if name.is_empty() || acc.get(name).is_some() {
        return None;
    }
    match FilterDefinition::load(name, search_dirs, files) {
        Ok(d) => {
            proof {
                table::lemma_mapped(before, f, name@, d);
                let after = table::put(before, name@, d);
                assert(filter_views(after) =~= table::mapped(after, f));
            }
            acc.insert(name.to_owned(), d);
            None
        },
        Err(s) => Some(s),
    }
}

fn add_definitions(
    jails: &Registry<JailConfig>,
    search_dirs: &Vec<String>,
    files: &FileSet,
    filters: &mut Registry<FilterDefinition>,
    actions: &mut Registry<ActionDefinition>,
) -> (r: Option<Stop>)
    requires
        old(filters).wf(),
        old(actions).wf(),
    ensures
        final(filters).wf(),
        final(actions).wf(),
        definitions_from(
            jail_views(jails@),
            0,
            text::texts(search_dirs@),
            files@,
            filter_views(old(filters)@),
            action_views(old(actions)@),
        ) == (match r {
            Some(s) => Err::<(Seq<(Text, DefView)>, Seq<(Text, DefView)>), StopView>(s@),
            None => Ok((filter_views(final(filters)@), action_views(final(actions)@))),
        }),
{
    let ghost dirs = text::texts(search_dirs@);
    let ghost all = jail_views(jails@);
    let ghost whole = definitions_from(
        all,
        0,
        dirs,
        files@,
        filter_views(filters@),
        action_views(actions@),
    );
    let mut i: usize = 0;
    while i < jails.len()
        invariant
            i <= jails@.len(),
            dirs == text::texts(search_dirs@),
            all == jail_views(jails@),
            filters.wf(),
            actions.wf(),
            whole == definitions_from(
                all,
                0,
                dirs,
                files@,
                filter_views(old(filters)@),
                action_views(old(actions)@),
            ),
            whole == definitions_from(
                all,
                i as int,
                dirs,
                files@,
                filter_views(filters@),
                action_views(actions@),
            ),
        decreases jails@.len() - i,
    {
        let j = jails.item_at(i);
        assert(all[i as int].1 == j@);
        if let Some(s) = add_filter(j.filter.as_str(), search_dirs, files, filters) {
            return Some(s);
        }
        if let Some(s) = add_actions(&j.actions, search_dirs, files, actions) {
            return Some(s);
        }
        i += 1;
    }
    None
}

/// Loads the configuration from search directories; later ones override
/// earlier ones.
pub struct ConfigLoader {
    search_dirs: Vec<String>,
}

impl ConfigLoader {
    /// The search directories.
    pub closed spec fn dirs(&self) -> Seq<Text> {
        text::texts(self.search_dirs@)
    }

    /// A loader for the search directories.
    pub fn new(search_dirs: Vec<String>) -> (r: ConfigLoader)
        ensures
            r.dirs() == text::texts(search_dirs@),
    {
        ConfigLoader { search_dirs }
    }

    fn load_global(&self, files: &FileSet, lists: &DirSet) -> (r: Result<GlobalConfig, Stop>)
        ensures
            files::answer(r) == (match global_doc(files@, lists@, self.dirs(), 0, Seq::empty()) {
                Err(s) => Err(s),
                Ok(g) => match global_of(g) {
                    Ok(v) => Ok(v),
                    Err(e) => Err(StopView::Failed(e)),
                },
            }),
    {
        let ghost dirs = self.dirs();
        let mut doc = IniDocument::new();
        let mut i: usize = 0;
        while i < self.search_dirs.len()
            invariant
                i <= self.search_dirs.len(),
                dirs == text::texts(self.search_dirs@),
                global_doc(files@, lists@, dirs, 0, Seq::empty()) == global_doc(
                    files@,
                    lists@,
                    dirs,
                    i as int,
                    doc@,
                ),
            decreases self.search_dirs.len() - i,
        {
            let d = self.search_dirs[i].as_str();
            assert(dirs[i as int] == d@);
            if let Some(s) = load_two(
                &mut doc,
                d,
                "fail2ban.conf",
                "rail2ban.conf",
                &self.search_dirs,
                files,
            ) {
                return Err(s);
            }
            let dd = files::join_path(d, "fail2ban.d");
            if let Some(s) = load_dir(
                &mut doc,
                dd.as_str(),
                "conf",
                true,
                &self.search_dirs,
                files,
                lists,
            ) {
                return Err(s);
            }
            i += 1;
        }
        match GlobalConfig::from_doc(&doc) {
            Ok(g) => Ok(g),
            Err(e) => Err(Stop::Failed(e)),
        }
    }

    fn load_jails(&self, builtins: &IndexMap<String, String>, files: &FileSet, lists: &DirSet) -> (r:
        Result<JailSet, Stop>)
        ensures
            match jail_doc(files@, lists@, self.dirs(), 0, Seq::empty()) {
                Err(s) => r matches Err(e) && e@ == s,
                Ok(doc) => match r {
                    Ok(s) => {
                        &&& s.wf()
                        &&& table::entries(s.defaults) == inherited(
                            doc,
                            table::entries(*builtins),
                        )
                        &&& jails_from(
                            doc,
                            0,
                            inherited(doc, table::entries(*builtins)),
                            table::entries(*builtins),
                            files@,
                            Seq::empty(),
                        ) == Ok::<Seq<(Text, JailView)>, StopView>(jail_views(s.jails@))
                    },
                    Err(e) => jails_from(
                        doc,
                        0,
                        inherited(doc, table::entries(*builtins)),
                        table::entries(*builtins),
                        files@,
                        Seq::empty(),
                    ) == Err::<Seq<(Text, JailView)>, StopView>(e@),
                },
            },
    {
        let ghost dirs = self.dirs();
        let mut doc = IniDocument::new();
        let mut i: usize = 0;
        while i < self.search_dirs.len()
            invariant
                i <= self.search_dirs.len(),
                dirs == text::texts(self.search_dirs@),
                jail_doc(files@, lists@, dirs, 0, Seq::empty()) == jail_doc(
                    files@,
                    lists@,
                    dirs,
                    i as int,
                    doc@,
                ),
            decreases self.search_dirs.len() - i,
        {
            let d = self.search_dirs[i].as_str();
            assert(dirs[i as int] == d@);
            let dd = files::join_path(d, "jail.d");
            if let Some(s) = load_two(
                &mut doc,
                d,
                "jail.conf",
                "rail2ban.conf",
                &self.search_dirs,
                files,
            ) {
                return Err(s);
            }
            if let Some(s) = load_dir(
                &mut doc,
                dd.as_str(),
                "conf",
                false,
                &self.search_dirs,
                files,
                lists,
            ) {
                return Err(s);
            }
            if let Some(s) = load_two(
                &mut doc,
                d,
                "jail.local",
                "rail2ban.local",
                &self.search_dirs,
                files,
            ) {
                return Err(s);
            }
            if let Some(s) = load_dir(
                &mut doc,
                dd.as_str(),
                "local",
                false,
                &self.search_dirs,
                files,
                lists,
            ) {
                return Err(s);
            }
            i += 1;
        }
        JailSet::from_doc(&doc, builtins, files)
    }

    /// Loads the configuration, with what is known of the files and
    /// directories and the built-in values.
    pub fn load(&self, builtins: &IndexMap<String, String>, files: &FileSet, lists: &DirSet) -> (r:
        Result<LoadedConfig, Stop>)
        ensures
            files::answer(r) == config_of(
                self.dirs(),
                table::entries(*builtins),
                files@,
                lists@,
            ),
            r matches Ok(c) ==> c.wf(),
    {
        let global = match self.load_global(files, lists) {
            Ok(g) => g,
            Err(s) => {
                return Err(s);
            },
        };
        let jails = match self.load_jails(builtins, files, lists) {
            Ok(j) => j,
            Err(s) => {
                return Err(s);
            },
        };
        let mut filters: Registry<FilterDefinition> = Registry::new();
        let mut actions: Registry<ActionDefinition> = Registry::new();
        proof {
            assert(filter_views(filters@) =~= Seq::empty());
            assert(action_views(actions@) =~= Seq::empty());
        }
        if let Some(s) = add_definitions(
            &jails.jails,
            &self.search_dirs,
            files,
            &mut filters,
            &mut actions,
        ) {
            return Err(s);
        }
        let mut defaults = table::copy(&jails.defaults);
        table::insert_missing(&mut defaults, builtins);
        Ok(LoadedConfig { defaults, jails, filters, actions, global })
    }
}

impl LoadedConfig {
    /// Names are distinct, and the jails are well formed.
    pub open spec fn wf(&self) -> bool {
        &&& self.jails.wf()
        &&& self.filters.wf()
        &&& self.actions.wf()
    }
}

/// The name of an action specification such as `iptables[name=sshd]`.
pub fn action_name(spec: &str) -> (r: &str)
    ensures
        r@ == jail::spec_name(spec@),
{
    jail::name_of_spec(spec)
}

/// The parameters of an action specification such as `iptables[name=sshd]`.
pub fn action_params(spec: &str) -> (r: Result<IndexMap<String, String>, Error>)
    ensures
        match r {
            Ok(t) => jail::spec_params(spec@, "action"@, "]"@) == Ok::<
                Seq<(Text, Text)>,
                ErrorView,
            >(table::entries(t)),
            Err(e) => jail::spec_params(spec@, "action"@, "]"@) == Err::<
                Seq<(Text, Text)>,
                ErrorView,
            >(e@),
        },
{
    jail::params_of_spec(spec, "action", "]")
}

/// The files of a search directory that describe jails, in the order in which
/// they are read: `jail.conf`, `rail2ban.conf`, `jail.d/*.conf` by name,
/// `jail.local`, `rail2ban.local` and `jail.d/*.local` by name.
pub open spec fn jail_files(lists: Seq<ListingView>, dir: Text) -> Seq<Text> {
    let more = files::below(dir, "jail.d"@);
    let confs = match paths_in(lists, more, "conf"@) {
        Ok(p) => p,
        Err(_) => Seq::empty(),
    };
    let locals = match paths_in(lists, more, "local"@) {
        Ok(p) => p,
        Err(_) => Seq::empty(),
    };
    seq![files::below(dir, "jail.conf"@), files::below(dir, "rail2ban.conf"@)] + confs + seq![
        files::below(dir, "jail.local"@),
        files::below(dir, "rail2ban.local"@),
    ] + locals
}

/// The files of the search directories from position `i` on that describe
/// jails, in the order in which they are read.
pub open spec fn all_jail_files(lists: Seq<ListingView>, dirs: Seq<Text>, i: int) -> Seq<Text>
    decreases dirs.len() - i,
{
    if i >= dirs.len() {
        Seq::empty()
    } else {
        jail_files(lists, dirs[i]) + all_jail_files(lists, dirs, i + 1)
    }
}

proof fn lemma_jail_dir(
    files: Seq<SourceView>,
    lists: Seq<ListingView>,
    dirs: Seq<Text>,
    i: int,
    acc: Seq<SectionView>,
)
    requires
        0 <= i < dirs.len(),
        jail_doc(files, lists, dirs, i, acc) is Ok,
    ensures
        files::loaded(files, dirs, jail_files(lists, dirs[i]), 0, false, acc) is Ok,
        jail_doc(files, lists, dirs, i, acc) == jail_doc(
            files,
            lists,
            dirs,
            i + 1,
            files::loaded(files, dirs, jail_files(lists, dirs[i]), 0, false, acc)->Ok_0,
        ),
{
    let dir = dirs[i];
    let more = files::below(dir, "jail.d"@);
    let one = seq![files::below(dir, "jail.conf"@), files::below(dir, "rail2ban.conf"@)];
    let two = seq![files::below(dir, "jail.local"@), files::below(dir, "rail2ban.local"@)];
    let confs = paths_in(lists, more, "conf"@)->Ok_0;
    let locals = paths_in(lists, more, "local"@)->Ok_0;
    files::law_lists_load_in_turn(files, dirs, one, confs, 0, acc);
    files::law_lists_load_in_turn(files, dirs, one + confs, two, 0, acc);
    files::law_lists_load_in_turn(files, dirs, one + confs + two, locals, 0, acc);
}

/// The document of the jails is that of the files that describe jails, read
/// one after the other, over all of the search directories.
pub proof fn law_jail_files_in_order(
    files: Seq<SourceView>,
    lists: Seq<ListingView>,
    dirs: Seq<Text>,
    i: int,
    acc: Seq<SectionView>,
)
    requires
        0 <= i <= dirs.len(),
        jail_doc(files, lists, dirs, i, acc) is Ok,
    ensures
        files::loaded(files, dirs, all_jail_files(lists, dirs, i), 0, false, acc) == jail_doc(
            files,
            lists,
            dirs,
            i,
            acc,
        ),
    decreases dirs.len() - i,
{
    if i < dirs.len() {
        lemma_jail_dir(files, lists, dirs, i, acc);
        let here = jail_files(lists, dirs[i]);
        let next = files::loaded(files, dirs, here, 0, false, acc)->Ok_0;
        law_jail_files_in_order(files, lists, dirs, i + 1, next);
        files::law_lists_load_in_turn(
            files,
            dirs,
            here,
            all_jail_files(lists, dirs, i + 1),
            0,
            acc,
        );
    }
}

/// Of all the files that describe jails, the last one that gives a key of a
/// section a value decides it; `j` is its place.
pub proof fn law_last_jail_file_decides(
    files: Seq<SourceView>,
    lists: Seq<ListingView>,
    dirs: Seq<Text>,
    section: Text,
    key: Text,
    j: int,
)
    requires
        0 <= j < all_jail_files(lists, dirs, 0).len(),
        ({
            let paths = all_jail_files(lists, dirs, 0);
            &&& files::file_setting(files, dirs, paths[j], Set::empty(), section, key) is Some
            &&& forall|k: int|
                j < k < paths.len() ==> files::file_setting(
                    files,
                    dirs,
                    #[trigger] paths[k],
                    Set::empty(),
                    section,
                    key,
                ) is None
        }),
    ensures
        jail_doc(files, lists, dirs, 0, Seq::empty()) matches Ok(doc) ==> parser::value_of(
            doc,
            section,
            key,
        ) == files::file_setting(
            files,
            dirs,
            all_jail_files(lists, dirs, 0)[j],
            Set::empty(),
            section,
            key,
        ),
{
    if jail_doc(files, lists, dirs, 0, Seq::empty()) is Ok {
        law_jail_files_in_order(files, lists, dirs, 0, Seq::empty());
        files::law_last_setting_file_decides(
            files,
            dirs,
            all_jail_files(lists, dirs, 0),
            0,
            Seq::empty(),
            section,
            key,
            j,
        );
    }
}

/// What a file `jail.d/*.conf` of the last search directory sets counts where
/// no file that is read after it sets it; `j` is the file's place.
pub proof fn law_jail_d_counts(
    files: Seq<SourceView>,
    lists: Seq<ListingView>,
    dirs: Seq<Text>,
    section: Text,
    key: Text,
    j: int,
)
    requires
        dirs.len() > 0,
        ({
            let dir = dirs.last();
            let more = files::below(dir, "jail.d"@);
            let confs = paths_in(lists, more, "conf"@);
            let locals = paths_in(lists, more, "local"@);
            &&& confs is Ok && locals is Ok
            &&& 0 <= j < confs->Ok_0.len()
            &&& files::file_setting(files, dirs, confs->Ok_0[j], Set::empty(), section, key) is Some
            &&& forall|k: int|
                j < k < confs->Ok_0.len() ==> files::file_setting(
                    files,
                    dirs,
                    #[trigger] confs->Ok_0[k],
                    Set::empty(),
                    section,
                    key,
                ) is None
            &&& files::file_setting(
                files,
                dirs,
                files::below(dir, "jail.local"@),
                Set::empty(),
                section,
                key,
            ) is None
            &&& files::file_setting(
                files,
                dirs,
                files::below(dir, "rail2ban.local"@),
                Set::empty(),
                section,
                key,
            ) is None
            &&& forall|k: int|
                0 <= k < locals->Ok_0.len() ==> files::file_setting(
                    files,
                    dirs,
                    #[trigger] locals->Ok_0[k],
                    Set::empty(),
                    section,
                    key,
                ) is None
        }),
    ensures
        jail_doc(files, lists, dirs, 0, Seq::empty()) matches Ok(doc) ==> parser::value_of(
            doc,
            section,
            key,
        ) == files::file_setting(
            files,
            dirs,
            paths_in(lists, files::below(dirs.last(), "jail.d"@), "conf"@)->Ok_0[j],
            Set::empty(),
            section,
            key,
        ),
{
    if jail_doc(files, lists, dirs, 0, Seq::empty()) is Ok {
        let dir = dirs.last();
        let more = files::below(dir, "jail.d"@);
        let confs = paths_in(lists, more, "conf"@)->Ok_0;
        let locals = paths_in(lists, more, "local"@)->Ok_0;
        let here = jail_files(lists, dir);
        assert forall|k: int| j + 2 < k < here.len() implies files::file_setting(
            files,
            dirs,
            #[trigger] here[k],
            Set::empty(),
            section,
            key,
        ) is None by {
            let n = confs.len();
            if k < 2 + n {
                assert(here[k] == confs[k - 2]);
            } else if k >= 4 + n {
                assert(here[k] == locals[k - 4 - n]);
            }
        }
        assert(here[j + 2] == confs[j]);
        lemma_last_dir(files, lists, dirs, 0, Seq::empty(), section, key, j + 2);
    }
}

proof fn lemma_last_dir(
    files: Seq<SourceView>,
    lists: Seq<ListingView>,
    dirs: Seq<Text>,
    i: int,
    acc: Seq<SectionView>,
    section: Text,
    key: Text,
    j: int,
)
    requires
        0 <= i < dirs.len(),
        jail_doc(files, lists, dirs, i, acc) is Ok,
        0 <= j < jail_files(lists, dirs.last()).len(),
        ({
            let here = jail_files(lists, dirs.last());
            &&& files::file_setting(files, dirs, here[j], Set::empty(), section, key) is Some
            &&& forall|k: int|
                j < k < here.len() ==> files::file_setting(
                    files,
                    dirs,
                    #[trigger] here[k],
                    Set::empty(),
                    section,
                    key,
                ) is None
        }),
    ensures
        parser::value_of(jail_doc(files, lists, dirs, i, acc)->Ok_0, section, key)
            == files::file_setting(
            files,
            dirs,
            jail_files(lists, dirs.last())[j],
            Set::empty(),
            section,
            key,
        ),
    decreases dirs.len() - i,
{
    lemma_jail_dir(files, lists, dirs, i, acc);
    let here = jail_files(lists, dirs[i]);
    let next = files::loaded(files, dirs, here, 0, false, acc)->Ok_0;
    if i + 1 < dirs.len() {
        lemma_last_dir(files, lists, dirs, i + 1, next, section, key, j);
    } else {
        files::law_last_setting_file_decides(files, dirs, here, 0, acc, section, key, j);
    }
}

/// A file name has an extension that holds no dot exactly where it is
/// something, a dot and the extension.
pub proof fn law_extension(name: Text, stem: Text, ext: Text)
    requires
        !ext.contains('.'),
    ensures
        stem.len() > 0 ==> has_extension(stem + "."@ + ext, ext),
        has_extension(name, ext) ==> name.len() > ext.len() + 1 && find::ends(name, "."@ + ext),
{
    reveal_strlit(".");
    let s = stem + "."@ + ext;
    assert(s[stem.len() as int] == '.');
    lemma_rfind(s, stem.len() as int);
    assert(s.skip(stem.len() as int + 1) =~= ext);
    lemma_rfind_range(name);
    if has_extension(name, ext) {
        let i = find::rfind(name, '.');
        assert(name.skip(i + 1).len() == ext.len());
        assert(i < name.len());
        assert(name.skip(name.len() - (1 + ext.len())) =~= "."@ + ext);
    }
}

proof fn lemma_rfind(s: Text, i: int)
    requires
        0 <= i < s.len(),
        s[i] == '.',
        forall|k: int| i < k < s.len() ==> s[k] != '.',
    ensures
        find::rfind(s, '.') == i,
    decreases s.len(),
{
    if i < s.len() - 1 {
        assert(s[s.len() - 1] != '.');
        lemma_rfind(s.drop_last(), i);
    }
}

proof fn lemma_rfind_range(s: Text)
    ensures
        find::rfind(s, '.') < s.len(),
        0 <= find::rfind(s, '.') ==> s[find::rfind(s, '.')] == '.',
    decreases s.len(),
{
    if s.len() > 0 && s.last() != '.' {
        lemma_rfind_range(s.drop_last());
    }
}

proof fn lemma_with_extension(names: Seq<Text>, ext: Text, n: Text)
    ensures
        with_extension(names, ext).contains(n) <==> names.contains(n) && has_extension(n, ext),
    decreases names.len(),
{
    if names.len() > 0 {
        let d = names.drop_last();
        let w = with_extension(d, ext);
        lemma_with_extension(d, ext, n);
        assert(names[names.len() - 1] == names.last());
        if names.contains(n) && !d.contains(n) {
            let i = choose|i: int| 0 <= i < names.len() && names[i] == n;
            if i < d.len() {
                assert(d[i] == n);
            }
        }
        if d.contains(n) {
            let i = choose|i: int| 0 <= i < d.len() && d[i] == n;
            assert(names[i] == n);
        }
        if has_extension(names.last(), ext) {
            let p = w.push(names.last());
            assert(p[w.len() as int] == names.last());
            if w.contains(n) {
                let i = choose|i: int| 0 <= i < w.len() && w[i] == n;
                assert(p[i] == n);
            }
            if p.contains(n) && n != names.last() {
                let i = choose|i: int| 0 <= i < p.len() && p[i] == n;
                assert(w[i] == n);
            }
        }
    }
}

/// The files of a directory that are read are those of its names that have
/// the extension, in the order of the names.
pub proof fn law_directory_files(lists: Seq<ListingView>, dir: Text, ext: Text, n: Text)
    requires
        listing(lists, dir) matches Some(l) && l.names is Some,
    ensures
        paths_in(lists, dir, ext) is Ok,
        ({
            let names = (listing(lists, dir)->0).names->0;
            exists|s: Seq<Text>|
                #![trigger sort::ordered(s)]
                {
                    &&& sort::ordered(s)
                    &&& s.contains(n) <==> names.contains(n) && has_extension(n, ext)
                    &&& paths_in(lists, dir, ext)->Ok_0.len() == s.len()
                    &&& forall|i: int|
                        0 <= i < s.len() ==> paths_in(lists, dir, ext)->Ok_0[i] == files::below(
                            dir,
                            #[trigger] s[i],
                        )
                }
        }),
{
    let names = (listing(lists, dir)->0).names->0;
    let w = with_extension(names, ext);
    let s = sort::sorted(w);
    sort::law_sorted(w);
    lemma_with_extension(names, ext, n);
    broadcast use vstd::seq_lib::group_to_multiset_ensures;

    assert(s.contains(n) <==> s.to_multiset().count(n) > 0);
    assert(w.contains(n) <==> w.to_multiset().count(n) > 0);
    assert(sort::ordered(s));
}

proof fn lemma_jails_from_keeps(
    doc: Seq<SectionView>,
    i: int,
    defaults: Seq<(Text, Text)>,
    builtins: Seq<(Text, Text)>,
    files: Seq<SourceView>,
    acc: Seq<(Text, JailView)>,
    name: Text,
)
    requires
        0 <= i <= doc.len(),
        forall|k: int| i <= k < doc.len() ==> (#[trigger] doc[k]).name != name,
    ensures
        jails_from(doc, i, defaults, builtins, files, acc) matches Ok(r) ==> table::lookup(r, name)
            == table::lookup(acc, name),
    decreases doc.len() - i,
{
    if i < doc.len() {
        let s = doc[i];
        if !is_jail_section(s) {
            lemma_jails_from_keeps(doc, i + 1, defaults, builtins, files, acc, name);
        } else {
            let e = jail_entries(s.entries, doc, defaults, builtins, s.name);
            if let Ok(j) = jail::jail_of(s.name, e, defaults, files) {
                table::law_put_lookup(acc, s.name, j, name);
                lemma_jails_from_keeps(
                    doc,
                    i + 1,
                    defaults,
                    builtins,
                    files,
                    table::put(acc, s.name, j),
                    name,
                );
            }
        }
    }
}

/// Every section that describes a jail makes the jail of its name, with its
/// own entries and the inherited ones, where the names are distinct; `at` is
/// the section's place. A section whose jail cannot be made is an error.
pub proof fn law_section_makes_jail(
    doc: Seq<SectionView>,
    i: int,
    defaults: Seq<(Text, Text)>,
    builtins: Seq<(Text, Text)>,
    files: Seq<SourceView>,
    acc: Seq<(Text, JailView)>,
    at: int,
)
    requires
        0 <= i <= at < doc.len(),
        forall|k: int| at < k < doc.len() ==> (#[trigger] doc[k]).name != doc[at].name,
        doc[at].name != "DEFAULT"@,
        doc[at].name != "INCLUDES"@,
        !find::starts(doc[at].name, "Init"@),
        !find::starts(doc[at].name, "lt_"@),
        !find::starts(doc[at].name, "ipt_"@),
        doc[at].entries.len() > 0,
    ensures
        jails_from(doc, i, defaults, builtins, files, acc) matches Ok(r) ==> {
            let s = doc[at];
            let e = jail_entries(s.entries, doc, defaults, builtins, s.name);
            jail::jail_of(s.name, e, defaults, files) matches Ok(j) && table::lookup(r, s.name)
                == Some(j)
        },
    decreases at - i,
{
    let s = doc[i];
    let e = jail_entries(s.entries, doc, defaults, builtins, s.name);
    if i < at {
        if !is_jail_section(s) {
            law_section_makes_jail(doc, i + 1, defaults, builtins, files, acc, at);
        } else if let Ok(j) = jail::jail_of(s.name, e, defaults, files) {
            law_section_makes_jail(
                doc,
                i + 1,
                defaults,
                builtins,
                files,
                table::put(acc, s.name, j),
                at,
            );
        }
    } else if let Ok(j) = jail::jail_of(s.name, e, defaults, files) {
        table::law_put_lookup(acc, s.name, j, s.name);
        lemma_jails_from_keeps(
            doc,
            i + 1,
            defaults,
            builtins,
            files,
            table::put(acc, s.name, j),
            s.name,
        );
    }
}

/// A section that is no jail's makes none: those of the defaults, of the
/// drawn-in files, of parameters and of variants, and those without entries.
pub proof fn law_other_sections_make_no_jail(
    doc: Seq<SectionView>,
    defaults: Seq<(Text, Text)>,
    builtins: Seq<(Text, Text)>,
    files: Seq<SourceView>,
    name: Text,
)
    requires
        name == "DEFAULT"@ || name == "INCLUDES"@ || find::starts(name, "Init"@) || find::starts(
            name,
            "lt_"@,
        ) || find::starts(name, "ipt_"@) || (forall|k: int|
            0 <= k < doc.len() ==> (#[trigger] doc[k]).name == name ==> doc[k].entries.len() == 0),
    ensures
        jails_from(doc, 0, defaults, builtins, files, Seq::empty()) matches Ok(r) ==> table::lookup(
            r,
            name,
        ) is None,
{
    table::lemma_slot(Seq::<(Text, JailView)>::empty(), name);
    lemma_no_jail(doc, 0, defaults, builtins, files, Seq::empty(), name);
}

proof fn lemma_no_jail(
    doc: Seq<SectionView>,
    i: int,
    defaults: Seq<(Text, Text)>,
    builtins: Seq<(Text, Text)>,
    files: Seq<SourceView>,
    acc: Seq<(Text, JailView)>,
    name: Text,
)
    requires
        0 <= i <= doc.len(),
        forall|k: int|
            0 <= k < doc.len() && (#[trigger] doc[k]).name == name ==> !is_jail_section(doc[k]),
        table::lookup(acc, name) is None,
    ensures
        jails_from(doc, i, defaults, builtins, files, acc) matches Ok(r) ==> table::lookup(r, name)
            is None,
    decreases doc.len() - i,
{
    if i < doc.len() {
        let s = doc[i];
        if !is_jail_section(s) {
            lemma_no_jail(doc, i + 1, defaults, builtins, files, acc, name);
        } else {
            let e = jail_entries(s.entries, doc, defaults, builtins, s.name);
            if let Ok(j) = jail::jail_of(s.name, e, defaults, files) {
                table::law_put_lookup(acc, s.name, j, name);
                lemma_no_jail(
                    doc,
                    i + 1,
                    defaults,
                    builtins,
                    files,
                    table::put(acc, s.name, j),
                    name,
                );
            }
        }
    }
}

/// The entries of a jail are those of its section, each with the variables of
/// its value replaced; a value without variables stays as it is.
pub proof fn law_jail_entries(
    e: Seq<(Text, Text)>,
    doc: Seq<SectionView>,
    defaults: Seq<(Text, Text)>,
    builtins: Seq<(Text, Text)>,
    name: Text,
    k: Text,
)
    ensures
        table::lookup(jail_entries(e, doc, defaults, builtins, name), k) == (match table::last_value(
            e,
            k,
        ) {
            Some(v) => Some(jail_value(v, doc, defaults, builtins, name)),
            None => None,
        }),
        table::last_value(e, k) matches Some(v) ==> !v.contains('%') && !v.contains('<')
            ==> table::lookup(jail_entries(e, doc, defaults, builtins, name), k) == Some(v),
    decreases e.len(),
{
    if let Some(v) = table::last_value(e, k) {
        if !v.contains('%') && !v.contains('<') {
            crate::config::interpolator::law_plain_text_unchanged(
                v,
                jail_context(doc, defaults, builtins, Some(name)),
                0,
            );
        }
    }
    if e.len() == 0 {
        table::lemma_slot(e, k);
    } else {
        let front = e.drop_last();
        law_jail_entries(front, doc, defaults, builtins, name, k);
        table::law_put_lookup(
            jail_entries(front, doc, defaults, builtins, name),
            e.last().0,
            jail_value(e.last().1, doc, defaults, builtins, name),
            k,
        );
    }
}

/// A variable in the value of a jail is replaced by the value of the jail's
/// own section, or else by the inherited one, where these hold no variables.
pub proof fn law_jail_variable(
    doc: Seq<SectionView>,
    defaults: Seq<(Text, Text)>,
    builtins: Seq<(Text, Text)>,
    name: Text,
    var: Text,
    v: Text,
)
    requires
        parser::bare_name(var),
        !v.contains('%'),
        !v.contains('<'),
        parser::value_of(doc, name, var) == Some(v) || (parser::value_of(doc, name, var) is None
            && table::lookup(defaults, var) == Some(v)),
    ensures
        jail_value("%("@ + var + ")s"@, doc, defaults, builtins, name) == v,
{
    let ctx = jail_context(doc, defaults, builtins, Some(name));
    let none = Seq::<char>::empty();
    assert(!var.contains('/') && !var.contains(')')) by {
        if var.contains('/') {
            let i = choose|i: int| 0 <= i < var.len() && var[i] == '/';
            assert(parser::in_name(var[i]));
        }
        if var.contains(')') {
            let i = choose|i: int| 0 <= i < var.len() && var[i] == ')';
            assert(parser::in_name(var[i]));
        }
    }
    assert(parser::in_name(var[0]));
    assert(parser::in_name(var[var.len() - 1]));
    assert(crate::text::trim::trimmed(var) == var);
    crate::config::interpolator::law_variable_is_looked_up(var, ctx);
    crate::config::interpolator::law_variable_replaced(var, none, ctx, 0);
    crate::config::interpolator::law_plain_text_unchanged(v, ctx, 1);
    assert(!none.contains('%') && !none.contains('<'));
    crate::config::interpolator::law_plain_text_unchanged(none, ctx, 0);
    assert("%("@ + var + ")s"@ + none =~= "%("@ + var + ")s"@);
    assert(v + none =~= v);
}

/// What every jail inherits is what the `[DEFAULT]` sections set last, with
/// the variables replaced; a value without variables stays as it is.
pub proof fn law_defaults_are_inherited(
    doc: Seq<SectionView>,
    builtins: Seq<(Text, Text)>,
    k: Text,
)
    ensures
        table::lookup(inherited(doc, builtins), k) is Some <==> parser::last_setting(
            doc,
            "DEFAULT"@,
            k,
        ) is Some,
        parser::last_setting(doc, "DEFAULT"@, k) matches Some(v) ==> !v.contains('%')
            && !v.contains('<') ==> table::lookup(inherited(doc, builtins), k) == Some(v),
{
    let none = Seq::<(Text, Text)>::empty();
    let secs = parser::all_named(doc, "DEFAULT"@);
    let raw = parser::put_sections(none, secs);
    let ctx = default_context(doc, builtins);
    parser::law_sections_put(none, doc, "DEFAULT"@, k);
    table::lemma_slot(none, k);
    crate::config::action::lemma_put_sections_distinct(none, secs);
    crate::config::action::lemma_only_value(raw, k);
    lemma_replaced_entries(raw, ctx, k);
    if let Some(v) = parser::last_setting(doc, "DEFAULT"@, k) {
        if !v.contains('%') && !v.contains('<') {
            crate::config::interpolator::law_plain_text_unchanged(v, ctx, 0);
        }
    }
}

proof fn lemma_replaced_entries(e: Seq<(Text, Text)>, ctx: ContextView, k: Text)
    ensures
        table::lookup(replaced_entries(e, ctx), k) == (match table::last_value(e, k) {
            Some(v) => Some(filter::replaced_or_raw(v, ctx)),
            None => None,
        }),
    decreases e.len(),
{
    if e.len() == 0 {
        table::lemma_slot(e, k);
    } else {
        lemma_replaced_entries(e.drop_last(), ctx, k);
        table::law_put_lookup(
            replaced_entries(e.drop_last(), ctx),
            e.last().0,
            filter::replaced_or_raw(e.last().1, ctx),
            k,
        );
    }
}

/// The global settings are the values of the keys of their names in
/// `[Definition]`, the stack's size the one in `[Thread]`; where there is no
/// value, what the documentation names. `n` is any number.
pub proof fn law_global_settings(doc: Seq<SectionView>, n: u32)
    requires
        global_of(doc) is Ok,
    ensures
        ({
            let g = global_of(doc)->Ok_0;
            let get = |k: Text| parser::value_of(doc, "Definition"@, k);
            &&& get("loglevel"@) matches Some(v) ==> g.loglevel == v
            &&& get("loglevel"@) is None ==> g.loglevel == "INFO"@
            &&& get("logtarget"@) matches Some(v) ==> g.logtarget == v
            &&& get("logtarget"@) is None ==> g.logtarget == "STDOUT"@
            &&& get("socket"@) matches Some(v) ==> g.socket == v
            &&& get("socket"@) is None ==> g.socket == "/var/run/rail2ban/rail2ban.sock"@
            &&& get("pidfile"@) matches Some(v) ==> g.pidfile == v
            &&& get("pidfile"@) is None ==> g.pidfile == "/var/run/rail2ban/rail2ban.pid"@
            &&& get("dbfile"@) matches Some(v) ==> g.dbfile == v
            &&& get("dbfile"@) is None ==> g.dbfile == "/var/lib/rail2ban/rail2ban.sqlite3"@
            &&& get("dbmaxmatches"@) == Some(number::decimal(n as nat)) ==> g.dbmaxmatches == n
            &&& get("dbmaxmatches"@) is None ==> g.dbmaxmatches == 10
            &&& get("dbpurgeage"@) == Some(number::decimal(n as nat)) ==> g.dbpurgeage == n
            &&& get("dbpurgeage"@) is None ==> g.dbpurgeage == 86400
            &&& get("allowipv6"@) matches Some(v) ==> g.allowipv6 == v
            &&& get("allowipv6"@) is None ==> g.allowipv6 == "auto"@
            &&& parser::value_of(doc, "Thread"@, "stacksize"@) == Some(number::decimal(n as nat))
                ==> g.stacksize == n
            &&& parser::value_of(doc, "Thread"@, "stacksize"@) is None ==> g.stacksize == 0
        }),
{
    number::lemma_decimal_read(n as nat, u32::MAX as nat);
    time::law_number_is_its_seconds(n as u64, 0);
}

/// The filter that a jail names is loaded under its name, from `filter.d`, and
/// one that cannot be loaded is an error.
pub proof fn law_filter_is_loaded(
    name: Text,
    dirs: Seq<Text>,
    files: Seq<SourceView>,
    acc: Seq<(Text, DefView)>,
)
    requires
        name.len() > 0,
        table::lookup(acc, name) is None,
    ensures
        match files::definition("filter"@, "filter.d"@, name, dirs, files) {
            Ok(doc) => filter_added(name, dirs, files, acc) matches Ok(r) && table::lookup(r, name)
                == Some(DefView { name, doc }),
            Err(s) => filter_added(name, dirs, files, acc) == Err::<Seq<(Text, DefView)>, StopView>(
                s,
            ),
        },
{
    if let Ok(doc) = files::definition("filter"@, "filter.d"@, name, dirs, files) {
        table::law_put_lookup(acc, name, DefView { name, doc }, name);
    }
}

/// Every action that a jail names is loaded under its name, from `action.d`;
/// one that cannot be loaded is passed over.
pub proof fn law_actions_are_loaded(
    specs: Seq<Text>,
    i: int,
    dirs: Seq<Text>,
    files: Seq<SourceView>,
    acc: Seq<(Text, DefView)>,
    at: int,
)
    requires
        0 <= i <= at < specs.len(),
        jail::spec_name(specs[at]).len() > 0,
        table::lookup(acc, jail::spec_name(specs[at])) is None,
    ensures
        actions_from(specs, i, dirs, files, acc) matches Ok(r) ==> {
            let name = jail::spec_name(specs[at]);
            match files::definition("action"@, "action.d"@, name, dirs, files) {
                Ok(doc) => table::lookup(r, name) == Some(DefView { name, doc }),
                Err(_) => table::lookup(r, name) is None,
            }
        },
    decreases specs.len() - i,
{
    let here = jail::spec_name(specs[i]);
    let name = jail::spec_name(specs[at]);
    if here.len() == 0 || table::lookup(acc, here) is Some {
        law_actions_are_loaded(specs, i + 1, dirs, files, acc, at);
    } else {
        match files::definition("action"@, "action.d"@, here, dirs, files) {
            Ok(doc) => {
                let next = table::put(acc, here, DefView { name: here, doc });
                table::law_put_lookup(acc, here, DefView { name: here, doc }, name);
                if here == name {
                    lemma_actions_keep(specs, i + 1, dirs, files, next, name);
                } else {
                    law_actions_are_loaded(specs, i + 1, dirs, files, next, at);
                }
            },
            Err(StopView::Failed(_)) => {
                if i < at {
                    law_actions_are_loaded(specs, i + 1, dirs, files, acc, at);
                } else {
                    lemma_actions_fail(specs, i + 1, dirs, files, acc, name);
                }
            },
            Err(_) => {},
        }
    }
}

proof fn lemma_actions_keep(
    specs: Seq<Text>,
    i: int,
    dirs: Seq<Text>,
    files: Seq<SourceView>,
    acc: Seq<(Text, DefView)>,
    name: Text,
)
    requires
        table::lookup(acc, name) is Some,
    ensures
        actions_from(specs, i, dirs, files, acc) matches Ok(r) ==> table::lookup(r, name)
            == table::lookup(acc, name),
    decreases specs.len() - i,
{
    if i < specs.len() {
        let here = jail::spec_name(specs[i]);
        if here.len() == 0 || table::lookup(acc, here) is Some {
            lemma_actions_keep(specs, i + 1, dirs, files, acc, name);
        } else {
            match files::definition("action"@, "action.d"@, here, dirs, files) {
                Ok(doc) => {
                    table::law_put_lookup(acc, here, DefView { name: here, doc }, name);
                    lemma_actions_keep(
                        specs,
                        i + 1,
                        dirs,
                        files,
                        table::put(acc, here, DefView { name: here, doc }),
                        name,
                    );
                },
                Err(StopView::Failed(_)) => {
                    lemma_actions_keep(specs, i + 1, dirs, files, acc, name);
                },
                Err(_) => {},
            }
        }
    }
}

proof fn lemma_actions_fail(
    specs: Seq<Text>,
    i: int,
    dirs: Seq<Text>,
    files: Seq<SourceView>,
    acc: Seq<(Text, DefView)>,
    name: Text,
)
    requires
        table::lookup(acc, name) is None,
        files::definition("action"@, "action.d"@, name, dirs, files) is Err,
    ensures
        actions_from(specs, i, dirs, files, acc) matches Ok(r) ==> table::lookup(r, name) is None,
    decreases specs.len() - i,
{
    if i < specs.len() {
        let here = jail::spec_name(specs[i]);
        if here.len() == 0 || table::lookup(acc, here) is Some {
            lemma_actions_fail(specs, i + 1, dirs, files, acc, name);
        } else {
            match files::definition("action"@, "action.d"@, here, dirs, files) {
                Ok(doc) => {
                    table::law_put_lookup(acc, here, DefView { name: here, doc }, name);
                    lemma_actions_fail(
                        specs,
                        i + 1,
                        dirs,
                        files,
                        table::put(acc, here, DefView { name: here, doc }),
                        name,
                    );
                },
                Err(StopView::Failed(_)) => {
                    lemma_actions_fail(specs, i + 1, dirs, files, acc, name);
                },
                Err(_) => {},
            }
        }
    }
}

/// The files of the global settings: of each search directory in turn
/// `fail2ban.conf`, `rail2ban.conf` and `fail2ban.d/*.conf` by name. What one
/// of the last directory sets counts where no file that is read after it sets
/// it; `j` is the file's place.
pub proof fn law_last_global_file_decides(
    files: Seq<SourceView>,
    lists: Seq<ListingView>,
    dirs: Seq<Text>,
    section: Text,
    key: Text,
    j: int,
)
    requires
        dirs.len() > 0,
        paths_in(lists, files::below(dirs.last(), "fail2ban.d"@), "conf"@) is Ok,
        ({
            let dir = dirs.last();
            let confs = paths_in(lists, files::below(dir, "fail2ban.d"@), "conf"@)->Ok_0;
            let paths = seq![
                files::below(dir, "fail2ban.conf"@),
                files::below(dir, "rail2ban.conf"@),
            ] + confs;
            &&& forall|k: int|
                0 <= k < confs.len() ==> (files::known(files, #[trigger] confs[k]) matches Some(f)
                    && f.exists)
            &&& 0 <= j < paths.len()
            &&& files::file_setting(files, dirs, paths[j], Set::empty(), section, key) is Some
            &&& forall|k: int|
                j < k < paths.len() ==> files::file_setting(
                    files,
                    dirs,
                    #[trigger] paths[k],
                    Set::empty(),
                    section,
                    key,
                ) is None
        }),
    ensures
        global_doc(files, lists, dirs, 0, Seq::empty()) matches Ok(doc) ==> {
            let dir = dirs.last();
            let confs = paths_in(lists, files::below(dir, "fail2ban.d"@), "conf"@)->Ok_0;
            let paths = seq![
                files::below(dir, "fail2ban.conf"@),
                files::below(dir, "rail2ban.conf"@),
            ] + confs;
            parser::value_of(doc, section, key) == files::file_setting(
                files,
                dirs,
                paths[j],
                Set::empty(),
                section,
                key,
            )
        },
{
    lemma_last_global_dir(files, lists, dirs, 0, Seq::empty(), section, key, j);
}

proof fn lemma_last_global_dir(
    files: Seq<SourceView>,
    lists: Seq<ListingView>,
    dirs: Seq<Text>,
    i: int,
    acc: Seq<SectionView>,
    section: Text,
    key: Text,
    j: int,
)
    requires
        0 <= i < dirs.len(),
        paths_in(lists, files::below(dirs.last(), "fail2ban.d"@), "conf"@) is Ok,
        ({
            let dir = dirs.last();
            let confs = paths_in(lists, files::below(dir, "fail2ban.d"@), "conf"@)->Ok_0;
            let paths = seq![
                files::below(dir, "fail2ban.conf"@),
                files::below(dir, "rail2ban.conf"@),
            ] + confs;
            &&& forall|k: int|
                0 <= k < confs.len() ==> (files::known(files, #[trigger] confs[k]) matches Some(f)
                    && f.exists)
            &&& 0 <= j < paths.len()
            &&& files::file_setting(files, dirs, paths[j], Set::empty(), section, key) is Some
            &&& forall|k: int|
                j < k < paths.len() ==> files::file_setting(
                    files,
                    dirs,
                    #[trigger] paths[k],
                    Set::empty(),
                    section,
                    key,
                ) is None
        }),
    ensures
        global_doc(files, lists, dirs, i, acc) matches Ok(doc) ==> {
            let dir = dirs.last();
            let confs = paths_in(lists, files::below(dir, "fail2ban.d"@), "conf"@)->Ok_0;
            let paths = seq![
                files::below(dir, "fail2ban.conf"@),
                files::below(dir, "rail2ban.conf"@),
            ] + confs;
            parser::value_of(doc, section, key) == files::file_setting(
                files,
                dirs,
                paths[j],
                Set::empty(),
                section,
                key,
            )
        },
    decreases dirs.len() - i,
{
    if global_doc(files, lists, dirs, i, acc) is Ok {
        let dir = dirs[i];
        let one = seq![files::below(dir, "fail2ban.conf"@), files::below(dir, "rail2ban.conf"@)];
        let confs = paths_in(lists, files::below(dir, "fail2ban.d"@), "conf"@)->Ok_0;
        let a = files::loaded(files, dirs, one, 0, false, acc)->Ok_0;
        let b = files::loaded(files, dirs, confs, 0, true, a)->Ok_0;
        if i + 1 < dirs.len() {
            lemma_last_global_dir(files, lists, dirs, i + 1, b, section, key, j);
        } else {
            lemma_must_exist(files, dirs, confs, 0, a);
            files::law_lists_load_in_turn(files, dirs, one, confs, 0, acc);
            files::law_last_setting_file_decides(
                files,
                dirs,
                one + confs,
                0,
                acc,
                section,
                key,
                j,
            );
        }
    }
}

proof fn lemma_must_exist(
    files: Seq<SourceView>,
    dirs: Seq<Text>,
    paths: Seq<Text>,
    i: int,
    acc: Seq<SectionView>,
)
    requires
        0 <= i <= paths.len(),
        forall|k: int|
            0 <= k < paths.len() ==> (files::known(files, #[trigger] paths[k]) matches Some(f)
                && f.exists),
    ensures
        files::loaded(files, dirs, paths, i, true, acc) == files::loaded(
            files,
            dirs,
            paths,
            i,
            false,
            acc,
        ),
    decreases paths.len() - i,
{
    if i < paths.len() {
        assert(files::known(files, paths[i]) matches Some(f) && f.exists);
        if let Ok(d) = files::file_doc(files, paths[i]) {
            if let Ok(r) = files::resolved(files, dirs, d, paths[i], Set::empty()) {
                lemma_must_exist(files, dirs, paths, i + 1, parser::merged(acc, r));
            }
        }
    }
}

/// A configuration is made of the global settings, the jails, and the filters
/// and actions that the jails name; `[DEFAULT]` counts for all jails, and the
/// built-in values stand where it gives none.
pub proof fn law_configuration_is_loaded(
    dirs: Seq<Text>,
    builtins: Seq<(Text, Text)>,
    files: Seq<SourceView>,
    lists: Seq<ListingView>,
    c: ConfigView,
)
    requires
        config_of(dirs, builtins, files, lists) == Ok::<ConfigView, StopView>(c),
    ensures
        ({
            let g = global_doc(files, lists, dirs, 0, Seq::empty());
            let doc = jail_doc(files, lists, dirs, 0, Seq::empty());
            &&& g is Ok
            &&& global_of(g->Ok_0) == Ok::<GlobalView, ErrorView>(c.global)
            &&& doc is Ok
            &&& c.inherited == inherited(doc->Ok_0, builtins)
            &&& jails_from(doc->Ok_0, 0, c.inherited, builtins, files, Seq::empty()) == Ok::<
                Seq<(Text, JailView)>,
                StopView,
            >(c.jails)
            &&& definitions_from(c.jails, 0, dirs, files, Seq::empty(), Seq::empty()) == Ok::<
                (Seq<(Text, DefView)>, Seq<(Text, DefView)>),
                StopView,
            >((c.filters, c.actions))
            &&& c.defaults == table::put_missing(c.inherited, builtins)
        }),
{
}

/// A value of a jail has its variables replaced as they stand in its section;
/// where they cannot be, as they stand outside any section; and where they
/// cannot be either, it stays as it is written.
pub proof fn law_value_of_a_jail(
    v: Text,
    doc: Seq<SectionView>,
    defaults: Seq<(Text, Text)>,
    builtins: Seq<(Text, Text)>,
    name: Text,
    t: Text,
)
    ensures
        ({
            let inside = crate::config::interpolator::interpolated(
                v,
                jail_context(doc, defaults, builtins, Some(name)),
                0,
            );
            let outside = crate::config::interpolator::interpolated(
                v,
                jail_context(doc, defaults, builtins, None),
                0,
            );
            let r = jail_value(v, doc, defaults, builtins, name);
            &&& inside == Ok::<Text, ErrorView>(t) ==> r == t
            &&& inside is Err && outside == Ok::<Text, ErrorView>(t) ==> r == t
            &&& inside is Err && outside is Err ==> r == v
        }),
        jail_context(doc, defaults, builtins, Some(name)).current_section == Some(name),
        jail_context(doc, defaults, builtins, None).current_section is None,
        jail_context(doc, defaults, builtins, None).doc == doc,
        jail_context(doc, defaults, builtins, None).defaults == defaults,
        jail_context(doc, defaults, builtins, None).builtins == builtins,
{
}

} // verus!
