//! The configuration of a filter, from `filter.d/<name>.conf`.

use crate::config::action;
use crate::config::files;
use crate::config::files::{FileSet, Stop, StopView};
use crate::config::interpolator;
use crate::config::interpolator::{ContextView, InterpolationContext};
use crate::config::parser;
use crate::config::parser::{IniDocument, IniSection, SectionView};
use crate::error;
use crate::error::{Error, ErrorView};
use crate::table;
use crate::text;
use crate::text::find;
use crate::text::number;
use crate::text::split;
use crate::text::Text;
use indexmap::IndexMap;
use vstd::prelude::*;

verus! {

/// A filter's configuration with its variables replaced.
#[derive(Debug)]
pub struct FilterConfig {
    /// The filter's name.
    pub name: String,
    /// The pattern that a line has to match first.
    pub prefregex: Option<String>,
    /// The patterns of failures.
    pub failregex: Vec<String>,
    /// The patterns of lines to pass over.
    pub ignoreregex: Vec<String>,
    /// The pattern of dates; without one they are detected.
    pub datepattern: Option<String>,
    /// How many lines are matched together.
    pub maxlines: u32,
    /// The kind of log: `file`, `short`, `journal` or `rfc5424`.
    pub logtype: String,
    /// What to match in the systemd journal.
    pub journalmatch: Vec<String>,
    /// The parameters.
    pub init: IndexMap<String, String>,
}

/// The model of a filter's configuration.
#[verifier::ext_equal]
pub struct FilterView {
    pub name: Text,
    pub prefregex: Option<Text>,
    pub failregex: Seq<Text>,
    pub ignoreregex: Seq<Text>,
    pub datepattern: Option<Text>,
    pub maxlines: u32,
    pub logtype: Text,
    pub journalmatch: Seq<Text>,
    pub init: Seq<(Text, Text)>,
}

impl View for FilterConfig {
    type V = FilterView;

    open spec fn view(&self) -> FilterView {
        FilterView {
            name: self.name@,
            prefregex: text::opt_text(self.prefregex),
            failregex: text::texts(self.failregex@),
            ignoreregex: text::texts(self.ignoreregex@),
            datepattern: text::opt_text(self.datepattern),
            maxlines: self.maxlines,
            logtype: self.logtype@,
            journalmatch: text::texts(self.journalmatch@),
            init: table::entries(self.init),
        }
    }
}

/// A filter as it is written, before its variables are replaced.
#[derive(Debug)]
pub struct FilterDefinition {
    /// The filter's name.
    pub name: String,
    /// Its sections.
    pub doc: IniDocument,
}

/// The value of a key of a section with its variables replaced. Where they
/// cannot be replaced, the value stays as it is written.
pub open spec fn value_in(
    sec: Seq<(Text, Text)>,
    key: Text,
    ctx: ContextView,
) -> Option<Text> {
    match table::lookup(sec, key) {
        Some(v) => Some(replaced_or_raw(v, ctx)),
        None => None,
    }
}

/// A text with its variables replaced, or as it is where they cannot be.
pub open spec fn replaced_or_raw(v: Text, ctx: ContextView) -> Text {
    match interpolator::interpolated(v, ctx, 0) {
        Ok(t) => t,
        Err(_) => v,
    }
}

/// The lines of a value, without white space at their ends and without empty
/// ones; none where there is no value.
pub open spec fn value_lines(v: Option<Text>) -> Seq<Text> {
    match v {
        Some(t) => split::tidied(split::lines_of(t)),
        None => Seq::empty(),
    }
}

/// The parameters of a filter: those of its `[Init]` section, overridden by
/// those of the jail.
pub open spec fn filter_init(doc: Seq<SectionView>, init: Seq<(Text, Text)>) -> Seq<(Text, Text)> {
    let own = match parser::section_of(doc, "Init"@) {
        Some(s) => table::put_all(Seq::empty(), s.entries),
        None => Seq::empty(),
    };
    table::put_all(own, init)
}

/// A filter's configuration: the values of its `[Definition]` section with
/// their variables replaced.
pub open spec fn filter_of(
    name: Text,
    doc: Seq<SectionView>,
    init: Seq<(Text, Text)>,
    defaults: Seq<(Text, Text)>,
    builtins: Seq<(Text, Text)>,
) -> Result<FilterView, ErrorView> {
    match parser::section_of(doc, "Definition"@) {
        None => Err(ErrorView::Config("filter "@ + name + " missing [Definition]"@)),
        Some(def) => {
            let params = filter_init(doc, init);
            let ctx = ContextView {
                doc,
                defaults,
                builtins,
                current_section: Some("Definition"@),
                init: params,
                known: table::put_all(table::put_all(Seq::empty(), def.entries), params),
            };
            let maxlines = value_in(def.entries, "maxlines"@, ctx);
            Ok(
                FilterView {
                    name,
                    prefregex: value_in(def.entries, "prefregex"@, ctx),
                    failregex: value_lines(value_in(def.entries, "failregex"@, ctx)),
                    ignoreregex: value_lines(value_in(def.entries, "ignoreregex"@, ctx)),
                    datepattern: value_in(def.entries, "datepattern"@, ctx),
                    maxlines: match maxlines {
                        Some(t) => match number::unsigned_of(t, u32::MAX as nat) {
                            Ok(n) => n as u32,
                            Err(_) => 1,
                        },
                        None => 1,
                    },
                    logtype: match value_in(def.entries, "logtype"@, ctx) {
                        Some(t) => t,
                        None => "file"@,
                    },
                    journalmatch: match value_in(def.entries, "journalmatch"@, ctx) {
                        Some(t) => split::tidied(split::pieces(t, '+')),
                        None => Seq::empty(),
                    },
                    init: params,
                },
            )
        },
    }
}

/// The text with its variables replaced, or as it is where they cannot be.
pub fn interpolate_or_raw(v: &str, ctx: &InterpolationContext<'_>) -> (r: String)
    ensures
        r@ == replaced_or_raw(v@, ctx@),
{
    match interpolator::interpolate(v, ctx) {
        Ok(t) => t,
        Err(_) => v.to_owned(),
    }
}

/// The value of a key with its variables replaced.
pub fn value_of_key(sec: &IniSection, key: &str, ctx: &InterpolationContext<'_>) -> (r: Option<
    String,
>)
    ensures
        text::opt_text(r) == value_in(sec@.entries, key@, ctx@),
{
    match sec.get(key) {
        Some(v) => Some(interpolate_or_raw(v, ctx)),
        None => None,
    }
}

fn lines_of_value(v: Option<String>) -> (r: Vec<String>)
    ensures
        text::texts(r@) == value_lines(text::opt_text(v)),
{
    match v {
        Some(t) => split::tidy(&split::lines(t.as_str())),
        None => {
            let r: Vec<String> = Vec::new();
            assert(text::texts(r@) =~= Seq::empty());
            r
        },
    }
}

impl FilterDefinition {
    /// Loads a filter from `filter.d/<name>.conf` and `filter.d/<name>.local`
    /// of each search directory.
    pub fn load(name: &str, search_dirs: &Vec<String>, files: &FileSet) -> (r: Result<
        FilterDefinition,
        Stop,
    >)
        ensures
            match r {
                Ok(f) => f.name@ == name@ && files::definition(
                    "filter"@,
                    "filter.d"@,
                    name@,
                    text::texts(search_dirs@),
                    files@,
                ) == Ok::<Seq<SectionView>, StopView>(f.doc@),
                Err(s) => files::definition(
                    "filter"@,
                    "filter.d"@,
                    name@,
                    text::texts(search_dirs@),
                    files@,
                ) == Err::<Seq<SectionView>, StopView>(s@),
            },
    {
        match files::load_definition("filter", "filter.d", name, search_dirs, files) {
            Ok(doc) => Ok(FilterDefinition { name: name.to_owned(), doc }),
            Err(s) => Err(s),
        }
    }

    /// Builds the filter's configuration, with the parameters that a jail
    /// gives.
    pub fn materialize(
        &self,
        init: &IndexMap<String, String>,
        defaults: &IndexMap<String, String>,
        builtins: &IndexMap<String, String>,
    ) -> (r: Result<FilterConfig, Error>)
        ensures
            error::outcome(r) == filter_of(
                self.name@,
                self.doc@,
                table::entries(*init),
                table::entries(*defaults),
                table::entries(*builtins),
            ),
    {
        let def = match self.doc.section("Definition") {
            Some(s) => s,
            None => {
                return Err(
                    Error::Config(
                        text::cat3("filter ", self.name.as_str(), " missing [Definition]"),
                    ),
                );
            },
        };
        let mut merged_init = table::new_table();
        if let Some(s) = self.doc.section("Init") {
            table::insert_all(&mut merged_init, &s.entries);
        }
        table::insert_all(&mut merged_init, init);
        let mut known = table::new_table();
        table::insert_all(&mut known, &def.entries);
        table::insert_all(&mut known, &merged_init);
        let ctx = InterpolationContext {
            doc: &self.doc,
            defaults,
            builtins,
            current_section: Some("Definition".to_owned()),
            init: &merged_init,
            known: &known,
        };
        let prefregex = value_of_key(def, "prefregex", &ctx);
        let failregex = lines_of_value(value_of_key(def, "failregex", &ctx));
        let ignoreregex = lines_of_value(value_of_key(def, "ignoreregex", &ctx));
        let datepattern = value_of_key(def, "datepattern", &ctx);
        let maxlines: u32 = match value_of_key(def, "maxlines", &ctx) {
            Some(t) => match number::parse_unsigned(t.as_str(), u32::MAX as u64) {
                Ok(n) => n as u32,
                Err(_) => 1,
            },
            None => 1,
        };
        let logtype = match value_of_key(def, "logtype", &ctx) {
            Some(t) => t,
            None => "file".to_owned(),
        };
        let mut journalmatch: Vec<String> = Vec::new();
        assert(text::texts(journalmatch@) =~= Seq::empty());
        if let Some(t) = value_of_key(def, "journalmatch", &ctx) {
            journalmatch = split::tidy(&split::split(t.as_str(), '+'));
        }
        let name = self.name.clone();
        Ok(
            FilterConfig {
                name,
                prefregex,
                failregex,
                ignoreregex,
                datepattern,
                maxlines,
                logtype,
                journalmatch,
                init: merged_init,
            },
        )
    }
}

/// A parameter that the jail gives counts, and otherwise the one of the
/// filter's `[Init]` section.
pub proof fn law_jail_parameters_win(
    doc: Seq<SectionView>,
    init: Seq<(Text, Text)>,
    k: Text,
)
    requires
        table::distinct(init),
        parser::section_of(doc, "Init"@) matches Some(s) ==> table::distinct(s.entries),
    ensures
        table::lookup(init, k) matches Some(v) ==> table::lookup(filter_init(doc, init), k) == Some(
            v,
        ),
        table::lookup(init, k) is None ==> (parser::section_of(doc, "Init"@) matches Some(s)
            ==> table::lookup(filter_init(doc, init), k) == table::lookup(s.entries, k)),
        table::lookup(init, k) is None && parser::section_of(doc, "Init"@) is None
            ==> table::lookup(filter_init(doc, init), k) is None,
{
    let none = Seq::<(Text, Text)>::empty();
    action::lemma_only_value(init, k);
    if let Some(s) = parser::section_of(doc, "Init"@) {
        action::lemma_only_value(s.entries, k);
        table::law_put_all_lookup(none, s.entries, k);
        table::law_put_all_lookup(table::put_all(none, s.entries), init, k);
    } else {
        table::law_put_all_lookup(none, init, k);
    }
}

/// Plain values of the `[Definition]` section are the filter's: patterns by
/// the line, what to match in the journal by `+`. A filter matches one line at
/// a time and reads a file, unless it says otherwise.
pub proof fn law_filter_fields(
    name: Text,
    doc: Seq<SectionView>,
    init: Seq<(Text, Text)>,
    defaults: Seq<(Text, Text)>,
    builtins: Seq<(Text, Text)>,
    v: Text,
    n: u32,
)
    requires
        !v.contains('%'),
        !v.contains('<'),
    ensures
        parser::section_of(doc, "Definition"@) is None ==> filter_of(
            name,
            doc,
            init,
            defaults,
            builtins,
        ) == Err::<FilterView, ErrorView>(
            ErrorView::Config("filter "@ + name + " missing [Definition]"@),
        ),
        parser::section_of(doc, "Definition"@) matches Some(def) ==> ({
            let e = def.entries;
            &&& filter_of(name, doc, init, defaults, builtins) matches Ok(f)
            &&& f.name == name
            &&& table::lookup(e, "prefregex"@) == Some(v) ==> f.prefregex == Some(v)
            &&& table::lookup(e, "prefregex"@) is None ==> f.prefregex is None
            &&& table::lookup(e, "datepattern"@) == Some(v) ==> f.datepattern == Some(v)
            &&& table::lookup(e, "datepattern"@) is None ==> f.datepattern is None
            &&& table::lookup(e, "failregex"@) == Some(v) ==> f.failregex == split::tidied(
                split::lines_of(v),
            )
            &&& table::lookup(e, "failregex"@) is None ==> f.failregex == Seq::<Text>::empty()
            &&& table::lookup(e, "ignoreregex"@) == Some(v) ==> f.ignoreregex == split::tidied(
                split::lines_of(v),
            )
            &&& table::lookup(e, "ignoreregex"@) is None ==> f.ignoreregex == Seq::<Text>::empty()
            &&& table::lookup(e, "journalmatch"@) == Some(v) ==> f.journalmatch == split::tidied(
                split::pieces(v, '+'),
            )
            &&& table::lookup(e, "journalmatch"@) is None ==> f.journalmatch == Seq::<Text>::empty()
            &&& table::lookup(e, "logtype"@) == Some(v) ==> f.logtype == v
            &&& table::lookup(e, "logtype"@) is None ==> f.logtype == "file"@
            &&& table::lookup(e, "maxlines"@) == Some(number::decimal(n as nat)) ==> f.maxlines == n
            &&& table::lookup(e, "maxlines"@) is None ==> f.maxlines == 1
        }),
{
    if let Some(def) = parser::section_of(doc, "Definition"@) {
        let params = filter_init(doc, init);
        let ctx = ContextView {
            doc,
            defaults,
            builtins,
            current_section: Some("Definition"@),
            init: params,
            known: table::put_all(table::put_all(Seq::empty(), def.entries), params),
        };
        interpolator::law_plain_text_unchanged(v, ctx, 0);
        let d = number::decimal(n as nat);
        number::lemma_decimal_digits(n as nat);
        assert(!d.contains('%') && !d.contains('<')) by {
            assert forall|i: int| 0 <= i < d.len() implies d[i] != '%' && d[i] != '<' by {
                assert(text::is_digit(d[i]));
            }
        }
        interpolator::law_plain_text_unchanged(d, ctx, 0);
        number::lemma_decimal_read(n as nat, u32::MAX as nat);
    }
}

/// A parameter that the jail gives stands in the filter's patterns for its
/// tag.
pub proof fn law_jail_parameter_reaches_pattern(
    name: Text,
    doc: Seq<SectionView>,
    init: Seq<(Text, Text)>,
    defaults: Seq<(Text, Text)>,
    builtins: Seq<(Text, Text)>,
    front: Text,
    k: Text,
    v: Text,
)
    requires
        table::distinct(init),
        table::lookup(init, k) == Some(v),
        !k.contains('<'),
        !k.contains('>'),
        !k.contains('/'),
        !find::starts(k, "lt_"@),
        !find::starts(k, "ipt_"@),
        !v.contains('%'),
        !v.contains('<'),
        !front.contains('%'),
        !front.contains('<'),
        parser::section_of(doc, "Definition"@) matches Some(def) && table::lookup(
            def.entries,
            "prefregex"@,
        ) == Some(front + "<"@ + k + ">"@),
    ensures
        filter_of(name, doc, init, defaults, builtins) matches Ok(f) && f.prefregex == Some(
            front + v,
        ),
{
    let def = parser::section_of(doc, "Definition"@)->0;
    let params = filter_init(doc, init);
    let ctx = ContextView {
        doc,
        defaults,
        builtins,
        current_section: Some("Definition"@),
        init: params,
        known: table::put_all(table::put_all(Seq::empty(), def.entries), params),
    };
    let none = Seq::<char>::empty();
    let own = match parser::section_of(doc, "Init"@) {
        Some(s) => table::put_all(Seq::empty(), s.entries),
        None => Seq::empty(),
    };
    action::lemma_only_value(init, k);
    table::law_put_all_lookup(own, init, k);
    interpolator::law_tag_is_looked_up(k, ctx);
    interpolator::law_plain_text_unchanged(v, ctx, 1);
    assert(!none.contains('%') && !none.contains('<'));
    interpolator::law_plain_text_unchanged(none, ctx, 0);
    interpolator::law_tag_is_replaced(k, none, ctx, 0);
    let tag = "<"@ + k + ">"@ + none;
    interpolator::law_plain_text_stays_in_front(front, tag, ctx, 0);
    assert(front + tag =~= front + "<"@ + k + ">"@);
    assert(v + none =~= v);
}

} // verus!
