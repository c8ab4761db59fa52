//! The configuration of an action, from `action.d/<name>.conf`.

use crate::config::files;
use crate::config::files::{FileSet, Stop, StopView};
use crate::config::filter;
use crate::config::interpolator::{ContextView, InterpolationContext};
use crate::config::jail;
use crate::config::parser;
use crate::config::parser::{IniDocument, SectionView};
use crate::error;
use crate::error::{Error, ErrorView};
use crate::table;
use crate::text;
use crate::text::find;
use crate::text::number;
use crate::text::Text;
use indexmap::IndexMap;
use vstd::prelude::*;

verus! {

/// An action's configuration with its variables replaced.
#[derive(Debug)]
pub struct ActionConfig {
    /// The action's name.
    pub name: String,
    /// The command that sets the action up.
    pub actionstart: Option<String>,
    /// The command that takes the action down.
    pub actionstop: Option<String>,
    /// The command that says whether the action is set up.
    pub actioncheck: Option<String>,
    /// The command that sets the action up again.
    pub actionrepair: Option<String>,
    /// The command that lifts all bans at once.
    pub actionflush: Option<String>,
    /// The command that bans.
    pub actionban: Option<String>,
    /// The command that lifts a ban.
    pub actionunban: Option<String>,
    /// Whether the action is set up with the first ban.
    pub actionstart_on_demand: bool,
    /// How long a command may take, in seconds.
    pub timeout: u64,
    /// The parameters.
    pub init: IndexMap<String, String>,
}

/// The model of an action's configuration.
#[verifier::ext_equal]
pub struct ActionView {
    pub name: Text,
    pub actionstart: Option<Text>,
    pub actionstop: Option<Text>,
    pub actioncheck: Option<Text>,
    pub actionrepair: Option<Text>,
    pub actionflush: Option<Text>,
    pub actionban: Option<Text>,
    pub actionunban: Option<Text>,
    pub actionstart_on_demand: bool,
    pub timeout: u64,
    pub init: Seq<(Text, Text)>,
}

impl View for ActionConfig {
    type V = ActionView;

    open spec fn view(&self) -> ActionView {
        ActionView {
            name: self.name@,
            actionstart: text::opt_text(self.actionstart),
            actionstop: text::opt_text(self.actionstop),
            actioncheck: text::opt_text(self.actioncheck),
            actionrepair: text::opt_text(self.actionrepair),
            actionflush: text::opt_text(self.actionflush),
            actionban: text::opt_text(self.actionban),
            actionunban: text::opt_text(self.actionunban),
            actionstart_on_demand: self.actionstart_on_demand,
            timeout: self.timeout,
            init: table::entries(self.init),
        }
    }
}

/// An action as it is written, before its variables are replaced.
#[derive(Debug)]
pub struct ActionDefinition {
    /// The action's name.
    pub name: String,
    /// Its sections.
    pub doc: IniDocument,
}

/// For which family a key is meant.
pub enum Meant {
    /// For any family.
    Any,
    /// For the family at hand; this is the key without its suffix.
    Here(Text),
    /// For another family.
    Elsewhere,
}

/// For which family a key is meant: one that ends in `?family=inet6` or
/// `?family=inet4` for that family only.
pub open spec fn meant_for(key: Text, fam: Option<Text>) -> Meant {
    if find::ends(key, "?family=inet6"@) {
        if fam == Some("inet6"@) {
            Meant::Here(find::before_suffix(key, "?family=inet6"@)->0)
        } else {
            Meant::Elsewhere
        }
    } else if find::ends(key, "?family=inet4"@) {
        if fam == Some("inet4"@) {
            Meant::Here(find::before_suffix(key, "?family=inet4"@)->0)
        } else {
            Meant::Elsewhere
        }
    } else {
        Meant::Any
    }
}

/// The entries that are meant for the family at hand only, without the
/// suffixes of their keys.
pub open spec fn special(e: Seq<(Text, Text)>, fam: Option<Text>) -> Seq<(Text, Text)>
    decreases e.len(),
{
    if e.len() == 0 {
        Seq::empty()
    } else {
        let front = special(e.drop_last(), fam);
        match meant_for(e.last().0, fam) {
            Meant::Here(key) => table::put(front, key, e.last().1),
            _ => front,
        }
    }
}

/// The parameters `acc` with those that a jail gives put onto them, but for
/// those that are meant for another family.
pub open spec fn put_given(
    acc: Seq<(Text, Text)>,
    e: Seq<(Text, Text)>,
    fam: Option<Text>,
) -> Seq<(Text, Text)>
    decreases e.len(),
{
    if e.len() == 0 {
        acc
    } else {
        let front = put_given(acc, e.drop_last(), fam);
        match meant_for(e.last().0, fam) {
            Meant::Any => table::put(front, e.last().0, e.last().1),
            Meant::Here(key) => table::put(front, key, e.last().1),
            Meant::Elsewhere => front,
        }
    }
}

/// The parameters of an action: those of its `[Init]` sections, overridden by
/// those of its `[Init?family=...]` sections, by those whose keys are meant
/// for the family, and by those of the jail.
pub open spec fn action_init(
    doc: Seq<SectionView>,
    given: Seq<(Text, Text)>,
    fam: Option<Text>,
) -> Seq<(Text, Text)> {
    let base = parser::put_sections(Seq::empty(), parser::all_named(doc, "Init"@));
    let own = match fam {
        Some(f) => parser::put_sections(base, parser::all_named(doc, "Init?family="@ + f)),
        None => base,
    };
    put_given(table::put_all(own, special(own, fam)), given, fam)
}

/// An action's configuration: the values of its `[Definition]` section with
/// their variables replaced.
pub open spec fn action_of(
    name: Text,
    doc: Seq<SectionView>,
    given: Seq<(Text, Text)>,
    defaults: Seq<(Text, Text)>,
    builtins: Seq<(Text, Text)>,
    fam: Option<Text>,
) -> Result<ActionView, ErrorView> {
    match parser::section_of(doc, "Definition"@) {
        None => Err(ErrorView::Config("action "@ + name + " missing [Definition]"@)),
        Some(def) => {
            let init = action_init(doc, given, fam);
            let ctx = ContextView {
                doc,
                defaults,
                builtins,
                current_section: Some("Definition"@),
                init,
                known: Seq::empty(),
            };
            Ok(
                ActionView {
                    name,
                    actionstart: filter::value_in(def.entries, "actionstart"@, ctx),
                    actionstop: filter::value_in(def.entries, "actionstop"@, ctx),
                    actioncheck: filter::value_in(def.entries, "actioncheck"@, ctx),
                    actionrepair: filter::value_in(def.entries, "actionrepair"@, ctx),
                    actionflush: filter::value_in(def.entries, "actionflush"@, ctx),
                    actionban: filter::value_in(def.entries, "actionban"@, ctx),
                    actionunban: filter::value_in(def.entries, "actionunban"@, ctx),
                    actionstart_on_demand: match table::lookup(init, "actionstart_on_demand"@) {
                        Some(t) => jail::bool_of(t) == Ok::<bool, ErrorView>(true),
                        None => false,
                    },
                    timeout: match table::lookup(init, "timeout"@) {
                        Some(t) => match number::unsigned_of(t, u64::MAX as nat) {
                            Ok(n) => n as u64,
                            Err(_) => 60,
                        },
                        None => 60,
                    },
                    init,
                },
            )
        },
    }
}

/// For which family a key is meant: `None` for any, `Some(None)` for another
/// than the one at hand, `Some(Some(k))` for the one at hand under the key `k`.
fn key_for<'a>(key: &'a str, fam: Option<&str>) -> (r: Option<Option<&'a str>>)
    ensures
        match r {
            None => meant_for(key@, text::opt_str(fam)) == Meant::Any,
            Some(None) => meant_for(key@, text::opt_str(fam)) == Meant::Elsewhere,
            Some(Some(k)) => meant_for(key@, text::opt_str(fam)) == Meant::Here(k@),
        },
{
    if let Some(rest) = find::strip_suffix(key, "?family=inet6") {
        if is_family(fam, "inet6") {
            Some(Some(rest))
        } else {
            Some(None)
        }
    } else if let Some(rest) = find::strip_suffix(key, "?family=inet4") {
        if is_family(fam, "inet4") {
            Some(Some(rest))
        } else {
            Some(None)
        }
    } else {
        None
    }
}

fn is_family(fam: Option<&str>, name: &str) -> (r: bool)
    ensures
        r == (text::opt_str(fam) == Some(name@)),
{
    match fam {
        Some(f) => text::same(f, name),
        None => false,
    }
}

fn special_entries(e: &IndexMap<String, String>, fam: Option<&str>) -> (r: IndexMap<String, String>)
    ensures
        table::entries(r) == special(table::entries(*e), text::opt_str(fam)),
{
    let ghost all = table::entries(*e);
    let mut out = table::new_table();
    let n = table::size(e);
    let mut i: usize = 0;
    assert(all.take(0) =~= Seq::empty());
    while i < n
        invariant
            i <= n == all.len(),
            all == table::entries(*e),
            table::entries(out) == special(all.take(i as int), text::opt_str(fam)),
        decreases n - i,
    {
        proof {
            assert(all.take(i + 1).drop_last() =~= all.take(i as int));
            assert(all.take(i + 1).last() == all[i as int]);
        }
        if let Some((k, v)) = table::at(e, i) {
            if let Some(Some(key)) = key_for(k.as_str(), fam) {
                table::insert(&mut out, key.to_owned(), v.clone());
            }
        }
        i += 1;
    }
    assert(all.take(i as int) =~= all);
    out
}

fn insert_given(acc: &mut IndexMap<String, String>, e: &IndexMap<String, String>, fam: Option<&str>)
    ensures
        table::entries(*final(acc)) == put_given(
            table::entries(*old(acc)),
            table::entries(*e),
            text::opt_str(fam),
        ),
{
    let ghost start = table::entries(*acc);
    let ghost all = table::entries(*e);
    let n = table::size(e);
    let mut i: usize = 0;
    assert(all.take(0) =~= Seq::empty());
    while i < n
        invariant
            i <= n == all.len(),
            all == table::entries(*e),
            table::entries(*acc) == put_given(start, all.take(i as int), text::opt_str(fam)),
        decreases n - i,
    {
        proof {
            assert(all.take(i + 1).drop_last() =~= all.take(i as int));
            assert(all.take(i + 1).last() == all[i as int]);
        }
        if let Some((k, v)) = table::at(e, i) {
            match key_for(k.as_str(), fam) {
                None => {
                    table::insert(acc, k.clone(), v.clone());
                },
                Some(Some(key)) => {
                    table::insert(acc, key.to_owned(), v.clone());
                },
                Some(None) => {},
            }
        }
        i += 1;
    }
    assert(all.take(i as int) =~= all);
}

impl ActionDefinition {
    /// Loads an action from `action.d/<name>.conf` and `action.d/<name>.local`
    /// of each search directory.
    pub fn load(name: &str, search_dirs: &Vec<String>, files: &FileSet) -> (r: Result<
        ActionDefinition,
        Stop,
    >)
        ensures
            match r {
                Ok(a) => a.name@ == name@ && files::definition(
                    "action"@,
                    "action.d"@,
                    name@,
                    text::texts(search_dirs@),
                    files@,
                ) == Ok::<Seq<SectionView>, StopView>(a.doc@),
                Err(s) => files::definition(
                    "action"@,
                    "action.d"@,
                    name@,
                    text::texts(search_dirs@),
                    files@,
                ) == Err::<Seq<SectionView>, StopView>(s@),
            },
    {
        match files::load_definition("action", "action.d", name, search_dirs, files) {
            Ok(doc) => Ok(ActionDefinition { name: name.to_owned(), doc }),
            Err(s) => Err(s),
        }
    }

    /// Builds the action's configuration, with the parameters that a jail
    /// gives, for an IP family where one is given.
    pub fn materialize(
        &self,
        jail_params: &IndexMap<String, String>,
        defaults: &IndexMap<String, String>,
        builtins: &IndexMap<String, String>,
        family: Option<&str>,
    ) -> (r: Result<ActionConfig, Error>)
        ensures
            error::outcome(r) == action_of(
                self.name@,
                self.doc@,
                table::entries(*jail_params),
                table::entries(*defaults),
                table::entries(*builtins),
                text::opt_str(family),
            ),
    {
        let def = match self.doc.section("Definition") {
            Some(s) => s,
            None => {
                return Err(
                    Error::Config(
                        text::cat3("action ", self.name.as_str(), " missing [Definition]"),
                    ),
                );
            },
        };
        let mut merged = table::new_table();
        parser::insert_sections(&mut merged, &self.doc, "Init");
        if let Some(f) = family {
            let section = text::cat2("Init?family=", f);
            parser::insert_sections(&mut merged, &self.doc, section.as_str());
        }
        let chosen = special_entries(&merged, family);
        table::insert_all(&mut merged, &chosen);
        insert_given(&mut merged, jail_params, family);
        let known = table::new_table();
        let ctx = InterpolationContext {
            doc: &self.doc,
            defaults,
            builtins,
            current_section: Some("Definition".to_owned()),
            init: &merged,
            known: &known,
        };
        let timeout: u64 = match table::get(&merged, "timeout") {
            Some(t) => match number::parse_unsigned(t, u64::MAX) {
                Ok(n) => n,
                Err(_) => 60,
            },
            None => 60,
        };
        let actionstart_on_demand = match table::get(&merged, "actionstart_on_demand") {
            Some(t) => match jail::parse_bool(t) {
                Ok(b) => b,
                Err(_) => false,
            },
            None => false,
        };
        let actionstart = filter::value_of_key(def, "actionstart", &ctx);
        let actionstop = filter::value_of_key(def, "actionstop", &ctx);
        let actioncheck = filter::value_of_key(def, "actioncheck", &ctx);
        let actionrepair = filter::value_of_key(def, "actionrepair", &ctx);
        let actionflush = filter::value_of_key(def, "actionflush", &ctx);
        let actionban = filter::value_of_key(def, "actionban", &ctx);
        let actionunban = filter::value_of_key(def, "actionunban", &ctx);
        Ok(
            ActionConfig {
                name: self.name.clone(),
                actionstart,
                actionstop,
                actioncheck,
                actionrepair,
                actionflush,
                actionban,
                actionunban,
                actionstart_on_demand,
                timeout,
                init: merged,
            },
        )
    }
}

proof fn lemma_meant(key: Text, k: Text, fam: Option<Text>)
    ensures
        "inet6"@ != "inet4"@,
        meant_for(key, fam) == Meant::Any <==> !find::ends(key, "?family=inet6"@) && !find::ends(
            key,
            "?family=inet4"@,
        ),
        meant_for(key, fam) == Meant::Here(k) <==> (fam == Some("inet6"@) && key == k
            + "?family=inet6"@) || (fam == Some("inet4"@) && key == k + "?family=inet4"@),
{
    reveal_strlit("?family=inet6");
    reveal_strlit("?family=inet4");
    reveal_strlit("inet6");
    reveal_strlit("inet4");
    assert("inet6"@[4] == '6' && "inet4"@[4] == '4');
    let six = "?family=inet6"@;
    let four = "?family=inet4"@;
    assert(six[12] == '6' && four[12] == '4');
    let n = key.len() - 13;
    if find::ends(key, six) {
        assert(key.skip(n)[12] == '6');
        assert(key =~= key.take(n) + six);
    }
    if find::ends(key, four) {
        assert(key.skip(n)[12] == '4');
        assert(key =~= key.take(n) + four);
    }
    if key == k + six {
        assert(key.skip(n) =~= six);
        assert(key.take(n) =~= k);
    }
    if key == k + four {
        assert(key.skip(n) =~= four);
        assert(key.take(n) =~= k);
    }
}

/// The key of a parameter that is meant for a family only.
pub open spec fn key_of_family(k: Text, fam: Option<Text>) -> Option<Text> {
    if fam == Some("inet6"@) {
        Some(k + "?family=inet6"@)
    } else if fam == Some("inet4"@) {
        Some(k + "?family=inet4"@)
    } else {
        None
    }
}

proof fn lemma_given_not_hit(
    acc: Seq<(Text, Text)>,
    e: Seq<(Text, Text)>,
    fam: Option<Text>,
    k: Text,
)
    requires
        forall|i: int|
            0 <= i < e.len() ==> (#[trigger] e[i]).0 != k && Some(e[i].0) != key_of_family(k, fam),
    ensures
        table::lookup(put_given(acc, e, fam), k) == table::lookup(acc, k),
    decreases e.len(),
{
    if e.len() > 0 {
        let front = e.drop_last();
        assert forall|i: int| 0 <= i < front.len() implies (#[trigger] front[i]).0 != k && Some(
            front[i].0,
        ) != key_of_family(k, fam) by {
            assert(front[i] == e[i]);
        }
        lemma_given_not_hit(acc, front, fam, k);
        let last = e[e.len() - 1];
        assert(last == e.last());
        lemma_meant(last.0, k, fam);
        match meant_for(last.0, fam) {
            Meant::Any => {
                table::law_put_lookup(put_given(acc, front, fam), last.0, last.1, k);
            },
            Meant::Here(x) => {
                lemma_meant(last.0, x, fam);
                table::law_put_lookup(put_given(acc, front, fam), x, last.1, k);
            },
            Meant::Elsewhere => {},
        }
    }
}

proof fn lemma_given_hit(
    acc: Seq<(Text, Text)>,
    e: Seq<(Text, Text)>,
    fam: Option<Text>,
    k: Text,
    at: int,
)
    requires
        0 <= at < e.len(),
        (e[at].0 == k && !find::ends(k, "?family=inet6"@) && !find::ends(k, "?family=inet4"@))
            || Some(e[at].0) == key_of_family(k, fam),
        forall|i: int|
            at < i < e.len() ==> (#[trigger] e[i]).0 != k && Some(e[i].0) != key_of_family(k, fam),
    ensures
        table::lookup(put_given(acc, e, fam), k) == Some(e[at].1),
    decreases e.len(),
{
    let front = e.drop_last();
    let last = e[e.len() - 1];
    assert(last == e.last());
    lemma_meant(last.0, k, fam);
    if at == e.len() - 1 {
        table::law_put_lookup(put_given(acc, front, fam), k, last.1, k);
    } else {
        assert forall|i: int| at < i < front.len() implies (#[trigger] front[i]).0 != k && Some(
            front[i].0,
        ) != key_of_family(k, fam) by {
            assert(front[i] == e[i]);
        }
        assert(front[at] == e[at]);
        lemma_given_hit(acc, front, fam, k, at);
        match meant_for(last.0, fam) {
            Meant::Any => {
                table::law_put_lookup(put_given(acc, front, fam), last.0, last.1, k);
            },
            Meant::Here(x) => {
                lemma_meant(last.0, x, fam);
                table::law_put_lookup(put_given(acc, front, fam), x, last.1, k);
            },
            Meant::Elsewhere => {},
        }
    }
}

/// What a jail gives an action under a key is the value of that key among the
/// action's parameters, whatever the action's own sections say, unless the
/// jail gives another value for the family at hand.
pub proof fn law_given_parameter_wins(
    doc: Seq<SectionView>,
    given: Seq<(Text, Text)>,
    fam: Option<Text>,
    k: Text,
)
    requires
        table::distinct(given),
        table::lookup(given, k) is Some,
        !find::ends(k, "?family=inet6"@),
        !find::ends(k, "?family=inet4"@),
        key_of_family(k, fam) matches Some(x) ==> table::lookup(given, x) is None,
    ensures
        table::lookup(action_init(doc, given, fam), k) == table::lookup(given, k),
{
    let acc = action_init(doc, Seq::empty(), fam);
    table::lemma_slot(given, k);
    let at = table::slot(given, k);
    if let Some(x) = key_of_family(k, fam) {
        table::lemma_slot(given, x);
    }
    assert forall|i: int| at < i < given.len() implies (#[trigger] given[i]).0 != k && Some(
        given[i].0,
    ) != key_of_family(k, fam) by {
        assert(given[at].0 != given[i].0);
    }
    lemma_given_hit(acc, given, fam, k, at);
}

/// What a jail gives an action for the family at hand is the value of the key
/// without the suffix, where it gives that key no other value.
pub proof fn law_given_parameter_for_family(
    doc: Seq<SectionView>,
    given: Seq<(Text, Text)>,
    six: bool,
    k: Text,
)
    requires
        table::distinct(given),
        table::lookup(given, k) is None,
        ({
            let x = if six {
                k + "?family=inet6"@
            } else {
                k + "?family=inet4"@
            };
            table::lookup(given, x) is Some
        }),
    ensures
        ({
            let fam = if six {
                "inet6"@
            } else {
                "inet4"@
            };
            let x = if six {
                k + "?family=inet6"@
            } else {
                k + "?family=inet4"@
            };
            table::lookup(action_init(doc, given, Some(fam)), k) == table::lookup(given, x)
        }),
{
    reveal_strlit("inet6");
    reveal_strlit("inet4");
    assert("inet6"@[4] == '6' && "inet4"@[4] == '4');
    let fam = if six {
        Some("inet6"@)
    } else {
        Some("inet4"@)
    };
    let x = key_of_family(k, fam)->0;
    let acc = action_init(doc, Seq::empty(), fam);
    table::lemma_slot(given, k);
    table::lemma_slot(given, x);
    let at = table::slot(given, x);
    assert forall|i: int| at < i < given.len() implies (#[trigger] given[i]).0 != k && Some(
        given[i].0,
    ) != key_of_family(k, fam) by {
        assert(given[at].0 != given[i].0);
    }
    lemma_given_hit(acc, given, fam, k, at);
}

/// A key that a jail does not give, neither as it is nor for the family at
/// hand, keeps the value of the action's own sections: what is meant for
/// another family changes nothing.
pub proof fn law_other_parameters_stay(
    doc: Seq<SectionView>,
    given: Seq<(Text, Text)>,
    fam: Option<Text>,
    k: Text,
)
    requires
        table::lookup(given, k) is None,
        key_of_family(k, fam) matches Some(x) ==> table::lookup(given, x) is None,
    ensures
        table::lookup(action_init(doc, given, fam), k) == table::lookup(
            action_init(doc, Seq::empty(), fam),
            k,
        ),
{
    let acc = action_init(doc, Seq::empty(), fam);
    table::lemma_slot(given, k);
    if let Some(x) = key_of_family(k, fam) {
        table::lemma_slot(given, x);
    }
    lemma_given_not_hit(acc, given, fam, k);
}

/// Without a family, the action's own parameters are the values that its
/// `[Init]` sections set last.
pub proof fn law_init_section_counts(doc: Seq<SectionView>, k: Text)
    ensures
        table::lookup(action_init(doc, Seq::empty(), None), k) == parser::last_setting(
            doc,
            "Init"@,
            k,
        ),
{
    let base = parser::put_sections(Seq::empty(), parser::all_named(doc, "Init"@));
    parser::law_sections_put(Seq::empty(), doc, "Init"@, k);
    table::lemma_slot(Seq::<(Text, Text)>::empty(), k);
    lemma_nothing_special(base);
    assert(table::put_all(base, Seq::empty()) == base);
}

proof fn lemma_nothing_special(e: Seq<(Text, Text)>)
    ensures
        special(e, None) == Seq::<(Text, Text)>::empty(),
    decreases e.len(),
{
    if e.len() > 0 {
        lemma_nothing_special(e.drop_last());
    }
}

proof fn lemma_distinct_front(e: Seq<(Text, Text)>)
    requires
        table::distinct(e),
        e.len() > 0,
    ensures
        table::distinct(e.drop_last()),
{
    let d = e.drop_last();
    assert forall|i: int, j: int| 0 <= i < j < d.len() implies (#[trigger] d[i]).0 != (
    #[trigger] d[j]).0 by {
        assert(e[i].0 != e[j].0);
    }
}

pub proof fn lemma_only_value(e: Seq<(Text, Text)>, k: Text)
    requires
        table::distinct(e),
    ensures
        table::last_value(e, k) == table::lookup(e, k),
    decreases e.len(),
{
    table::lemma_slot(e, k);
    if e.len() > 0 {
        let d = e.drop_last();
        let n = e.len() - 1;
        let i = table::slot(e, k);
        lemma_distinct_front(e);
        lemma_only_value(d, k);
        if e.last().0 == k {
            if i < n {
                assert(e[i].0 != e[n].0);
            }
        } else {
            assert(i != n);
            let at = if i < n {
                i
            } else {
                n
            };
            assert forall|j: int| 0 <= j < at implies (#[trigger] d[j]).0 != k by {
                assert(d[j] == e[j]);
            }
            table::lemma_slot_at(d, k, at);
        }
    }
}

proof fn lemma_put_all_distinct(e: Seq<(Text, Text)>, more: Seq<(Text, Text)>)
    requires
        table::distinct(e),
    ensures
        table::distinct(table::put_all(e, more)),
    decreases more.len(),
{
    if more.len() > 0 {
        lemma_put_all_distinct(e, more.drop_last());
        table::lemma_put_distinct(
            table::put_all(e, more.drop_last()),
            more.last().0,
            more.last().1,
        );
    }
}

pub proof fn lemma_put_sections_distinct(e: Seq<(Text, Text)>, secs: Seq<SectionView>)
    requires
        table::distinct(e),
    ensures
        table::distinct(parser::put_sections(e, secs)),
    decreases secs.len(),
{
    if secs.len() > 0 {
        lemma_put_sections_distinct(e, secs.drop_last());
        lemma_put_all_distinct(
            parser::put_sections(e, secs.drop_last()),
            secs.last().entries,
        );
    }
}

proof fn lemma_special(e: Seq<(Text, Text)>, fam: Option<Text>, k: Text)
    ensures
        table::distinct(special(e, fam)),
        table::lookup(special(e, fam), k) == (match key_of_family(k, fam) {
            Some(x) => table::last_value(e, x),
            None => None,
        }),
    decreases e.len(),
{
    if e.len() == 0 {
        table::lemma_slot(e, k);
    } else {
        let front = e.drop_last();
        lemma_special(front, fam, k);
        lemma_meant(e.last().0, k, fam);
        if let Meant::Here(x) = meant_for(e.last().0, fam) {
            lemma_meant(e.last().0, x, fam);
            table::law_put_lookup(special(front, fam), x, e.last().1, k);
            table::lemma_put_distinct(special(front, fam), x, e.last().1);
        }
    }
}

/// For a family, an action's own parameters are those of `[Init?family=...]`
/// or else of `[Init]`, each as it is set last; one under the key with the
/// suffix of the family wins over the one under the key alone.
pub proof fn law_family_sections_count(doc: Seq<SectionView>, f: Text, k: Text)
    ensures
        ({
            let own = |x: Text|
                match parser::last_setting(doc, "Init?family="@ + f, x) {
                    Some(v) => Some(v),
                    None => parser::last_setting(doc, "Init"@, x),
                };
            let r = table::lookup(action_init(doc, Seq::empty(), Some(f)), k);
            &&& f == "inet6"@ ==> (own(k + "?family=inet6"@) matches Some(v) ==> r == Some(v))
            &&& f == "inet6"@ && own(k + "?family=inet6"@) is None ==> r == own(k)
            &&& f == "inet4"@ ==> (own(k + "?family=inet4"@) matches Some(v) ==> r == Some(v))
            &&& f == "inet4"@ && own(k + "?family=inet4"@) is None ==> r == own(k)
            &&& f != "inet6"@ && f != "inet4"@ ==> r == own(k)
        }),
{
    let fam = Some(f);
    let none = Seq::<(Text, Text)>::empty();
    let base = parser::put_sections(none, parser::all_named(doc, "Init"@));
    let own = parser::put_sections(base, parser::all_named(doc, "Init?family="@ + f));
    lemma_meant(k, k, fam);
    lemma_put_sections_distinct(none, parser::all_named(doc, "Init"@));
    lemma_put_sections_distinct(base, parser::all_named(doc, "Init?family="@ + f));
    parser::law_sections_put(none, doc, "Init"@, k);
    parser::law_sections_put(base, doc, "Init?family="@ + f, k);
    table::lemma_slot(none, k);
    table::law_put_all_lookup(own, special(own, fam), k);
    lemma_special(own, fam, k);
    lemma_only_value(special(own, fam), k);
    if let Some(x) = key_of_family(k, fam) {
        lemma_only_value(own, x);
        parser::law_sections_put(none, doc, "Init"@, x);
        parser::law_sections_put(base, doc, "Init?family="@ + f, x);
        table::lemma_slot(none, x);
    }
}

/// The commands of an action are the values of the keys of their names in
/// `[Definition]`; one that holds no variables is the value itself, and one
/// without a value is none.
pub proof fn law_commands_are_read(
    name: Text,
    doc: Seq<SectionView>,
    given: Seq<(Text, Text)>,
    defaults: Seq<(Text, Text)>,
    builtins: Seq<(Text, Text)>,
    fam: Option<Text>,
    v: Text,
)
    requires
        parser::section_of(doc, "Definition"@) is Some,
        !v.contains('%'),
        !v.contains('<'),
    ensures
        action_of(name, doc, given, defaults, builtins, fam) is Ok,
        ({
            let a = action_of(name, doc, given, defaults, builtins, fam)->Ok_0;
            let e = parser::section_of(doc, "Definition"@)->0.entries;
            &&& a.name == name
            &&& a.init == action_init(doc, given, fam)
            &&& table::lookup(e, "actionstart"@) == Some(v) ==> a.actionstart == Some(v)
            &&& table::lookup(e, "actionstart"@) is None ==> a.actionstart is None
            &&& table::lookup(e, "actionstop"@) == Some(v) ==> a.actionstop == Some(v)
            &&& table::lookup(e, "actionstop"@) is None ==> a.actionstop is None
            &&& table::lookup(e, "actioncheck"@) == Some(v) ==> a.actioncheck == Some(v)
            &&& table::lookup(e, "actioncheck"@) is None ==> a.actioncheck is None
            &&& table::lookup(e, "actionrepair"@) == Some(v) ==> a.actionrepair == Some(v)
            &&& table::lookup(e, "actionrepair"@) is None ==> a.actionrepair is None
            &&& table::lookup(e, "actionflush"@) == Some(v) ==> a.actionflush == Some(v)
            &&& table::lookup(e, "actionflush"@) is None ==> a.actionflush is None
            &&& table::lookup(e, "actionban"@) == Some(v) ==> a.actionban == Some(v)
            &&& table::lookup(e, "actionban"@) is None ==> a.actionban is None
            &&& table::lookup(e, "actionunban"@) == Some(v) ==> a.actionunban == Some(v)
            &&& table::lookup(e, "actionunban"@) is None ==> a.actionunban is None
        }),
{
    let ctx = ContextView {
        doc,
        defaults,
        builtins,
        current_section: Some("Definition"@),
        init: action_init(doc, given, fam),
        known: Seq::empty(),
    };
    crate::config::interpolator::law_plain_text_unchanged(v, ctx, 0);
}

/// A command that ends in a parameter's tag ends in the value that the jail
/// gives the parameter.
pub proof fn law_given_parameter_reaches_command(
    name: Text,
    doc: Seq<SectionView>,
    given: Seq<(Text, Text)>,
    defaults: Seq<(Text, Text)>,
    builtins: Seq<(Text, Text)>,
    fam: Option<Text>,
    front: Text,
    k: Text,
    v: Text,
)
    requires
        table::distinct(given),
        table::lookup(given, k) == Some(v),
        !find::ends(k, "?family=inet6"@),
        !find::ends(k, "?family=inet4"@),
        key_of_family(k, fam) matches Some(x) ==> table::lookup(given, x) is None,
        !k.contains('<'),
        !k.contains('>'),
        !k.contains('/'),
        !find::starts(k, "lt_"@),
        !find::starts(k, "ipt_"@),
        !v.contains('%'),
        !v.contains('<'),
        !front.contains('%'),
        !front.contains('<'),
        parser::section_of(doc, "Definition"@) matches Some(def) && table::lookup(
            def.entries,
            "actionban"@,
        ) == Some(front + "<"@ + k + ">"@),
    ensures
        action_of(name, doc, given, defaults, builtins, fam) matches Ok(a) && a.actionban == Some(
            front + v,
        ),
{
    let ctx = ContextView {
        doc,
        defaults,
        builtins,
        current_section: Some("Definition"@),
        init: action_init(doc, given, fam),
        known: Seq::empty(),
    };
    let none = Seq::<char>::empty();
    law_given_parameter_wins(doc, given, fam, k);
    crate::config::interpolator::law_tag_is_looked_up(k, ctx);
    crate::config::interpolator::law_plain_text_unchanged(v, ctx, 1);
    assert(!none.contains('%') && !none.contains('<'));
    crate::config::interpolator::law_plain_text_unchanged(none, ctx, 0);
    crate::config::interpolator::law_tag_is_replaced(k, none, ctx, 0);
    let tag = "<"@ + k + ">"@ + none;
    crate::config::interpolator::law_plain_text_stays_in_front(front, tag, ctx, 0);
    assert(front + tag =~= front + "<"@ + k + ">"@);
    assert(v + none =~= v);
}

/// The parameters `timeout` and `actionstart_on_demand` of an action count
/// where they can be read; otherwise commands may run for a minute, and the
/// action is set up at once.
pub proof fn law_parameters_that_count(
    name: Text,
    doc: Seq<SectionView>,
    given: Seq<(Text, Text)>,
    defaults: Seq<(Text, Text)>,
    builtins: Seq<(Text, Text)>,
    fam: Option<Text>,
    n: u64,
)
    requires
        parser::section_of(doc, "Definition"@) is Some,
    ensures
        ({
            let a = action_of(name, doc, given, defaults, builtins, fam)->Ok_0;
            let init = action_init(doc, given, fam);
            &&& table::lookup(init, "timeout"@) == Some(number::decimal(n as nat)) ==> a.timeout == n
            &&& table::lookup(init, "timeout"@) is None ==> a.timeout == 60
            &&& table::lookup(init, "actionstart_on_demand"@) == Some("true"@)
                ==> a.actionstart_on_demand
            &&& table::lookup(init, "actionstart_on_demand"@) == Some("false"@)
                ==> !a.actionstart_on_demand
            &&& table::lookup(init, "actionstart_on_demand"@) is None ==> !a.actionstart_on_demand
        }),
{
    number::lemma_decimal_read(n as nat, u64::MAX as nat);
    jail::law_booleans("true"@);
    jail::law_booleans("false"@);
}

} // verus!
