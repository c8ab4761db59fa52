//! The configuration of a jail.

use crate::config::files;
use crate::config::files::{FileSet, SourceView, Stop, StopView};
use crate::config::interpolator;
use crate::config::parser;
use crate::config::parser::IniSection;
use crate::error;
use crate::error::{Error, ErrorView};
use crate::ip;
use crate::ip::{IgnoreList, IgnoreView};
use crate::table;
use crate::table::Registry;
use crate::text;
use crate::text::find;
use crate::text::number;
use crate::text::split;
use crate::text::trim;
use crate::text::Text;
use crate::time;
use crate::time::TimeValue;
use indexmap::IndexMap;
use vstd::prelude::*;

verus! {

/// The state of splitting at a separator outside double quotes: the pieces so
/// far, the piece at hand, and whether it is inside quotes.
pub struct Splitting {
    pub done: Seq<Text>,
    pub piece: Text,
    pub quoted: bool,
}

/// Takes in one character.
pub open spec fn split_step(st: Splitting, c: char, sep: char) -> Splitting {
    if c == '"' {
        Splitting { done: st.done, piece: st.piece.push(c), quoted: !st.quoted }
    } else if c == sep && !st.quoted {
        Splitting { done: st.done.push(st.piece), piece: Seq::empty(), quoted: false }
    } else {
        Splitting { done: st.done, piece: st.piece.push(c), quoted: st.quoted }
    }
}

/// Takes in a text.
pub open spec fn splitting(s: Text, sep: char) -> Splitting
    decreases s.len(),
{
    if s.len() == 0 {
        Splitting { done: Seq::empty(), piece: Seq::empty(), quoted: false }
    } else {
        split_step(splitting(s.drop_last(), sep), s.last(), sep)
    }
}

/// The pieces of a text between the separators that stand outside double
/// quotes; always at least one.
pub open spec fn unquoted_pieces(s: Text, sep: char) -> Seq<Text> {
    let st = splitting(s, sep);
    st.done.push(st.piece)
}

/// Whether the text stands between two characters `q`.
pub open spec fn is_between(s: Text, q: char) -> bool {
    s.len() >= 2 && s[0] == q && s.last() == q
}

/// The text without the double or single quotes around it.
pub open spec fn unquoted(s: Text) -> Text {
    if is_between(s, '"') || is_between(s, '\'') {
        s.subrange(1, s.len() - 1)
    } else {
        s
    }
}

/// The parameters that pieces of the form `key = value` from position `i` on
/// give, put onto `acc`. Empty pieces give none. `what` says of what kind of
/// specification they are, for the error message.
pub open spec fn params_from(pieces: Seq<Text>, i: int, acc: Seq<(Text, Text)>, what: Text) -> Result<
    Seq<(Text, Text)>,
    ErrorView,
>
    decreases pieces.len() - i,
{
    if i >= pieces.len() {
        Ok(acc)
    } else {
        let kv = trim::trimmed(pieces[i]);
        if kv.len() == 0 {
            params_from(pieces, i + 1, acc, what)
        } else {
            match find::cut(kv, '=') {
                None => Err(ErrorView::Config("bad "@ + what + " param: "@ + kv)),
                Some((k, v)) => params_from(
                    pieces,
                    i + 1,
                    table::put(acc, trim::trimmed(k), unquoted(trim::trimmed(v))),
                    what,
                ),
            }
        }
    }
}

/// What stands before the first `[` of a specification.
pub open spec fn spec_name(s: Text) -> Text {
    let t = trim::trimmed(s);
    match find::cut(t, '[') {
        Some((name, _)) => trim::trimmed(name),
        None => t,
    }
}

/// The parameters that stand between the first `[` and the last `]` of a
/// specification. `bracket` is how the error message names a missing `]`.
pub open spec fn spec_params(s: Text, what: Text, bracket: Text) -> Result<
    Seq<(Text, Text)>,
    ErrorView,
> {
    let t = trim::trimmed(s);
    match find::cut(t, '[') {
        None => Ok(Seq::empty()),
        Some((_, rest)) => {
            let end = find::rfind(rest, ']');
            if end < 0 {
                Err(ErrorView::Config("missing "@ + bracket + " in "@ + what + " spec: "@ + t))
            } else {
                params_from(unquoted_pieces(rest.take(end), ','), 0, Seq::empty(), what)
            }
        },
    }
}

/// The boolean that a word stands for.
pub open spec fn bool_of(s: Text) -> Result<bool, ErrorView> {
    let t = text::lowered(trim::trimmed(s));
    if t == "true"@ || t == "yes"@ || t == "on"@ || t == "1"@ {
        Ok(true)
    } else if t == "false"@ || t == "no"@ || t == "off"@ || t == "0"@ {
        Ok(false)
    } else {
        Err(ErrorView::Config("invalid boolean: "@ + t))
    }
}

/// Splits a string at the separators that stand outside double quotes.
pub fn split_top_level(s: &str, sep: char) -> (r: Vec<String>)
    ensures
        text::texts(r@) == unquoted_pieces(s@, sep),
{
    let v = text::chars_of(s);
    let mut out: Vec<String> = Vec::new();
    let mut buf = String::new();
    let mut in_quote = false;
    let mut i: usize = 0;
    proof {
        assert(v@.take(0) =~= Seq::<char>::empty());
        assert(text::texts(out@) =~= Seq::empty());
        assert(buf@ =~= Seq::<char>::empty());
    }
    while i < v.len()
        invariant
            i <= v.len(),
            v@ == s@,
            splitting(v@.take(i as int), sep) == (Splitting {
                done: text::texts(out@),
                piece: buf@,
                quoted: in_quote,
            }),
        decreases v.len() - i,
    {
        let c = v[i];
        proof {
            assert(v@.take(i + 1).drop_last() =~= v@.take(i as int));
            assert(v@.take(i + 1).last() == c);
        }
        if c == '"' {
            in_quote = !in_quote;
            buf.push(c);
        } else if c == sep && !in_quote {
            let ghost before = out@;
            proof {
                text::lemma_texts_push(before, buf);
            }
            out.push(buf);
            buf = String::new();
            assert(buf@ =~= Seq::<char>::empty());
        } else {
            buf.push(c);
        }
        i += 1;
    }
    proof {
        assert(v@.take(i as int) =~= v@);
        text::lemma_texts_push(out@, buf);
    }
    out.push(buf);
    out
}

/// The string without the double or single quotes around it.
pub fn strip_quotes(s: &str) -> (r: String)
    ensures
        r@ == unquoted(s@),
{
    let n = s.unicode_len();
    if n >= 2 && ((s.get_char(0) == '"' && s.get_char(n - 1) == '"') || (s.get_char(0) == '\''
        && s.get_char(n - 1) == '\'')) {
        s.substring_char(1, n - 1).to_owned()
    } else {
        s.to_owned()
    }
}

/// The name of a specification such as `sshd[mode=normal]`.
pub fn name_of_spec(spec: &str) -> (r: &str)
    ensures
        r@ == spec_name(spec@),
{
    let t = trim::trim(spec);
    match find::split_once(t, '[') {
        Some((name, _)) => trim::trim(name),
        None => t,
    }
}

/// The parameters of a specification such as `sshd[mode=normal]`.
pub fn params_of_spec(spec: &str, what: &str, bracket: &str) -> (r: Result<
    IndexMap<String, String>,
    Error,
>)
    ensures
        match r {
            Ok(t) => spec_params(spec@, what@, bracket@) == Ok::<Seq<(Text, Text)>, ErrorView>(
                table::entries(t),
            ),
            Err(e) => spec_params(spec@, what@, bracket@) == Err::<
                Seq<(Text, Text)>,
                ErrorView,
            >(e@),
        },
{
    let t = trim::trim(spec);
    let rest = match find::split_once(t, '[') {
        None => {
            return Ok(table::new_table());
        },
        Some((_, rest)) => rest,
    };
    let end = match find::last_position(rest, ']') {
        Some(end) => end,
        None => {
            let mut m = text::cat5("missing ", bracket, " in ", what, " spec: ");
            m.append(t);
            return Err(Error::Config(m));
        },
    };
    let pieces = split_top_level(rest.substring_char(0, end), ',');
    let ghost all = unquoted_pieces(rest@.take(end as int), ',');
    let mut params = table::new_table();
    let mut i: usize = 0;
    while i < pieces.len()
        invariant
            i <= pieces.len(),
            all == text::texts(pieces@),
            spec_params(spec@, what@, bracket@) == params_from(
                all,
                i as int,
                table::entries(params),
                what@,
            ),
        decreases pieces.len() - i,
    {
        assert(all[i as int] == pieces@[i as int]@);
        let kv = trim::trim(pieces[i].as_str());
        i += 1;
        if kv.is_empty() {
            continue;
        }
        match find::split_once(kv, '=') {
            None => {
                return Err(Error::Config(text::cat4("bad ", what, " param: ", kv)));
            },
            Some((k, v)) => {
                let key = trim::trim(k).to_owned();
                let value = strip_quotes(trim::trim(v));
                table::insert(&mut params, key, value);
            },
        }
    }
    Ok(params)
}

/// Reads a filter specification such as `sshd[mode=normal, sig="6"]`: the
/// filter's name and parameters.
pub fn parse_filter_spec(spec: &str) -> (r: Result<(String, IndexMap<String, String>), Error>)
    ensures
        match r {
            Ok(p) => p.0@ == spec_name(spec@) && spec_params(spec@, "filter"@, "']'"@) == Ok::<
                Seq<(Text, Text)>,
                ErrorView,
            >(table::entries(p.1)),
            Err(e) => spec_params(spec@, "filter"@, "']'"@) == Err::<Seq<(Text, Text)>, ErrorView>(
                e@,
            ),
        },
{
    match params_of_spec(spec, "filter", "']'") {
        Ok(params) => Ok((name_of_spec(spec).to_owned(), params)),
        Err(e) => Err(e),
    }
}

/// Reads a boolean: `true`, `yes`, `on`, `1`, or `false`, `no`, `off`, `0`.
pub fn parse_bool(s: &str) -> (r: Result<bool, Error>)
    ensures
        error::outcome(r) == bool_of(s@),
{
    let t = text::to_lower(trim::trim(s));
    let w = t.as_str();
    if text::same(w, "true") || text::same(w, "yes") || text::same(w, "on") || text::same(w, "1") {
        Ok(true)
    } else if text::same(w, "false") || text::same(w, "no") || text::same(w, "off") || text::same(
        w,
        "0",
    ) {
        Ok(false)
    } else {
        Err(Error::Config(text::cat2("invalid boolean: ", w)))
    }
}

/// The configuration of a jail.
#[derive(Debug)]
pub struct JailConfig {
    /// The jail's name.
    pub name: String,
    /// Whether the jail is to run.
    pub enabled: bool,
    /// The name of its filter.
    pub filter: String,
    /// The parameters of its filter.
    pub filter_params: IndexMap<String, String>,
    /// The log files to watch.
    pub logpath: Vec<String>,
    /// For each log file, whether to start at its end.
    pub logpath_tail: Vec<bool>,
    /// How to watch: `auto`, `inotify`, `polling` or `systemd`.
    pub backend: String,
    /// The encoding of the log files.
    pub logencoding: String,
    /// The time zone of the log files.
    pub logtimezone: Option<String>,
    /// What to match in the systemd journal, one of which has to hold: in a
    /// file, with `+` in between.
    pub journalmatch: Vec<String>,
    /// How many failures lead to a ban.
    pub maxretry: u32,
    /// Within what time the failures count.
    pub findtime: TimeValue,
    /// How long a ban lasts.
    pub bantime: TimeValue,
    /// Whether bans grow with their number.
    pub bantime_increment: bool,
    /// By what factor bans grow.
    pub bantime_factor: u32,
    /// The longest that a growing ban can get.
    pub bantime_maxtime: Option<TimeValue>,
    /// The longest random time that is added to a ban.
    pub bantime_rndtime: Option<TimeValue>,
    /// What to do with host names: `yes`, `warn`, `no` or `raw`.
    pub usedns: String,
    /// Whether the machine's own addresses are never banned.
    pub ignoreself: bool,
    /// What is never to be banned.
    pub ignoreip: IgnoreList,
    /// The command that says whether an address is not to be banned.
    pub ignorecommand: Option<String>,
    /// How the command's answers are remembered.
    pub ignorecache: Option<String>,
    /// The specifications of its actions.
    pub actions: Vec<String>,
    /// Whether actions start with the first ban.
    pub actionstart_on_demand: bool,
    /// How many lines are matched together.
    pub maxlines: u32,
    /// How many matched lines a ticket keeps.
    pub maxmatches: u32,
    /// Whether a jail without log files is passed over.
    pub skip_if_nologs: bool,
    /// Whether a jail without log files watches the systemd journal.
    pub systemd_if_nologs: bool,
    /// All other values, for interpolation.
    pub extra: IndexMap<String, String>,
}

/// The model of a jail's configuration.
#[verifier::ext_equal]
pub struct JailView {
    pub name: Text,
    pub enabled: bool,
    pub filter: Text,
    pub filter_params: Seq<(Text, Text)>,
    pub logpath: Seq<Text>,
    pub logpath_tail: Seq<bool>,
    pub backend: Text,
    pub logencoding: Text,
    pub logtimezone: Option<Text>,
    pub journalmatch: Seq<Text>,
    pub maxretry: u32,
    pub findtime: TimeValue,
    pub bantime: TimeValue,
    pub bantime_increment: bool,
    pub bantime_factor: u32,
    pub bantime_maxtime: Option<TimeValue>,
    pub bantime_rndtime: Option<TimeValue>,
    pub usedns: Text,
    pub ignoreself: bool,
    pub ignoreip: Seq<IgnoreView>,
    pub ignorecommand: Option<Text>,
    pub ignorecache: Option<Text>,
    pub actions: Seq<Text>,
    pub actionstart_on_demand: bool,
    pub maxlines: u32,
    pub maxmatches: u32,
    pub skip_if_nologs: bool,
    pub systemd_if_nologs: bool,
    pub extra: Seq<(Text, Text)>,
}

impl View for JailConfig {
    type V = JailView;

    open spec fn view(&self) -> JailView {
        JailView {
            name: self.name@,
            enabled: self.enabled,
            filter: self.filter@,
            filter_params: table::entries(self.filter_params),
            logpath: text::texts(self.logpath@),
            logpath_tail: self.logpath_tail@,
            backend: self.backend@,
            logencoding: self.logencoding@,
            logtimezone: text::opt_text(self.logtimezone),
            journalmatch: text::texts(self.journalmatch@),
            maxretry: self.maxretry,
            findtime: self.findtime,
            bantime: self.bantime,
            bantime_increment: self.bantime_increment,
            bantime_factor: self.bantime_factor,
            bantime_maxtime: self.bantime_maxtime,
            bantime_rndtime: self.bantime_rndtime,
            usedns: self.usedns@,
            ignoreself: self.ignoreself,
            ignoreip: self.ignoreip@,
            ignorecommand: text::opt_text(self.ignorecommand),
            ignorecache: text::opt_text(self.ignorecache),
            actions: text::texts(self.actions@),
            actionstart_on_demand: self.actionstart_on_demand,
            maxlines: self.maxlines,
            maxmatches: self.maxmatches,
            skip_if_nologs: self.skip_if_nologs,
            systemd_if_nologs: self.systemd_if_nologs,
            extra: table::entries(self.extra),
        }
    }
}

/// Whether a key is one that a jail's configuration reads.
pub open spec fn is_jail_key(k: Text) -> bool {
    ||| k == "enabled"@
    ||| k == "filter"@
    ||| k == "logpath"@
    ||| k == "backend"@
    ||| k == "logencoding"@
    ||| k == "logtimezone"@
    ||| k == "journalmatch"@
    ||| k == "maxretry"@
    ||| k == "findtime"@
    ||| k == "bantime"@
    ||| k == "bantime_increment"@
    ||| k == "bantime_factor"@
    ||| k == "bantime_maxtime"@
    ||| k == "bantime_rndtime"@
    ||| k == "bantime.factor"@
    ||| k == "bantime.maxtime"@
    ||| k == "bantime.rndtime"@
    ||| k == "usedns"@
    ||| k == "ignoreself"@
    ||| k == "ignoreip"@
    ||| k == "ignorecommand"@
    ||| k == "ignorecache"@
    ||| k == "action"@
    ||| k == "banaction"@
    ||| k == "banaction_allports"@
    ||| k == "actionstart_on_demand"@
    ||| k == "maxlines"@
    ||| k == "maxmatches"@
    ||| k == "skip_if_nologs"@
    ||| k == "systemd_if_nologs"@
    ||| k == "port"@
}

fn is_known_jail_key(k: &str) -> (r: bool)
    ensures
        r == is_jail_key(k@),
{
    text::same(k, "enabled")
        || text::same(k, "filter")
        || text::same(k, "logpath")
        || text::same(k, "backend")
        || text::same(k, "logencoding")
        || text::same(k, "logtimezone")
        || text::same(k, "journalmatch")
        || text::same(k, "maxretry")
        || text::same(k, "findtime")
        || text::same(k, "bantime")
        || text::same(k, "bantime_increment")
        || text::same(k, "bantime_factor")
        || text::same(k, "bantime_maxtime")
        || text::same(k, "bantime_rndtime")
        || text::same(k, "bantime.factor")
        || text::same(k, "bantime.maxtime")
        || text::same(k, "bantime.rndtime")
        || text::same(k, "usedns")
        || text::same(k, "ignoreself")
        || text::same(k, "ignoreip")
        || text::same(k, "ignorecommand")
        || text::same(k, "ignorecache")
        || text::same(k, "action")
        || text::same(k, "banaction")
        || text::same(k, "banaction_allports")
        || text::same(k, "actionstart_on_demand")
        || text::same(k, "maxlines")
        || text::same(k, "maxmatches")
        || text::same(k, "skip_if_nologs")
        || text::same(k, "systemd_if_nologs")
        || text::same(k, "port")
}

/// The value of a key in a section, or where it has none the inherited one.
pub open spec fn setting(
    sec: Seq<(Text, Text)>,
    defaults: Seq<(Text, Text)>,
    key: Text,
) -> Option<Text> {
    interpolator::first_of(table::lookup(sec, key), table::lookup(defaults, key))
}

/// The value of a key, or `d` where it has none.
pub open spec fn setting_or(
    sec: Seq<(Text, Text)>,
    defaults: Seq<(Text, Text)>,
    key: Text,
    d: Text,
) -> Text {
    match setting(sec, defaults, key) {
        Some(v) => v,
        None => d,
    }
}

/// The value of a key, or where it has none of another spelling of it.
pub open spec fn either_setting(
    sec: Seq<(Text, Text)>,
    defaults: Seq<(Text, Text)>,
    key: Text,
    spelling: Text,
) -> Option<Text> {
    interpolator::first_of(setting(sec, defaults, key), setting(sec, defaults, spelling))
}

/// A boolean setting.
pub open spec fn flag(
    sec: Seq<(Text, Text)>,
    defaults: Seq<(Text, Text)>,
    key: Text,
    d: Text,
) -> Result<bool, ErrorView> {
    bool_of(setting_or(sec, defaults, key, d))
}

/// A number written out, of 32 bits; the error names the key.
pub open spec fn count_of(s: Text, key: Text) -> Result<u32, ErrorView> {
    match number::unsigned_of(s, u32::MAX as nat) {
        Ok(n) => Ok(n as u32),
        Err(f) => Err(ErrorView::Config(key + ": "@ + number::fault_text(f))),
    }
}

/// A duration that may be left out.
pub open spec fn optional_time(s: Option<Text>) -> Result<Option<TimeValue>, ErrorView> {
    match s {
        None => Ok(None),
        Some(t) => match time::time_of(t) {
            Ok(v) => Ok(Some(v)),
            Err(e) => Err(e),
        },
    }
}

/// The action specifications: the lines of `action`, and then `banaction` and
/// `banaction_allports`.
pub open spec fn actions_of(sec: Seq<(Text, Text)>, defaults: Seq<(Text, Text)>) -> Seq<Text> {
    let lines = match setting(sec, defaults, "action"@) {
        Some(a) => split::tidied(split::lines_of(a)),
        None => Seq::empty(),
    };
    let one = match setting(sec, defaults, "banaction"@) {
        Some(b) => lines.push(b),
        None => lines,
    };
    match setting(sec, defaults, "banaction_allports"@) {
        Some(b) => one.push(b),
        None => one,
    }
}

/// The entries that a jail's configuration does not read itself, put onto
/// `acc`; where `missing` holds, only those whose key is not there yet.
pub open spec fn put_others(
    acc: Seq<(Text, Text)>,
    e: Seq<(Text, Text)>,
    missing: bool,
) -> Seq<(Text, Text)>
    decreases e.len(),
{
    if e.len() == 0 {
        acc
    } else {
        let front = put_others(acc, e.drop_last(), missing);
        let last = e.last();
        if is_jail_key(last.0) || (missing && table::lookup(front, last.0) is Some) {
            front
        } else {
            table::put(front, last.0, last.1)
        }
    }
}

/// What a jail never bans.
pub open spec fn ignored_of(s: Text, files: Seq<SourceView>) -> Result<Seq<IgnoreView>, StopView> {
    if s.len() == 0 {
        Ok(Seq::empty())
    } else {
        ip::ignore_list_of(s, files)
    }
}

pub open spec fn failed<T>(e: ErrorView) -> Result<T, StopView> {
    Err(StopView::Failed(e))
}

/// The factor by which ban times grow. Where it cannot be read, the error
/// names the spelling of the key that it was found under.
pub open spec fn factor_of(s: Seq<(Text, Text)>, d: Seq<(Text, Text)>) -> Result<u32, ErrorView> {
    match (setting(s, d, "bantime_factor"@), setting(s, d, "bantime.factor"@)) {
        (Some(v), _) => count_of(v, "bantime_factor"@),
        (None, Some(v)) => count_of(v, "bantime.factor"@),
        (None, None) => Ok(1),
    }
}

/// The configuration that a section describes, with inherited values for what
/// it leaves out. The first value that cannot be read makes the error.
#[verifier::opaque]
pub open spec fn jail_of(
    name: Text,
    s: Seq<(Text, Text)>,
    d: Seq<(Text, Text)>,
    files: Seq<SourceView>,
) -> Result<JailView, StopView> {
    let filter = setting_or(s, d, "filter"@, ""@);
    let params = spec_params(filter, "filter"@, "']'"@);
    let enabled = flag(s, d, "enabled"@, "false"@);
    let maxretry = count_of(setting_or(s, d, "maxretry"@, "3"@), "maxretry"@);
    let findtime = time::time_of(setting_or(s, d, "findtime"@, "10m"@));
    let bantime = time::time_of(setting_or(s, d, "bantime"@, "10m"@));
    let increment = flag(s, d, "bantime_increment"@, "false"@);
    let factor = factor_of(s, d);
    let maxtime = optional_time(either_setting(s, d, "bantime_maxtime"@, "bantime.maxtime"@));
    let rndtime = optional_time(either_setting(s, d, "bantime_rndtime"@, "bantime.rndtime"@));
    let ignoreself = flag(s, d, "ignoreself"@, "true"@);
    let ignoreip = ignored_of(setting_or(s, d, "ignoreip"@, ""@), files);
    let on_demand = flag(s, d, "actionstart_on_demand"@, "false"@);
    let maxlines = count_of(setting_or(s, d, "maxlines"@, "1"@), "maxlines"@);
    let maxmatches = count_of(setting_or(s, d, "maxmatches"@, "10"@), "maxmatches"@);
    let skip = flag(s, d, "skip_if_nologs"@, "false"@);
    let systemd = flag(s, d, "systemd_if_nologs"@, "false"@);
    if enabled is Err {
        failed(enabled->Err_0)
    } else if params is Err {
        failed(params->Err_0)
    } else if maxretry is Err {
        failed(maxretry->Err_0)
    } else if findtime is Err {
        failed(findtime->Err_0)
    } else if bantime is Err {
        failed(bantime->Err_0)
    } else if increment is Err {
        failed(increment->Err_0)
    } else if factor is Err {
        failed(factor->Err_0)
    } else if maxtime is Err {
        failed(maxtime->Err_0)
    } else if rndtime is Err {
        failed(rndtime->Err_0)
    } else if ignoreself is Err {
        failed(ignoreself->Err_0)
    } else if ignoreip is Err {
        Err(ignoreip->Err_0)
    } else if on_demand is Err {
        failed(on_demand->Err_0)
    } else if maxlines is Err {
        failed(maxlines->Err_0)
    } else if maxmatches is Err {
        failed(maxmatches->Err_0)
    } else if skip is Err {
        failed(skip->Err_0)
    } else if systemd is Err {
        failed(systemd->Err_0)
    } else {
        Ok(
            JailView {
                name,
                enabled: enabled->Ok_0,
                filter: spec_name(filter),
                filter_params: params->Ok_0,
                logpath: split::items(setting_or(s, d, "logpath"@, ""@), true),
                logpath_tail: Seq::empty(),
                backend: setting_or(s, d, "backend"@, "auto"@),
                logencoding: setting_or(s, d, "logencoding"@, "auto"@),
                logtimezone: setting(s, d, "logtimezone"@),
                journalmatch: split::tidied(
                    split::pieces(setting_or(s, d, "journalmatch"@, ""@), '+'),
                ),
                maxretry: maxretry->Ok_0,
                findtime: findtime->Ok_0,
                bantime: bantime->Ok_0,
                bantime_increment: increment->Ok_0,
                bantime_factor: factor->Ok_0,
                bantime_maxtime: maxtime->Ok_0,
                bantime_rndtime: rndtime->Ok_0,
                usedns: setting_or(s, d, "usedns"@, "warn"@),
                ignoreself: ignoreself->Ok_0,
                ignoreip: ignoreip->Ok_0,
                ignorecommand: setting(s, d, "ignorecommand"@),
                ignorecache: setting(s, d, "ignorecache"@),
                actions: actions_of(s, d),
                actionstart_on_demand: on_demand->Ok_0,
                maxlines: maxlines->Ok_0,
                maxmatches: maxmatches->Ok_0,
                skip_if_nologs: skip->Ok_0,
                systemd_if_nologs: systemd->Ok_0,
                extra: put_others(put_others(Seq::empty(), s, false), d, true),
            },
        )
    }
}

/// Where values are looked up: in a section, and then in what it inherits.
struct Settings<'a> {
    section: &'a IndexMap<String, String>,
    defaults: &'a IndexMap<String, String>,
}

impl<'a> Settings<'a> {
    spec fn own(&self) -> Seq<(Text, Text)> {
        table::entries(*self.section)
    }

    spec fn inherited(&self) -> Seq<(Text, Text)> {
        table::entries(*self.defaults)
    }

    fn get(&self, key: &str) -> (r: Option<String>)
        ensures
            text::opt_text(r) == setting(self.own(), self.inherited(), key@),
    {
        match table::get(self.section, key) {
            Some(v) => Some(v.to_owned()),
            None => match table::get(self.defaults, key) {
                Some(v) => Some(v.to_owned()),
                None => None,
            },
        }
    }

    fn get_or(&self, key: &str, d: &str) -> (r: String)
        ensures
            r@ == setting_or(self.own(), self.inherited(), key@, d@),
    {
        match self.get(key) {
            Some(v) => v,
            None => d.to_owned(),
        }
    }

    fn get_either(&self, key: &str, spelling: &str) -> (r: Option<String>)
        ensures
            text::opt_text(r) == either_setting(self.own(), self.inherited(), key@, spelling@),
    {
        match self.get(key) {
            Some(v) => Some(v),
            None => self.get(spelling),
        }
    }

    fn factor(&self) -> (r: Result<u32, Error>)
        ensures
            error::outcome(r) == factor_of(self.own(), self.inherited()),
    {
        match self.get("bantime_factor") {
            Some(v) => parse_count(v.as_str(), "bantime_factor"),
            None => match self.get("bantime.factor") {
                Some(v) => parse_count(v.as_str(), "bantime.factor"),
                None => Ok(1),
            },
        }
    }

    fn flag(&self, key: &str, d: &str) -> (r: Result<bool, Error>)
        ensures
            error::outcome(r) == flag(self.own(), self.inherited(), key@, d@),
    {
        let s = self.get_or(key, d);
        parse_bool(s.as_str())
    }

    fn count(&self, key: &str, d: &str) -> (r: Result<u32, Error>)
        ensures
            error::outcome(r) == count_of(
                setting_or(self.own(), self.inherited(), key@, d@),
                key@,
            ),
    {
        let s = self.get_or(key, d);
        parse_count(s.as_str(), key)
    }

    fn duration(&self, key: &str, d: &str) -> (r: Result<TimeValue, Error>)
        ensures
            error::outcome(r) == time::time_of(
                setting_or(self.own(), self.inherited(), key@, d@),
            ),
    {
        let s = self.get_or(key, d);
        TimeValue::parse(s.as_str())
    }

    fn list(&self, key: &str) -> (r: Vec<String>)
        ensures
            text::texts(r@) == split::items(
                setting_or(self.own(), self.inherited(), key@, ""@),
                true,
            ),
    {
        let s = self.get_or(key, "");
        split::split_items(s.as_str(), true)
    }

    fn matches(&self) -> (r: Vec<String>)
        ensures
            text::texts(r@) == split::tidied(
                split::pieces(
                    setting_or(self.own(), self.inherited(), "journalmatch"@, ""@),
                    '+',
                ),
            ),
    {
        let s = self.get_or("journalmatch", "");
        split::tidy(&split::split(s.as_str(), '+'))
    }

    fn actions(&self) -> (r: Vec<String>)
        ensures
            text::texts(r@) == actions_of(self.own(), self.inherited()),
    {
        let mut out: Vec<String> = Vec::new();
        assert(text::texts(out@) =~= Seq::empty());
        if let Some(a) = self.get("action") {
            out = split::tidy(&split::lines(a.as_str()));
        }
        if let Some(b) = self.get("banaction") {
            proof {
                text::lemma_texts_push(out@, b);
            }
            out.push(b);
        }
        if let Some(b) = self.get("banaction_allports") {
            proof {
                text::lemma_texts_push(out@, b);
            }
            out.push(b);
        }
        out
    }
}

fn parse_count(s: &str, key: &str) -> (r: Result<u32, Error>)
    ensures
        error::outcome(r) == count_of(s@, key@),
{
    match number::parse_unsigned(s, u32::MAX as u64) {
        Ok(n) => Ok(n as u32),
        Err(f) => Err(Error::Config(text::cat3(key, ": ", f.message()))),
    }
}

fn parse_optional_time(s: Option<String>) -> (r: Result<Option<TimeValue>, Error>)
    ensures
        match r {
            Ok(v) => optional_time(text::opt_text(s)) == Ok::<Option<TimeValue>, ErrorView>(v),
            Err(e) => optional_time(text::opt_text(s)) == Err::<Option<TimeValue>, ErrorView>(e@),
        },
{
    match s {
        None => Ok(None),
        Some(t) => match TimeValue::parse(t.as_str()) {
            Ok(v) => Ok(Some(v)),
            Err(e) => Err(e),
        },
    }
}

fn parse_ignored(s: &str, files: &FileSet) -> (r: Result<IgnoreList, Stop>)
    ensures
        files::answer(r) == ignored_of(s@, files@),
        r matches Ok(l) ==> ip::list_wf(l@),
{
    if s.is_empty() {
        Ok(IgnoreList::new())
    } else {
        IgnoreList::parse(s, files)
    }
}

fn add_others(acc: &mut IndexMap<String, String>, e: &IndexMap<String, String>, missing: bool)
    ensures
        table::entries(*final(acc)) == put_others(
            table::entries(*old(acc)),
            table::entries(*e),
            missing,
        ),
{
    let ghost start = table::entries(*acc);
    let ghost all = table::entries(*e);
    let n = table::size(e);
    let mut i: usize = 0;
    assert(all.take(0) =~= Seq::empty());
    while i < n
        invariant
            i <= n == all.len(),
            all == table::entries(*e),
            table::entries(*acc) == put_others(start, all.take(i as int), missing),
        decreases n - i,
    {
        proof {
            assert(all.take(i + 1).drop_last() =~= all.take(i as int));
            assert(all.take(i + 1).last() == all[i as int]);
        }
        if let Some((k, v)) = table::at(e, i) {
            if !is_known_jail_key(k.as_str()) && !(missing && table::get(
                acc,
                k.as_str(),
            ).is_some()) {
                table::insert(acc, k.clone(), v.clone());
            }
        }
        i += 1;
    }
    assert(all.take(i as int) =~= all);
}

fn copy_flags(v: &Vec<bool>) -> (r: Vec<bool>)
    ensures
        r@ == v@,
{
    let mut out: Vec<bool> = Vec::new();
    let mut i: usize = 0;
    while i < v.len()
        invariant
            i <= v.len(),
            out@ == v@.take(i as int),
        decreases v.len() - i,
    {
        out.push(v[i]);
        i += 1;
        assert(out@ =~= v@.take(i as int));
    }
    assert(v@.take(i as int) =~= v@);
    out
}

impl Clone for JailConfig {
    fn clone(&self) -> (r: JailConfig)
        ensures
            r@ == self@,
    {
        JailConfig {
            name: self.name.clone(),
            enabled: self.enabled,
            filter: self.filter.clone(),
            filter_params: table::copy(&self.filter_params),
            logpath: text::copy_strings(&self.logpath),
            logpath_tail: copy_flags(&self.logpath_tail),
            backend: self.backend.clone(),
            logencoding: self.logencoding.clone(),
            logtimezone: text::copy_opt(&self.logtimezone),
            journalmatch: text::copy_strings(&self.journalmatch),
            maxretry: self.maxretry,
            findtime: self.findtime,
            bantime: self.bantime,
            bantime_increment: self.bantime_increment,
            bantime_factor: self.bantime_factor,
            bantime_maxtime: self.bantime_maxtime,
            bantime_rndtime: self.bantime_rndtime,
            usedns: self.usedns.clone(),
            ignoreself: self.ignoreself,
            ignoreip: self.ignoreip.clone(),
            ignorecommand: text::copy_opt(&self.ignorecommand),
            ignorecache: text::copy_opt(&self.ignorecache),
            actions: text::copy_strings(&self.actions),
            actionstart_on_demand: self.actionstart_on_demand,
            maxlines: self.maxlines,
            maxmatches: self.maxmatches,
            skip_if_nologs: self.skip_if_nologs,
            systemd_if_nologs: self.systemd_if_nologs,
            extra: table::copy(&self.extra),
        }
    }
}

impl JailConfig {
    /// Whether what is never to be banned holds proper networks only.
    pub open spec fn wf(&self) -> bool {
        ip::list_wf(self@.ignoreip)
    }

    /// Builds the configuration of a jail from its section and the values that
    /// it inherits.
    pub fn from_section(
        name: &str,
        section: &IniSection,
        defaults: &IndexMap<String, String>,
        files: &FileSet,
    ) -> (r: Result<JailConfig, Stop>)
        ensures
            files::answer(r) == jail_of(
                name@,
                section@.entries,
                table::entries(*defaults),
                files@,
            ),
            r matches Ok(j) ==> j.wf(),
    {
        proof {
            reveal(jail_of);
        }
        let s = Settings { section: &section.entries, defaults };
        let enabled = match s.flag("enabled", "false") {
            Ok(v) => v,
            Err(e) => {
                return Err(Stop::Failed(e));
            },
        };
        let filter_str = s.get_or("filter", "");
        let (filter, filter_params) = match parse_filter_spec(filter_str.as_str()) {
            Ok(p) => p,
            Err(e) => {
                return Err(Stop::Failed(e));
            },
        };
        let maxretry: u32 = match s.count("maxretry", "3") {
            Ok(v) => v,
            Err(e) => {
                return Err(Stop::Failed(e));
            },
        };
        let findtime = match s.duration("findtime", "10m") {
            Ok(v) => v,
            Err(e) => {
                return Err(Stop::Failed(e));
            },
        };
        let bantime = match s.duration("bantime", "10m") {
            Ok(v) => v,
            Err(e) => {
                return Err(Stop::Failed(e));
            },
        };
        let bantime_increment = match s.flag("bantime_increment", "false") {
            Ok(v) => v,
            Err(e) => {
                return Err(Stop::Failed(e));
            },
        };
        let bantime_factor: u32 = match s.factor() {
            Ok(v) => v,
            Err(e) => {
                return Err(Stop::Failed(e));
            },
        };
        let bantime_maxtime = match parse_optional_time(
            s.get_either("bantime_maxtime", "bantime.maxtime"),
        ) {
            Ok(v) => v,
            Err(e) => {
                return Err(Stop::Failed(e));
            },
        };
        let bantime_rndtime = match parse_optional_time(
            s.get_either("bantime_rndtime", "bantime.rndtime"),
        ) {
            Ok(v) => v,
            Err(e) => {
                return Err(Stop::Failed(e));
            },
        };
        let ignoreself = match s.flag("ignoreself", "true") {
            Ok(v) => v,
            Err(e) => {
                return Err(Stop::Failed(e));
            },
        };
        let ignoreip_str = s.get_or("ignoreip", "");
        let ignoreip = match parse_ignored(ignoreip_str.as_str(), files) {
            Ok(v) => v,
            Err(e) => {
                return Err(e);
            },
        };
        let actionstart_on_demand = match s.flag("actionstart_on_demand", "false") {
            Ok(v) => v,
            Err(e) => {
                return Err(Stop::Failed(e));
            },
        };
        let maxlines: u32 = match s.count("maxlines", "1") {
            Ok(v) => v,
            Err(e) => {
                return Err(Stop::Failed(e));
            },
        };
        let maxmatches: u32 = match s.count("maxmatches", "10") {
            Ok(v) => v,
            Err(e) => {
                return Err(Stop::Failed(e));
            },
        };
        let skip_if_nologs = match s.flag("skip_if_nologs", "false") {
            Ok(v) => v,
            Err(e) => {
                return Err(Stop::Failed(e));
            },
        };
        let systemd_if_nologs = match s.flag("systemd_if_nologs", "false") {
            Ok(v) => v,
            Err(e) => {
                return Err(Stop::Failed(e));
            },
        };
        let mut extra = table::new_table();
        add_others(&mut extra, &section.entries, false);
        add_others(&mut extra, defaults, true);
        let j = JailConfig {
            name: name.to_owned(),
            enabled,
            filter,
            filter_params,
            logpath: s.list("logpath"),
            logpath_tail: Vec::new(),
            backend: s.get_or("backend", "auto"),
            logencoding: s.get_or("logencoding", "auto"),
            logtimezone: s.get("logtimezone"),
            journalmatch: s.matches(),
            maxretry,
            findtime,
            bantime,
            bantime_increment,
            bantime_factor,
            bantime_maxtime,
            bantime_rndtime,
            usedns: s.get_or("usedns", "warn"),
            ignoreself,
            ignoreip,
            ignorecommand: s.get("ignorecommand"),
            ignorecache: s.get("ignorecache"),
            actions: s.actions(),
            actionstart_on_demand,
            maxlines,
            maxmatches,
            skip_if_nologs,
            systemd_if_nologs,
            extra,
        };
        Ok(j)
    }
}

/// The jails that the configuration describes.
pub struct JailSet {
    /// The values that every jail inherits.
    pub defaults: IndexMap<String, String>,
    /// The jails by name.
    pub jails: Registry<JailConfig>,
}

proof fn lemma_others_pass_over(
    acc: Seq<(Text, Text)>,
    e: Seq<(Text, Text)>,
    missing: bool,
    key: Text,
    value: Text,
)
    requires
        is_jail_key(key),
    ensures
        put_others(acc, table::put(e, key, value), missing) == put_others(acc, e, missing),
    decreases e.len(),
{
    table::lemma_slot(e, key);
    let i = table::slot(e, key);
    let w = table::put(e, key, value);
    if i == e.len() {
        assert(w.drop_last() =~= e);
    } else if i == e.len() - 1 {
        assert(w.drop_last() =~= e.drop_last());
    } else {
        let front = e.drop_last();
        assert forall|k: int| 0 <= k < i implies (#[trigger] front[k]).0 != key by {
            assert(front[k] == e[k]);
        }
        table::lemma_slot_at(front, key, i);
        lemma_others_pass_over(acc, front, missing, key, value);
        assert(w.drop_last() =~= table::put(front, key, value));
        assert(w.last() == e.last());
    }
}

/// The settings, and the entries that a jail does not read itself, decide the
/// jail.
#[verifier::spinoff_prover]
#[verifier::rlimit(60)]
proof fn lemma_same_jail(
    name: Text,
    s: Seq<(Text, Text)>,
    d: Seq<(Text, Text)>,
    t: Seq<(Text, Text)>,
    e: Seq<(Text, Text)>,
    files: Seq<SourceView>,
)
    requires
        forall|x: Text| #[trigger] setting(t, e, x) == setting(s, d, x),
        put_others(put_others(Seq::empty(), t, false), e, true) == put_others(
            put_others(Seq::empty(), s, false),
            d,
            true,
        ),
    ensures
        jail_of(name, t, e, files) == jail_of(name, s, d, files),
{
    reveal(jail_of);
}

/// A value that a jail inherits counts as much as one that it sets itself.
pub proof fn law_inherited_value_counts(
    name: Text,
    s: Seq<(Text, Text)>,
    d: Seq<(Text, Text)>,
    files: Seq<SourceView>,
    key: Text,
)
    requires
        is_jail_key(key),
        table::lookup(s, key) is None,
        table::lookup(d, key) is Some,
    ensures
        jail_of(name, table::put(s, key, table::lookup(d, key)->0), d, files) == jail_of(
            name,
            s,
            d,
            files,
        ),
{
    let v = table::lookup(d, key)->0;
    let t = table::put(s, key, v);
    assert forall|x: Text| #[trigger] setting(t, d, x) == setting(s, d, x) by {
        table::law_put_lookup(s, key, v, x);
    }
    lemma_others_pass_over(Seq::empty(), s, false, key, v);
    lemma_same_jail(name, s, d, t, d, files);
}

/// What a jail sets itself wins over what it inherits, whatever that is.
pub proof fn law_own_value_counts(
    name: Text,
    s: Seq<(Text, Text)>,
    d: Seq<(Text, Text)>,
    files: Seq<SourceView>,
    key: Text,
    other: Text,
)
    requires
        is_jail_key(key),
        table::lookup(s, key) is Some,
    ensures
        jail_of(name, s, table::put(d, key, other), files) == jail_of(name, s, d, files),
{
    let t = table::put(d, key, other);
    assert forall|x: Text| #[trigger] setting(s, t, x) == setting(s, d, x) by {
        table::law_put_lookup(d, key, other, x);
    }
    lemma_others_pass_over(put_others(Seq::empty(), s, false), d, true, key, other);
    lemma_same_jail(name, s, d, s, t, files);
}

/// The entries of `d` whose key is not in `s`, in their order.
pub open spec fn left_out(s: Seq<(Text, Text)>, d: Seq<(Text, Text)>) -> Seq<(Text, Text)>
    decreases d.len(),
{
    if d.len() == 0 {
        Seq::empty()
    } else if table::lookup(s, d.last().0) is Some {
        left_out(s, d.drop_last())
    } else {
        left_out(s, d.drop_last()).push(d.last())
    }
}

proof fn lemma_lookup_joined(a: Seq<(Text, Text)>, b: Seq<(Text, Text)>, key: Text)
    ensures
        table::lookup(a + b, key) == interpolator::first_of(
            table::lookup(a, key),
            table::lookup(b, key),
        ),
{
    table::lemma_slot(a, key);
    table::lemma_slot(b, key);
    let w = a + b;
    let i = if table::slot(a, key) < a.len() {
        table::slot(a, key)
    } else {
        a.len() + table::slot(b, key)
    };
    assert forall|j: int| 0 <= j < i implies (#[trigger] w[j]).0 != key by {
        if j < a.len() {
            assert(w[j] == a[j]);
        } else {
            assert(w[j] == b[j - a.len()]);
        }
    }
    table::lemma_slot_at(w, key, i);
}

proof fn lemma_lookup_last(e: Seq<(Text, Text)>, key: Text)
    requires
        e.len() > 0,
    ensures
        table::lookup(e, key) == interpolator::first_of(
            table::lookup(e.drop_last(), key),
            if e.last().0 == key {
                Some(e.last().1)
            } else {
                None
            },
        ),
{
    let one = seq![e.last()];
    assert(e =~= e.drop_last() + one);
    lemma_lookup_joined(e.drop_last(), one, key);
    assert(one.drop_first() =~= Seq::empty());
    reveal_with_fuel(table::slot, 2);
}

proof fn lemma_left_out(s: Seq<(Text, Text)>, d: Seq<(Text, Text)>, key: Text)
    ensures
        table::lookup(left_out(s, d), key) == (if table::lookup(s, key) is Some {
            None
        } else {
            table::lookup(d, key)
        }),
    decreases d.len(),
{
    if d.len() == 0 {
        table::lemma_slot(d, key);
    } else {
        let front = d.drop_last();
        lemma_left_out(s, front, key);
        lemma_lookup_last(d, key);
        if table::lookup(s, d.last().0) is None {
            let w = left_out(s, front).push(d.last());
            lemma_lookup_last(w, key);
            assert(w.drop_last() =~= left_out(s, front));
        }
    }
}

/// Which keys there are among the entries that a jail does not read itself.
proof fn lemma_others_keys(
    acc: Seq<(Text, Text)>,
    e: Seq<(Text, Text)>,
    missing: bool,
    key: Text,
)
    ensures
        table::lookup(put_others(acc, e, missing), key) is Some <==> table::lookup(acc, key) is Some
            || (!is_jail_key(key) && table::lookup(e, key) is Some),
    decreases e.len(),
{
    if e.len() == 0 {
        table::lemma_slot(e, key);
    } else {
        lemma_others_keys(acc, e.drop_last(), missing, key);
        lemma_lookup_last(e, key);
        let front = put_others(acc, e.drop_last(), missing);
        table::law_put_lookup(front, e.last().0, e.last().1, key);
    }
}

proof fn lemma_others_joined(
    acc: Seq<(Text, Text)>,
    a: Seq<(Text, Text)>,
    b: Seq<(Text, Text)>,
)
    ensures
        put_others(acc, a + b, false) == put_others(put_others(acc, a, false), b, false),
    decreases b.len(),
{
    if b.len() == 0 {
        assert(a + b =~= a);
    } else {
        lemma_others_joined(acc, a, b.drop_last());
        assert((a + b).drop_last() =~= a + b.drop_last());
        assert((a + b).last() == b.last());
    }
}

proof fn lemma_others_left_out(s: Seq<(Text, Text)>, d: Seq<(Text, Text)>)
    requires
        table::distinct(d),
    ensures
        put_others(put_others(Seq::empty(), s, false), left_out(s, d), false) == put_others(
            put_others(Seq::empty(), s, false),
            d,
            true,
        ),
    decreases d.len(),
{
    let base = put_others(Seq::empty(), s, false);
    if d.len() > 0 {
        let front = d.drop_last();
        let last = d.last();
        assert forall|i: int, j: int| 0 <= i < j < front.len() implies (#[trigger] front[i]).0 != (
        #[trigger] front[j]).0 by {
            assert(d[i].0 != d[j].0);
        }
        lemma_others_left_out(s, front);
        lemma_others_keys(Seq::empty(), s, false, last.0);
        table::lemma_slot(Seq::<(Text, Text)>::empty(), last.0);
        lemma_others_keys(base, front, true, last.0);
        table::lemma_slot(front, last.0);
        if table::slot(front, last.0) < front.len() {
            assert(d[table::slot(front, last.0)].0 != d[d.len() - 1].0);
        }
        if table::lookup(s, last.0) is None {
            assert(left_out(s, d).drop_last() =~= left_out(s, front));
        }
    }
}

/// A default counts exactly when the section lacks the key: a jail is the one
/// that inherits nothing and whose section holds the defaults that it lacked,
/// in all of its fields, or its error.
pub proof fn law_defaults_fill_in(
    name: Text,
    s: Seq<(Text, Text)>,
    d: Seq<(Text, Text)>,
    files: Seq<SourceView>,
)
    requires
        table::distinct(d),
    ensures
        jail_of(name, s, d, files) == jail_of(name, s + left_out(s, d), Seq::empty(), files),
{
    let t = s + left_out(s, d);
    let none = Seq::<(Text, Text)>::empty();
    assert forall|x: Text| #[trigger] setting(t, none, x) == setting(s, d, x) by {
        lemma_lookup_joined(s, left_out(s, d), x);
        lemma_left_out(s, d, x);
        table::lemma_slot(none, x);
    }
    lemma_others_joined(none, s, left_out(s, d));
    lemma_others_left_out(s, d);
    lemma_same_jail(name, s, d, t, none, files);
}

/// The words for true.
pub open spec fn yes_words() -> Seq<Text> {
    seq!["true"@, "yes"@, "on"@, "1"@]
}

/// The words for false.
pub open spec fn no_words() -> Seq<Text> {
    seq!["false"@, "no"@, "off"@, "0"@]
}

proof fn lemma_plain_word(w: Text)
    requires
        w.len() > 0,
        forall|i: int| 0 <= i < w.len() ==> ('a' <= #[trigger] w[i] && w[i] <= 'z') || w[i] == '0'
            || w[i] == '1',
    ensures
        text::lowered(trim::trimmed(w)) == w,
{
    assert(!trim::is_space(w[0]));
    assert(!trim::is_space(w[w.len() - 1]));
    assert(trim::trimmed(w) == w);
    assert(text::lowered(w) =~= w);
}

/// The four words for true and the four for false are read as such, in either
/// case and with white space around them, and no other word is read.
pub proof fn law_booleans(s: Text)
    ensures
        forall|i: int|
            0 <= i < 4 ==> bool_of(#[trigger] yes_words()[i]) == Ok::<bool, ErrorView>(true),
        forall|i: int|
            0 <= i < 4 ==> bool_of(#[trigger] no_words()[i]) == Ok::<bool, ErrorView>(false),
        bool_of("true"@) == Ok::<bool, ErrorView>(true),
        bool_of("false"@) == Ok::<bool, ErrorView>(false),
        yes_words().contains(text::lowered(trim::trimmed(s))) <==> bool_of(s) == Ok::<
            bool,
            ErrorView,
        >(true),
        no_words().contains(text::lowered(trim::trimmed(s))) <==> bool_of(s) == Ok::<
            bool,
            ErrorView,
        >(false),
{
    reveal_strlit("true");
    reveal_strlit("yes");
    reveal_strlit("on");
    reveal_strlit("1");
    reveal_strlit("false");
    reveal_strlit("no");
    reveal_strlit("off");
    reveal_strlit("0");
    assert("true"@[0] == 't' && "yes"@[0] == 'y' && "on"@[0] == 'o' && "1"@[0] == '1');
    assert("false"@[0] == 'f' && "no"@[0] == 'n' && "off"@[0] == 'o' && "0"@[0] == '0');
    assert("on"@.len() == 2 && "off"@.len() == 3);
    let y = yes_words();
    let n = no_words();
    lemma_plain_word("true"@);
    lemma_plain_word("yes"@);
    lemma_plain_word("on"@);
    lemma_plain_word("1"@);
    lemma_plain_word("false"@);
    lemma_plain_word("no"@);
    lemma_plain_word("off"@);
    lemma_plain_word("0"@);
    assert(y[0] == "true"@ && y[1] == "yes"@ && y[2] == "on"@ && y[3] == "1"@);
    assert(n[0] == "false"@ && n[1] == "no"@ && n[2] == "off"@ && n[3] == "0"@);
}

/// What each field of a jail says: the value of the key of its name in the
/// section, or else the inherited one, or else what the documentation names.
/// `n` is any number.
#[verifier::spinoff_prover]
#[verifier::rlimit(60)]
pub proof fn law_jail_fields(
    name: Text,
    s: Seq<(Text, Text)>,
    d: Seq<(Text, Text)>,
    files: Seq<SourceView>,
    n: u32,
)
    requires
        jail_of(name, s, d, files) is Ok,
    ensures
        ({
            let j = jail_of(name, s, d, files)->Ok_0;
            let get = |k: Text|
                match table::lookup(s, k) {
                    Some(v) => Some(v),
                    None => table::lookup(d, k),
                };
            &&& j.name == name
            &&& get("enabled"@) matches Some(v) ==> bool_of(v) == Ok::<bool, ErrorView>(j.enabled)
            &&& get("enabled"@) is None ==> !j.enabled
            &&& get("logpath"@) matches Some(v) ==> j.logpath == split::items(v, true)
            &&& get("logpath"@) is None ==> j.logpath.len() == 0
            &&& get("backend"@) matches Some(v) ==> j.backend == v
            &&& get("backend"@) is None ==> j.backend == "auto"@
            &&& get("logencoding"@) matches Some(v) ==> j.logencoding == v
            &&& get("logencoding"@) is None ==> j.logencoding == "auto"@
            &&& get("logtimezone"@) == j.logtimezone
            &&& get("maxretry"@) == Some(number::decimal(n as nat)) ==> j.maxretry == n
            &&& get("maxretry"@) is None ==> j.maxretry == 3
            &&& get("findtime"@) matches Some(v) ==> time::time_of(v) == Ok::<TimeValue, ErrorView>(
                j.findtime,
            )
            &&& get("findtime"@) is None ==> j.findtime.seconds == Some(600u64)
            &&& get("bantime"@) matches Some(v) ==> time::time_of(v) == Ok::<TimeValue, ErrorView>(
                j.bantime,
            )
            &&& get("bantime"@) is None ==> j.bantime.seconds == Some(600u64)
            &&& get("bantime_increment"@) matches Some(v) ==> bool_of(v) == Ok::<bool, ErrorView>(
                j.bantime_increment,
            )
            &&& get("bantime_increment"@) is None ==> !j.bantime_increment
            &&& get("bantime_factor"@) == Some(number::decimal(n as nat)) ==> j.bantime_factor == n
            &&& get("bantime_factor"@) is None && get("bantime.factor"@) == Some(
                number::decimal(n as nat),
            ) ==> j.bantime_factor == n
            &&& get("bantime_factor"@) is None && get("bantime.factor"@) is None
                ==> j.bantime_factor == 1
            &&& get("bantime_maxtime"@) matches Some(v) ==> j.bantime_maxtime matches Some(t)
                && time::time_of(v) == Ok::<TimeValue, ErrorView>(t)
            &&& get("bantime_maxtime"@) is None && get("bantime.maxtime"@) is None
                ==> j.bantime_maxtime is None
            &&& get("bantime_rndtime"@) matches Some(v) ==> j.bantime_rndtime matches Some(t)
                && time::time_of(v) == Ok::<TimeValue, ErrorView>(t)
            &&& get("bantime_rndtime"@) is None && get("bantime.rndtime"@) is None
                ==> j.bantime_rndtime is None
            &&& get("usedns"@) matches Some(v) ==> j.usedns == v
            &&& get("usedns"@) is None ==> j.usedns == "warn"@
            &&& get("ignoreself"@) matches Some(v) ==> bool_of(v) == Ok::<bool, ErrorView>(
                j.ignoreself,
            )
            &&& get("ignoreself"@) is None ==> j.ignoreself
            &&& get("ignoreip"@) matches Some(v) ==> v.len() > 0 ==> ip::ignore_list_of(v, files)
                == Ok::<Seq<IgnoreView>, StopView>(j.ignoreip)
            &&& get("ignoreip"@) is None ==> j.ignoreip.len() == 0
            &&& get("ignorecommand"@) == j.ignorecommand
            &&& get("ignorecache"@) == j.ignorecache
            &&& get("actionstart_on_demand"@) matches Some(v) ==> bool_of(v) == Ok::<
                bool,
                ErrorView,
            >(j.actionstart_on_demand)
            &&& get("actionstart_on_demand"@) is None ==> !j.actionstart_on_demand
            &&& get("maxlines"@) == Some(number::decimal(n as nat)) ==> j.maxlines == n
            &&& get("maxlines"@) is None ==> j.maxlines == 1
            &&& get("maxmatches"@) == Some(number::decimal(n as nat)) ==> j.maxmatches == n
            &&& get("maxmatches"@) is None ==> j.maxmatches == 10
            &&& get("skip_if_nologs"@) matches Some(v) ==> bool_of(v) == Ok::<bool, ErrorView>(
                j.skip_if_nologs,
            )
            &&& get("skip_if_nologs"@) is None ==> !j.skip_if_nologs
            &&& get("systemd_if_nologs"@) matches Some(v) ==> bool_of(v) == Ok::<bool, ErrorView>(
                j.systemd_if_nologs,
            )
            &&& get("systemd_if_nologs"@) is None ==> !j.systemd_if_nologs
        }),
{
    reveal(jail_of);
    lemma_defaults(n);
}

proof fn lemma_defaults(n: u32)
    ensures
        ""@ == Seq::<char>::empty(),
        count_of("3"@, "maxretry"@) == Ok::<u32, ErrorView>(3),
        count_of("1"@, "maxlines"@) == Ok::<u32, ErrorView>(1),
        count_of("10"@, "maxmatches"@) == Ok::<u32, ErrorView>(10),
        forall|k: Text|
            #[trigger] count_of(number::decimal(n as nat), k) == Ok::<u32, ErrorView>(n),
        bool_of("true"@) == Ok::<bool, ErrorView>(true),
        bool_of("false"@) == Ok::<bool, ErrorView>(false),
        time::time_of("10m"@) == Ok::<TimeValue, ErrorView>(
            TimeValue { seconds: Some(600u64), permanent: false },
        ),
        split::items(""@, true).len() == 0,
{
    law_booleans(Seq::empty());
    reveal_strlit("");
    reveal_strlit("3");
    reveal_strlit("1");
    reveal_strlit("10");
    reveal_strlit("m");
    reveal_strlit("10m");
    assert(""@ =~= Seq::<char>::empty());
    reveal_with_fuel(number::decimal, 3);
    assert("3"@ =~= number::decimal(3));
    assert("1"@ =~= number::decimal(1));
    assert("10"@ =~= number::decimal(10));
    assert("10m"@ =~= number::decimal(10) + "m"@);
    number::lemma_decimal_read(3, u32::MAX as nat);
    number::lemma_decimal_read(1, u32::MAX as nat);
    number::lemma_decimal_read(10, u32::MAX as nat);
    number::lemma_decimal_read(n as nat, u32::MAX as nat);
    assert(time::unit_table()[15] == ("m"@, 60nat));
    time::law_number_is_its_seconds(10, 15);
}

/// A number is read for a key, and what is no number is an error that names
/// the key.
pub proof fn law_counts(n: u32, s: Text, key: Text)
    ensures
        count_of(number::decimal(n as nat), key) == Ok::<u32, ErrorView>(n),
        number::unsigned_of(s, u32::MAX as nat) matches Err(f) ==> count_of(s, key) == Err::<
            u32,
            ErrorView,
        >(ErrorView::Config(key + ": "@ + number::fault_text(f))),
{
    number::lemma_decimal_read(n as nat, u32::MAX as nat);
}

proof fn lemma_splitting_plain(a: Text, sep: char, s: Text)
    requires
        !s.contains('"'),
        !s.contains(sep),
        !splitting(a, sep).quoted,
    ensures
        splitting(a + s, sep) == (Splitting {
            done: splitting(a, sep).done,
            piece: splitting(a, sep).piece + s,
            quoted: false,
        }),
    decreases s.len(),
{
    let st = splitting(a, sep);
    if s.len() == 0 {
        assert(a + s =~= a);
        assert(st.piece + s =~= st.piece);
    } else {
        let t = s.drop_last();
        assert(s[s.len() - 1] == s.last());
        assert(s.contains(s.last()));
        assert forall|c: char| t.contains(c) implies s.contains(c) by {
            let i = choose|i: int| 0 <= i < t.len() && t[i] == c;
            assert(s[i] == c);
        }
        lemma_splitting_plain(a, sep, t);
        assert((a + s).drop_last() =~= a + t);
        assert((a + s).last() == s.last());
        assert((st.piece + t).push(s.last()) =~= st.piece + s);
    }
}

/// A parameter in the brackets of a specification stands under its key, and
/// what is before the brackets is the name.
pub proof fn law_one_parameter(name: Text, k: Text, v: Text, what: Text, bracket: Text)
    requires
        forall|i: int| 0 <= i < name.len() ==> parser::in_name(#[trigger] name[i]),
        forall|i: int| 0 <= i < k.len() ==> parser::in_name(#[trigger] k[i]),
        forall|i: int| 0 <= i < v.len() ==> parser::in_name(#[trigger] v[i]),
        name.len() > 0,
        k.len() > 0,
        v.len() > 0,
    ensures
        spec_name(name + "["@ + k + "="@ + v + "]"@) == name,
        spec_params(name + "["@ + k + "="@ + v + "]"@, what, bracket) == Ok::<
            Seq<(Text, Text)>,
            ErrorView,
        >(seq![(k, v)]),
        spec_name(name) == name,
        spec_params(name, what, bracket) == Ok::<Seq<(Text, Text)>, ErrorView>(Seq::empty()),
{
    reveal_strlit("[");
    reveal_strlit("=");
    reveal_strlit("]");
    let kv = k + "="@ + v;
    let s = name + "["@ + k + "="@ + v + "]"@;
    let n = name.len() as int;
    lemma_names_trim(name);
    lemma_names_trim(k);
    lemma_names_trim(v);
    assert(!trim::is_space(s[0])) by {
        assert(s[0] == name[0]);
        assert(parser::in_name(name[0]));
    }
    assert(s.last() == ']');
    assert(trim::trimmed(s) == s);
    assert forall|i: int| 0 <= i < n implies s[i] != '[' by {
        assert(s[i] == name[i]);
        assert(parser::in_name(name[i]));
    }
    assert(s[n] == '[');
    find::lemma_find_at(s, '[', n);
    assert(s.take(n) =~= name);
    let rest = s.skip(n + 1);
    assert(rest =~= kv.push(']'));
    assert(rest.last() == ']');
    assert(rest.take(rest.len() - 1) =~= kv);
    assert(find::rfind(rest, ']') == rest.len() - 1);
    assert forall|c: char| kv.contains(c) implies c != '"' && c != ',' by {
        let i = choose|i: int| 0 <= i < kv.len() && kv[i] == c;
        if i < k.len() {
            assert(kv[i] == k[i]);
            assert(parser::in_name(k[i]));
        } else if i > k.len() {
            assert(kv[i] == v[i - k.len() - 1]);
            assert(parser::in_name(v[i - k.len() - 1]));
        }
    }
    let none = Seq::<char>::empty();
    lemma_splitting_plain(none, ',', kv);
    assert(none + kv =~= kv);
    let p = unquoted_pieces(kv, ',');
    assert(p =~= seq![kv]);
    assert(kv[0] == k[0]);
    assert(parser::in_name(k[0]));
    assert(kv.last() == v.last());
    assert(parser::in_name(v[v.len() - 1]));
    assert(trim::trimmed(kv) == kv);
    assert forall|i: int| 0 <= i < k.len() implies kv[i] != '=' by {
        assert(kv[i] == k[i]);
        assert(parser::in_name(k[i]));
    }
    find::lemma_find_at(kv, '=', k.len() as int);
    assert(kv.take(k.len() as int) =~= k);
    assert(kv.skip(k.len() as int + 1) =~= v);
    assert(parser::in_name(v[0]));
    assert(unquoted(v) == v);
    let one = table::put(Seq::<(Text, Text)>::empty(), k, v);
    assert(one =~= seq![(k, v)]);
    assert(params_from(p, 1, one, what) == Ok::<Seq<(Text, Text)>, ErrorView>(one));
    find::lemma_find(name, '[');
    assert(!name.contains('[')) by {
        if name.contains('[') {
            let i = choose|i: int| 0 <= i < name.len() && name[i] == '[';
            assert(parser::in_name(name[i]));
        }
    }
}

proof fn lemma_names_trim(s: Text)
    requires
        s.len() > 0,
        forall|i: int| 0 <= i < s.len() ==> parser::in_name(#[trigger] s[i]),
    ensures
        trim::trimmed(s) == s,
{
    assert(parser::in_name(s[0]));
    assert(parser::in_name(s[s.len() - 1]));
}

/// A separator outside quotes ends a piece, and what stands between two double
/// quotes is part of one piece.
pub proof fn law_quotes_keep_together(a: Text, q: Text, sep: char)
    requires
        !splitting(a, sep).quoted,
        !q.contains('"'),
        sep != '"',
    ensures
        splitting(a.push(sep), sep).done == splitting(a, sep).done.push(splitting(a, sep).piece),
        splitting(a.push(sep), sep).piece.len() == 0,
        ({
            let st = splitting(a + seq!['"'] + q + seq!['"'], sep);
            &&& st.done == splitting(a, sep).done
            &&& st.piece == splitting(a, sep).piece + seq!['"'] + q + seq!['"']
            &&& !st.quoted
        }),
{
    assert(a.push(sep).drop_last() =~= a);
    let open = a + seq!['"'];
    assert(open.drop_last() =~= a);
    assert(open.last() == '"');
    lemma_splitting_quoted(open, sep, q);
    let whole = open + q + seq!['"'];
    assert(whole.drop_last() =~= open + q);
    assert(whole.last() == '"');
    let st = splitting(a, sep);
    assert(st.piece.push('"') =~= st.piece + seq!['"']);
    assert((st.piece + seq!['"'] + q).push('"') =~= st.piece + seq!['"'] + q + seq!['"']);
}

proof fn lemma_splitting_quoted(a: Text, sep: char, s: Text)
    requires
        !s.contains('"'),
        splitting(a, sep).quoted,
    ensures
        splitting(a + s, sep) == (Splitting {
            done: splitting(a, sep).done,
            piece: splitting(a, sep).piece + s,
            quoted: true,
        }),
    decreases s.len(),
{
    let st = splitting(a, sep);
    if s.len() == 0 {
        assert(a + s =~= a);
        assert(st.piece + s =~= st.piece);
    } else {
        let t = s.drop_last();
        assert(s[s.len() - 1] == s.last());
        assert(s.contains(s.last()));
        assert forall|c: char| t.contains(c) implies s.contains(c) by {
            let i = choose|i: int| 0 <= i < t.len() && t[i] == c;
            assert(s[i] == c);
        }
        lemma_splitting_quoted(a, sep, t);
        assert((a + s).drop_last() =~= a + t);
        assert((a + s).last() == s.last());
        assert((st.piece + t).push(s.last()) =~= st.piece + s);
    }
}

/// Quotes around a value are taken off, of either kind, where they are there
/// at both ends.
pub proof fn law_quotes_come_off(s: Text)
    ensures
        unquoted(seq!['"'] + s + seq!['"']) == s,
        unquoted(seq!['\''] + s + seq!['\'']) == s,
        s.len() > 0 && s[0] != '"' && s[0] != '\'' ==> unquoted(s) == s,
{
    let a = seq!['"'] + s + seq!['"'];
    assert(a.subrange(1, a.len() - 1) =~= s);
    let b = seq!['\''] + s + seq!['\''];
    assert(b.subrange(1, b.len() - 1) =~= s);
}

/// The actions of a jail are the lines of `action`, and `banaction` and
/// `banaction_allports` after them.
pub proof fn law_actions_of_a_jail(
    name: Text,
    s: Seq<(Text, Text)>,
    d: Seq<(Text, Text)>,
    files: Seq<SourceView>,
)
    requires
        jail_of(name, s, d, files) is Ok,
    ensures
        ({
            let j = jail_of(name, s, d, files)->Ok_0;
            let get = |k: Text|
                match table::lookup(s, k) {
                    Some(v) => Some(v),
                    None => table::lookup(d, k),
                };
            let lines = match get("action"@) {
                Some(v) => split::tidied(split::lines_of(v)),
                None => Seq::empty(),
            };
            let one = match get("banaction"@) {
                Some(v) => seq![v],
                None => Seq::empty(),
            };
            let two = match get("banaction_allports"@) {
                Some(v) => seq![v],
                None => Seq::empty(),
            };
            &&& j.actions == lines + one + two
            &&& get("filter"@) matches Some(f) ==> j.filter == spec_name(f)
            &&& get("filter"@) matches Some(f) ==> spec_params(f, "filter"@, "']'"@) == Ok::<
                Seq<(Text, Text)>,
                ErrorView,
            >(j.filter_params)
            &&& get("journalmatch"@) matches Some(v) ==> j.journalmatch == split::tidied(
                split::pieces(v, '+'),
            )
        }),
{
    reveal(jail_of);
    let j = jail_of(name, s, d, files)->Ok_0;
    let lines = match setting(s, d, "action"@) {
        Some(v) => split::tidied(split::lines_of(v)),
        None => Seq::empty(),
    };
    let one = match setting(s, d, "banaction"@) {
        Some(v) => seq![v],
        None => Seq::<Text>::empty(),
    };
    let two = match setting(s, d, "banaction_allports"@) {
        Some(v) => seq![v],
        None => Seq::<Text>::empty(),
    };
    assert(j.actions =~= lines + one + two);
}

/// The entries of a jail that it does not read itself are kept: those of its
/// section, and the inherited ones whose keys it lacks.
pub proof fn law_other_entries_are_kept(
    name: Text,
    s: Seq<(Text, Text)>,
    d: Seq<(Text, Text)>,
    files: Seq<SourceView>,
    k: Text,
)
    requires
        jail_of(name, s, d, files) is Ok,
    ensures
        ({
            let extra = (jail_of(name, s, d, files)->Ok_0).extra;
            table::lookup(extra, k) is Some <==> !is_jail_key(k) && (table::lookup(s, k) is Some
                || table::lookup(d, k) is Some)
        }),
{
    reveal(jail_of);
    let none = Seq::<(Text, Text)>::empty();
    lemma_others_keys(none, s, false, k);
    lemma_others_keys(put_others(none, s, false), d, true, k);
    table::lemma_slot(none, k);
}

/// The keys that say something of every jail.
pub open spec fn jail_keys() -> Seq<Text> {
    seq![
        "enabled"@,
        "filter"@,
        "logpath"@,
        "backend"@,
        "logencoding"@,
        "logtimezone"@,
        "journalmatch"@,
        "maxretry"@,
        "findtime"@,
        "bantime"@,
        "bantime_increment"@,
        "bantime_factor"@,
        "bantime_maxtime"@,
        "bantime_rndtime"@,
        "bantime.factor"@,
        "bantime.maxtime"@,
        "bantime.rndtime"@,
        "usedns"@,
        "ignoreself"@,
        "ignoreip"@,
        "ignorecommand"@,
        "ignorecache"@,
        "action"@,
        "banaction"@,
        "banaction_allports"@,
        "actionstart_on_demand"@,
        "maxlines"@,
        "maxmatches"@,
        "skip_if_nologs"@,
        "systemd_if_nologs"@,
        "port"@,
    ]
}

/// A key is one of a jail exactly when it is on the list; any other is kept
/// for the actions.
pub proof fn law_jail_keys(k: Text)
    ensures
        is_jail_key(k) <==> jail_keys().contains(k),
{
    let l = jail_keys();
    if is_jail_key(k) {
        assert(l[0] == "enabled"@);
        assert(l[1] == "filter"@);
        assert(l[2] == "logpath"@);
        assert(l[3] == "backend"@);
        assert(l[4] == "logencoding"@);
        assert(l[5] == "logtimezone"@);
        assert(l[6] == "journalmatch"@);
        assert(l[7] == "maxretry"@);
        assert(l[8] == "findtime"@);
        assert(l[9] == "bantime"@);
        assert(l[10] == "bantime_increment"@);
        assert(l[11] == "bantime_factor"@);
        assert(l[12] == "bantime_maxtime"@);
        assert(l[13] == "bantime_rndtime"@);
        assert(l[14] == "bantime.factor"@);
        assert(l[15] == "bantime.maxtime"@);
        assert(l[16] == "bantime.rndtime"@);
        assert(l[17] == "usedns"@);
        assert(l[18] == "ignoreself"@);
        assert(l[19] == "ignoreip"@);
        assert(l[20] == "ignorecommand"@);
        assert(l[21] == "ignorecache"@);
        assert(l[22] == "action"@);
        assert(l[23] == "banaction"@);
        assert(l[24] == "banaction_allports"@);
        assert(l[25] == "actionstart_on_demand"@);
        assert(l[26] == "maxlines"@);
        assert(l[27] == "maxmatches"@);
        assert(l[28] == "skip_if_nologs"@);
        assert(l[29] == "systemd_if_nologs"@);
        assert(l[30] == "port"@);
    }
    if l.contains(k) {
        let i = choose|i: int| 0 <= i < l.len() && l[i] == k;
        assert(0 <= i < 31);
    }
}

} // verus!
