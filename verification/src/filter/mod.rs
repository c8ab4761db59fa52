//! Filters: recognizing failures in log lines.
//!
//! A line is matched in steps: its date is read and taken out; a line that
//! matches an ignore pattern is passed over; the pre-filter pattern, where
//! there is one, has to match and may pick out the content; and the first
//! failure pattern that matches the content makes the result.

pub mod datepattern;
pub mod pattern;
pub mod tags;
pub mod tally;

use crate::config::filter::{FilterConfig, FilterView};
use crate::error;
use crate::error::{Error, ErrorView};
use crate::filter::datepattern::{DateDetector, DateKind, DateMatcher};
use crate::filter::pattern::Pattern;
use crate::ip;
use crate::ip::IpAddr;
use crate::text;
use crate::text::find;
use crate::text::trim;
use crate::text::Text;
use crate::time::Timestamp;
use vstd::prelude::*;

verus! {

/// The newest lines of a log, so that a pattern can match several of them.
#[derive(Debug)]
pub struct LineBuffer {
    /// How many lines are kept at most.
    pub maxlines: u32,
    /// The lines, oldest first.
    pub lines: Vec<String>,
}

impl View for LineBuffer {
    type V = Seq<Text>;

    open spec fn view(&self) -> Seq<Text> {
        text::texts(self.lines@)
    }
}

/// The last `n` elements.
pub open spec fn newest<A>(s: Seq<A>, n: nat) -> Seq<A> {
    if s.len() > n {
        s.skip(s.len() - n)
    } else {
        s
    }
}

impl LineBuffer {
    /// A buffer for at least one line.
    pub fn new(maxlines: u32) -> (r: LineBuffer)
        ensures
            r@ == Seq::<Text>::empty(),
            r.maxlines == (if maxlines < 1 {
                1
            } else {
                maxlines
            }),
    {
        let r = LineBuffer {
            maxlines: if maxlines < 1 {
                1
            } else {
                maxlines
            },
            lines: Vec::new(),
        };
        assert(r@ =~= Seq::<Text>::empty());
        r
    }

    /// Adds a line; the oldest lines make room for it.
    pub fn push(&mut self, line: String)
        ensures
            final(self)@ == newest(old(self)@.push(line@), old(self).maxlines as nat),
            final(self).maxlines == old(self).maxlines,
    {
        let ghost all = self@.push(line@);
        let ghost before = self.lines@;
        proof {
            text::lemma_texts_push(before, line);
        }
        self.lines.push(line);
        let cap: usize = self.maxlines as usize;
        assert(all.skip(0) =~= all);
        while self.lines.len() > cap
            invariant
                cap == self.maxlines,
                self.maxlines == old(self).maxlines,
                text::texts(self.lines@) == all.skip(all.len() - self.lines@.len()),
                self.lines@.len() <= all.len(),
                self.lines@.len() < all.len() ==> self.lines@.len() >= cap,
            decreases self.lines.len(),
        {
            let ghost was = self.lines@;
            self.lines.remove(0);
            proof {
                let left = all.skip(all.len() - self.lines@.len());
                assert forall|j: int| 0 <= j < left.len() implies text::texts(self.lines@)[j]
                    == left[j] by {
                    assert(text::texts(was)[j + 1] == all.skip(all.len() - was.len())[j + 1]);
                }
                assert(text::texts(self.lines@) =~= left);
            }
        }
        assert(self@ =~= newest(all, cap as nat));
    }

    /// The lines joined by line breaks.
    pub fn joined(&self) -> (r: String)
        ensures
            r@ == text::joined(self@, "\n"@),
    {
        text::join(&self.lines, "\n")
    }

    /// Drops all lines.
    pub fn clear(&mut self)
        ensures
            final(self)@ == Seq::<Text>::empty(),
            final(self).maxlines == old(self).maxlines,
    {
        self.lines.clear();
        assert(self@ =~= Seq::<Text>::empty());
    }

    /// The number of lines.
    pub fn len(&self) -> (n: usize)
        ensures
            n == self@.len(),
    {
        self.lines.len()
    }

    /// Whether there are no lines.
    pub fn is_empty(&self) -> (r: bool)
        ensures
            r == (self@.len() == 0),
    {
        self.lines.len() == 0
    }
}

/// However many lines come in, a buffer never holds more than its limit, and
/// it always holds the newest.
pub proof fn law_buffer_keeps_newest(before: Seq<Text>, line: Text, n: nat)
    requires
        n >= 1,
    ensures
        newest(before.push(line), n).len() <= n,
        newest(before.push(line), n).last() == line,
        before.len() < n ==> newest(before.push(line), n) == before.push(line),
        before.len() >= n ==> newest(before.push(line), n) == newest(
            before,
            (n - 1) as nat,
        ).push(line),
{
    if before.len() >= n {
        assert(newest(before.push(line), n) =~= newest(before, (n - 1) as nat).push(line));
    }
}

/// What a line that matched tells.
#[derive(Debug)]
pub struct MatchResult {
    /// The failure ID: an IP address, a host name or something else.
    pub host: String,
    /// The IP address that the failure ID stands for.
    pub ip: Option<IpAddr>,
    /// The user.
    pub user: Option<String>,
    /// The other user.
    pub alt_user: Option<String>,
    /// The ID of a failure over several lines.
    pub mlfid: Option<String>,
    /// The date of the line.
    pub timestamp: Option<Timestamp>,
    /// Whether the match is no failure.
    pub nofail: bool,
    /// Whether failures with this ID are to be forgotten.
    pub mlfforget: bool,
    /// Whether the line tells of a success.
    pub mlfgained: bool,
    /// The line.
    pub line: String,
    /// Which failure pattern matched.
    pub regex_index: usize,
}

/// The model of what a line that matched tells.
#[verifier::ext_equal]
pub struct MatchView {
    pub host: Text,
    pub ip: Option<IpAddr>,
    pub user: Option<Text>,
    pub alt_user: Option<Text>,
    pub mlfid: Option<Text>,
    pub timestamp: Option<Timestamp>,
    pub nofail: bool,
    pub mlfforget: bool,
    pub mlfgained: bool,
    pub line: Text,
    pub regex_index: nat,
}

impl View for MatchResult {
    type V = MatchView;

    open spec fn view(&self) -> MatchView {
        MatchView {
            host: self.host@,
            ip: self.ip,
            user: text::opt_text(self.user),
            alt_user: text::opt_text(self.alt_user),
            mlfid: text::opt_text(self.mlfid),
            timestamp: self.timestamp,
            nofail: self.nofail,
            mlfforget: self.mlfforget,
            mlfgained: self.mlfgained,
            line: self.line@,
            regex_index: self.regex_index as nat,
        }
    }
}

/// A filter with its patterns compiled.
#[derive(Debug)]
pub struct CompiledFilter {
    /// The configuration.
    pub config: FilterConfig,
    /// The pattern that a line has to match first.
    pub prefregex: Option<Pattern>,
    /// The patterns of failures.
    pub failregex: Vec<Pattern>,
    /// The patterns of lines to pass over.
    pub ignoreregex: Vec<Pattern>,
    /// The pattern of dates.
    pub datepattern: Option<DateMatcher>,
    /// How many lines are matched together.
    pub maxlines: u32,
    /// What detects dates that the pattern does not find.
    pub detector: DateDetector,
}

/// The model of a compiled filter: the regular expressions of its patterns.
#[verifier::ext_equal]
pub struct RulesView {
    pub prefregex: Option<Text>,
    pub failregex: Seq<Text>,
    pub ignoreregex: Seq<Text>,
    pub datepattern: Option<(Text, DateKind)>,
}

/// The regular expressions of patterns.
pub open spec fn sources(v: Seq<Pattern>) -> Seq<Text> {
    v.map_values(|p: Pattern| p.source())
}

impl View for CompiledFilter {
    type V = RulesView;

    open spec fn view(&self) -> RulesView {
        RulesView {
            prefregex: match self.prefregex {
                Some(p) => Some(p.source()),
                None => None,
            },
            failregex: sources(self.failregex@),
            ignoreregex: sources(self.ignoreregex@),
            datepattern: match self.datepattern {
                Some(m) => Some(m@),
                None => None,
            },
        }
    }
}

/// The regular expression of a pattern with tags.
pub open spec fn pattern_of(s: Text) -> Result<Text, ErrorView> {
    match tags::expanded(s) {
        Err(e) => Err(e),
        Ok(t) => match pattern::regex_fault(t.pattern) {
            None => Ok(t.pattern),
            Some(m) => Err(
                ErrorView::Regex("compiling "@ + text::debug_text(s) + ": "@ + m),
            ),
        },
    }
}

/// The regular expressions of the patterns from position `i` on, added to
/// `acc`. Empty patterns are passed over.
pub open spec fn patterns_from(s: Seq<Text>, i: int, acc: Seq<Text>) -> Result<
    Seq<Text>,
    ErrorView,
>
    decreases s.len() - i,
{
    if i >= s.len() {
        Ok(acc)
    } else if s[i].len() == 0 {
        patterns_from(s, i + 1, acc)
    } else {
        match pattern_of(s[i]) {
            Ok(p) => patterns_from(s, i + 1, acc.push(p)),
            Err(e) => Err(e),
        }
    }
}

/// A pattern that may be left out or empty.
pub open spec fn optional_pattern(s: Option<Text>) -> Result<Option<Text>, ErrorView> {
    match s {
        Some(t) => if t.len() == 0 {
            Ok(None)
        } else {
            match pattern_of(t) {
                Ok(p) => Ok(Some(p)),
                Err(e) => Err(e),
            }
        },
        None => Ok(None),
    }
}

/// A date pattern that may be left out or empty.
pub open spec fn optional_date(s: Option<Text>) -> Result<Option<(Text, DateKind)>, ErrorView> {
    match s {
        Some(t) => if t.len() == 0 {
            Ok(None)
        } else {
            match datepattern::matcher_of(t) {
                Ok(m) => Ok(Some(m)),
                Err(e) => Err(e),
            }
        },
        None => Ok(None),
    }
}

/// A filter's rules; the first pattern that does not compile makes the error.
pub open spec fn rules_of(c: FilterView) -> Result<RulesView, ErrorView> {
    let pre = optional_pattern(c.prefregex);
    let fail = patterns_from(c.failregex, 0, Seq::empty());
    let ignore = patterns_from(c.ignoreregex, 0, Seq::empty());
    let date = optional_date(c.datepattern);
    if pre is Err {
        Err(pre->Err_0)
    } else if fail is Err {
        Err(fail->Err_0)
    } else if ignore is Err {
        Err(ignore->Err_0)
    } else if date is Err {
        Err(date->Err_0)
    } else {
        match datepattern::first_fault(datepattern::known_patterns(), 0) {
            Some(m) => Err(ErrorView::Regex("compiled datepattern regex: "@ + m)),
            None => Ok(
                RulesView {
                    prefregex: pre->Ok_0,
                    failregex: fail->Ok_0,
                    ignoreregex: ignore->Ok_0,
                    datepattern: date->Ok_0,
                },
            ),
        }
    }
}

/// The line without its date, and the date's moment. The filter's own pattern
/// is tried before dates are detected.
pub open spec fn dated(rules: RulesView, line: Text, year: i32) -> Option<(Text, Timestamp)> {
    let own = match rules.datepattern {
        Some(m) => datepattern::found_date(m, line, year),
        None => None,
    };
    match own {
        Some(d) => Some((without(line, d.0), d.1)),
        None => match datepattern::detected(datepattern::known_patterns(), 0, line, year) {
            Some(d) => Some((without(line, d.0), d.1)),
            None => None,
        },
    }
}

/// The line without a piece of text, and without the white space that is then
/// at its start.
pub open spec fn without(line: Text, raw: Text) -> Text {
    trim::start_trimmed(find::replaced(line, raw, Seq::empty()))
}

/// Whether one of the patterns matches.
pub open spec fn any_matches(patterns: Seq<Text>, s: Text) -> bool {
    exists|i: int|
        0 <= i < patterns.len() && pattern::regex_groups(#[trigger] patterns[i], s) is Some
}

/// The first of the patterns from position `i` on that matches, and what it
/// captured.
pub open spec fn first_match(patterns: Seq<Text>, i: int, s: Text) -> Option<
    (nat, Seq<(Option<Text>, Option<Text>)>),
>
    decreases patterns.len() - i,
{
    if i < 0 || i >= patterns.len() {
        None
    } else {
        match pattern::regex_groups(patterns[i], s) {
            Some(g) => Some((i as nat, g)),
            None => first_match(patterns, i + 1, s),
        }
    }
}

/// The IP address that a failure ID stands for. The prefix of an IPv4 address
/// written as IPv6 is left out.
pub open spec fn address_of(s: Text) -> Option<IpAddr> {
    let t = trim::trimmed(s);
    if t.len() == 0 {
        None
    } else {
        match find::after_prefix(t, "::ffff:"@) {
            Some(rest) => ip::ip_of(rest),
            None => match find::after_prefix(t, "::f{4,6}:"@) {
                Some(rest) => ip::ip_of(rest),
                None => ip::ip_of(t),
            },
        }
    }
}

/// What a failure pattern captured, as a result.
pub open spec fn result_of(
    g: Seq<(Option<Text>, Option<Text>)>,
    timestamp: Option<Timestamp>,
    mlfid: Option<Text>,
    line: Text,
    index: nat,
) -> MatchView {
    let host = match pattern::named(g, "host"@) {
        Some(h) => h,
        None => Seq::empty(),
    };
    MatchView {
        host,
        ip: address_of(host),
        user: pattern::named(g, "user"@),
        alt_user: pattern::named(g, "alt_user"@),
        mlfid: match pattern::named(g, "mlfid"@) {
            Some(m) => Some(m),
            None => mlfid,
        },
        timestamp,
        nofail: pattern::named(g, "nofail"@) is Some,
        mlfforget: pattern::named(g, "mlfforget"@) is Some,
        mlfgained: pattern::named(g, "mlfgained"@) is Some,
        line,
        regex_index: index,
    }
}

/// What the pre-filter pattern picks out: the content, which is the whole text
/// where it captures none, and the ID of a failure over several lines.
pub open spec fn picked(g: Seq<(Option<Text>, Option<Text>)>, rest: Text) -> (Text, Option<Text>) {
    (
        match pattern::named(g, "content"@) {
            Some(c) => c,
            None => rest,
        },
        pattern::named(g, "mlfid"@),
    )
}

/// What a line without its date tells.
pub open spec fn match_of(
    rules: RulesView,
    rest: Text,
    timestamp: Option<Timestamp>,
    line: Text,
) -> Option<MatchView> {
    let pre = match rules.prefregex {
        None => Some((rest, None)),
        Some(p) => match pattern::regex_groups(p, rest) {
            None => None,
            Some(g) => Some(picked(g, rest)),
        },
    };
    if any_matches(rules.ignoreregex, rest) {
        None
    } else {
        match pre {
            None => None,
            Some((content, mlfid)) => match first_match(rules.failregex, 0, content) {
                None => None,
                Some((i, g)) => Some(result_of(g, timestamp, mlfid, line, i)),
            },
        }
    }
}

/// What a line tells.
pub open spec fn line_match(rules: RulesView, line: Text, year: i32) -> Option<MatchView> {
    match dated(rules, line, year) {
        Some((rest, ts)) => match_of(rules, rest, Some(ts), line),
        None => match_of(rules, line, None, line),
    }
}

/// Compiles a pattern with tags.
pub fn compile_pattern(input: &str) -> (r: Result<Pattern, Error>)
    ensures
        match r {
            Ok(p) => pattern_of(input@) == Ok::<Text, ErrorView>(p.source()),
            Err(e) => pattern_of(input@) == Err::<Text, ErrorView>(e@),
        },
{
    let compiled = match tags::compile_tags(input) {
        Ok(c) => c,
        Err(e) => {
            return Err(e);
        },
    };
    match Pattern::compile(compiled.pattern.as_str()) {
        Ok(p) => Ok(p),
        Err(m) => {
            let q = text::quoted(input);
            Err(Error::Regex(text::cat4("compiling ", q.as_str(), ": ", m.as_str())))
        },
    }
}

fn compile_all(patterns: &Vec<String>) -> (r: Result<Vec<Pattern>, Error>)
    ensures
        match r {
            Ok(v) => patterns_from(text::texts(patterns@), 0, Seq::empty()) == Ok::<
                Seq<Text>,
                ErrorView,
            >(sources(v@)),
            Err(e) => patterns_from(text::texts(patterns@), 0, Seq::empty()) == Err::<
                Seq<Text>,
                ErrorView,
            >(e@),
        },
{
    let ghost all = text::texts(patterns@);
    let mut out: Vec<Pattern> = Vec::new();
    let mut i: usize = 0;
    assert(sources(out@) =~= Seq::empty());
    while i < patterns.len()
        invariant
            i <= patterns.len(),
            all == text::texts(patterns@),
            patterns_from(all, 0, Seq::empty()) == patterns_from(all, i as int, sources(out@)),
        decreases patterns.len() - i,
    {
        let s = patterns[i].as_str();
        assert(all[i as int] == s@);
        i += 1;
        if s.is_empty() {
            continue;
        }
        match compile_pattern(s) {
            Ok(p) => {
                let ghost before = out@;
                out.push(p);
                assert(sources(out@) =~= sources(before).push(p.source()));
            },
            Err(e) => {
                return Err(e);
            },
        }
    }
    Ok(out)
}

/// The IP address that a failure ID stands for.
pub fn parse_ip(s: &str) -> (r: Option<IpAddr>)
    ensures
        r == address_of(s@),
{
    let t = trim::trim(s);
    if t.is_empty() {
        return None;
    }
    match find::strip_prefix(t, "::ffff:") {
        Some(rest) => IpAddr::parse(rest),
        None => match find::strip_prefix(t, "::f{4,6}:") {
            Some(rest) => IpAddr::parse(rest),
            None => IpAddr::parse(t),
        },
    }
}

fn owned(s: Option<&str>) -> (r: Option<String>)
    ensures
        text::opt_text(r) == text::opt_str(s),
{
    match s {
        Some(t) => Some(t.to_owned()),
        None => None,
    }
}

/// Turns what a failure pattern captured into a result.
pub fn build_result(
    g: &Vec<(Option<String>, Option<String>)>,
    timestamp: Option<Timestamp>,
    mlfid: Option<String>,
    line: &str,
    index: usize,
) -> (r: MatchResult)
    ensures
        r@ == result_of(
            pattern::groups_view(g@),
            timestamp,
            text::opt_text(mlfid),
            line@,
            index as nat,
        ),
{
    let host = match pattern::group_named(g, "host") {
        Some(h) => h.to_owned(),
        None => {
            let empty = String::new();
            assert(empty@ =~= Seq::<char>::empty());
            empty
        },
    };
    let ip = parse_ip(host.as_str());
    let own = match pattern::group_named(g, "mlfid") {
        Some(m) => Some(m.to_owned()),
        None => mlfid,
    };
    MatchResult {
        host,
        ip,
        user: owned(pattern::group_named(g, "user")),
        alt_user: owned(pattern::group_named(g, "alt_user")),
        mlfid: own,
        timestamp,
        nofail: pattern::group_named(g, "nofail").is_some(),
        mlfforget: pattern::group_named(g, "mlfforget").is_some(),
        mlfgained: pattern::group_named(g, "mlfgained").is_some(),
        line: line.to_owned(),
        regex_index: index,
    }
}

fn cut_out(line: &str, raw: &str) -> (r: String)
    ensures
        r@ == without(line@, raw@),
{
    proof {
        reveal_strlit("");
        assert(""@ =~= Seq::<char>::empty());
    }
    let rest = find::replace(line, raw, "");
    trim::trim_start(rest.as_str()).to_owned()
}

impl CompiledFilter {
    /// Whether dates are detected by the known patterns.
    pub open spec fn wf(&self) -> bool {
        self.detector.wf()
    }

    /// Compiles a filter.
    pub fn compile(cfg: FilterConfig) -> (r: Result<CompiledFilter, Error>)
        ensures
            error::outcome(r) == rules_of(cfg@),
            r matches Ok(f) ==> f.wf() && f.config == cfg && f.maxlines == (if cfg.maxlines < 1 {
                1
            } else {
                cfg.maxlines
            }),
    {
        let mut prefregex: Option<Pattern> = None;
        if let Some(s) = &cfg.prefregex {
            if !s.as_str().is_empty() {
                match compile_pattern(s.as_str()) {
                    Ok(p) => {
                        prefregex = Some(p);
                    },
                    Err(e) => {
                        return Err(e);
                    },
                }
            }
        }
        let failregex = match compile_all(&cfg.failregex) {
            Ok(v) => v,
            Err(e) => {
                return Err(e);
            },
        };
        let ignoreregex = match compile_all(&cfg.ignoreregex) {
            Ok(v) => v,
            Err(e) => {
                return Err(e);
            },
        };
        let mut date: Option<DateMatcher> = None;
        if let Some(s) = &cfg.datepattern {
            if !s.as_str().is_empty() {
                match datepattern::compile(s.as_str()) {
                    Ok(m) => {
                        date = Some(m);
                    },
                    Err(e) => {
                        return Err(e);
                    },
                }
            }
        }
        let detector = match DateDetector::new() {
            Ok(d) => d,
            Err(e) => {
                return Err(e);
            },
        };
        let maxlines: u32 = if cfg.maxlines < 1 {
            1
        } else {
            cfg.maxlines
        };
        Ok(
            CompiledFilter {
                config: cfg,
                prefregex,
                failregex,
                ignoreregex,
                datepattern: date,
                maxlines,
                detector,
            },
        )
    }

    fn extract_date(&self, line: &str, year: i32) -> (r: Option<(String, Timestamp)>)
        requires
            self.wf(),
        ensures
            match r {
                Some(d) => dated(self@, line@, year) == Some((d.0@, d.1)),
                None => dated(self@, line@, year) is None,
            },
    {
        if let Some(m) = &self.datepattern {
            if let Some((raw, ts)) = m.find(line, year) {
                return Some((cut_out(line, raw.as_str()), ts));
            }
        }
        match datepattern::auto_detect(line, &self.detector, year) {
            Some((raw, ts, _)) => Some((cut_out(line, raw.as_str()), ts)),
            None => None,
        }
    }

    fn is_ignored(&self, rest: &str) -> (r: bool)
        ensures
            r == any_matches(self@.ignoreregex, rest@),
    {
        let ghost all = self@.ignoreregex;
        let mut i: usize = 0;
        while i < self.ignoreregex.len()
            invariant
                i <= self.ignoreregex.len(),
                all == sources(self.ignoreregex@),
                forall|k: int|
                    0 <= k < i ==> pattern::regex_groups(#[trigger] all[k], rest@) is None,
            decreases self.ignoreregex.len() - i,
        {
            assert(all[i as int] == self.ignoreregex@[i as int].source());
            if self.ignoreregex[i].is_match(rest) {
                return true;
            }
            i += 1;
        }
        false
    }

    fn first_failure(&self, content: &str) -> (r: Option<
        (usize, Vec<(Option<String>, Option<String>)>),
    >)
        ensures
            match r {
                Some(p) => first_match(self@.failregex, 0, content@) == Some(
                    (p.0 as nat, pattern::groups_view(p.1@)),
                ),
                None => first_match(self@.failregex, 0, content@) is None,
            },
    {
        let ghost all = self@.failregex;
        let mut i: usize = 0;
        while i < self.failregex.len()
            invariant
                i <= self.failregex.len(),
                all == sources(self.failregex@),
                first_match(all, 0, content@) == first_match(all, i as int, content@),
            decreases self.failregex.len() - i,
        {
            assert(all[i as int] == self.failregex@[i as int].source());
            if let Some(g) = self.failregex[i].find_groups(content) {
                return Some((i, g));
            }
            i += 1;
        }
        None
    }

    fn match_rest(&self, rest: &str, timestamp: Option<Timestamp>, line: &str) -> (r: Option<
        MatchResult,
    >)
        ensures
            match r {
                Some(m) => match_of(self@, rest@, timestamp, line@) == Some(m@),
                None => match_of(self@, rest@, timestamp, line@) is None,
            },
    {
        if self.is_ignored(rest) {
            return None;
        }
        let mut content: String = rest.to_owned();
        let mut mlfid: Option<String> = None;
        if let Some(p) = &self.prefregex {
            match p.find_groups(rest) {
                None => {
                    return None;
                },
                Some(g) => {
                    if let Some(c) = pattern::group_named(&g, "content") {
                        content = c.to_owned();
                    }
                    mlfid = owned(pattern::group_named(&g, "mlfid"));
                },
            }
        }
        match self.first_failure(content.as_str()) {
            None => None,
            Some((i, g)) => Some(build_result(&g, timestamp, mlfid, line, i)),
        }
    }

    /// Matches a line; `year` is the current year, for dates that hold none.
    pub fn process_line(&self, line: &str, year: i32) -> (r: Result<Option<MatchResult>, Error>)
        requires
            self.wf(),
        ensures
            r matches Ok(o) && (match o {
                Some(m) => line_match(self@, line@, year) == Some(m@),
                None => line_match(self@, line@, year) is None,
            }),
    {
        match self.extract_date(line, year) {
            Some((rest, ts)) => Ok(self.match_rest(rest.as_str(), Some(ts), line)),
            None => Ok(self.match_rest(line, None, line)),
        }
    }

    /// Matches a line together with those before it. A match empties the
    /// buffer.
    pub fn process_buffered(&self, buf: &mut LineBuffer, line: &str, year: i32) -> (r: Result<
        Option<MatchResult>,
        Error,
    >)
        requires
            self.wf(),
        ensures
            ({
                let lines = newest(old(buf)@.push(line@), old(buf).maxlines as nat);
                let joined = text::joined(lines, "\n"@);
                r matches Ok(o) && (match o {
                    Some(m) => line_match(self@, joined, year) == Some(m@) && final(buf)@
                        == Seq::<Text>::empty(),
                    None => line_match(self@, joined, year) is None && final(buf)@ == lines,
                })
            }),
            final(buf).maxlines == old(buf).maxlines,
    {
        buf.push(line.to_owned());
        let joined = buf.joined();
        match self.process_line(joined.as_str(), year) {
            Ok(Some(m)) => {
                buf.clear();
                Ok(Some(m))
            },
            Ok(None) => Ok(None),
            Err(e) => Err(e),
        }
    }
}

/// A line that matches an ignore pattern tells nothing.
pub proof fn law_ignored_line_tells_nothing(rules: RulesView, line: Text, year: i32)
    requires
        dated(rules, line, year) matches Some(d) ==> any_matches(rules.ignoreregex, d.0),
        dated(rules, line, year) is None ==> any_matches(rules.ignoreregex, line),
    ensures
        line_match(rules, line, year) is None,
{
}

/// A line that the pre-filter pattern does not match tells nothing.
pub proof fn law_prefilter_has_to_match(rules: RulesView, line: Text, year: i32)
    requires
        rules.prefregex is Some,
        dated(rules, line, year) matches Some(d) ==> pattern::regex_groups(
            rules.prefregex->0,
            d.0,
        ) is None,
        dated(rules, line, year) is None ==> pattern::regex_groups(rules.prefregex->0, line) is None,
    ensures
        line_match(rules, line, year) is None,
{
}

/// A date that the filter's own date pattern finds is taken out of the line:
/// the other patterns are tried on what stands around it.
pub proof fn law_own_date_is_taken_out(
    rules: RulesView,
    m: (Text, DateKind),
    a: Text,
    raw: Text,
    b: Text,
    ts: Timestamp,
    year: i32,
    g: Seq<(Option<Text>, Option<Text>)>,
)
    requires
        rules.datepattern == Some(m),
        pattern::regex_groups(m.0, a + raw + b) == Some(g),
        g.len() > 1,
        g[1].1 == Some(raw),
        datepattern::date_of(raw, m.1, year) == Some(ts),
        raw.len() > 0,
        forall|i: int| 0 <= i < a.len() ==> !#[trigger] find::starts((a + raw + b).skip(i), raw),
        find::occurs_nowhere(b, raw),
    ensures
        line_match(rules, a + raw + b, year) == match_of(
            rules,
            trim::start_trimmed(a + b),
            Some(ts),
            a + raw + b,
        ),
{
    datepattern::law_first_group_is_the_date(m.0, m.1, a + raw + b, year, g);
    assert(m == (m.0, m.1));
    find::law_first_occurrence(a, raw, b, Seq::empty());
    find::law_no_occurrence(b, raw, Seq::empty());
    assert(a + Seq::<char>::empty() + b =~= a + b);
}

/// In a line that begins with a date of the filter's own date pattern, the
/// other patterns are tried on what follows the blank after the date.
pub proof fn law_own_date_in_front(
    rules: RulesView,
    m: (Text, DateKind),
    raw: Text,
    rest: Text,
    ts: Timestamp,
    year: i32,
    g: Seq<(Option<Text>, Option<Text>)>,
)
    requires
        rules.datepattern == Some(m),
        pattern::regex_groups(m.0, raw + " "@ + rest) == Some(g),
        g.len() > 1,
        g[1].1 == Some(raw),
        datepattern::date_of(raw, m.1, year) == Some(ts),
        raw.len() > 0,
        find::occurs_nowhere(" "@ + rest, raw),
    ensures
        line_match(rules, raw + " "@ + rest, year) == match_of(
            rules,
            trim::start_trimmed(rest),
            Some(ts),
            raw + " "@ + rest,
        ),
{
    let a = Seq::<char>::empty();
    let b = " "@ + rest;
    assert(a + raw + b =~= raw + " "@ + rest);
    law_own_date_is_taken_out(rules, m, a, raw, b, ts, year, g);
    reveal_strlit(" ");
    assert(a + b =~= b);
    assert(b[0] == ' ');
    assert(b.drop_first() =~= rest);
}

/// A detected date is taken out in the same way, where the filter's own date
/// pattern finds none.
pub proof fn law_detected_date_is_taken_out(
    rules: RulesView,
    kind: DateKind,
    a: Text,
    raw: Text,
    b: Text,
    ts: Timestamp,
    year: i32,
)
    requires
        rules.datepattern matches Some(m) ==> datepattern::found_date(
            m,
            a + raw + b,
            year,
        ) is None,
        datepattern::detected(datepattern::known_patterns(), 0, a + raw + b, year) == Some(
            (raw, ts, kind),
        ),
        raw.len() > 0,
        forall|i: int| 0 <= i < a.len() ==> !#[trigger] find::starts((a + raw + b).skip(i), raw),
        find::occurs_nowhere(b, raw),
    ensures
        line_match(rules, a + raw + b, year) == match_of(
            rules,
            trim::start_trimmed(a + b),
            Some(ts),
            a + raw + b,
        ),
{
    find::law_first_occurrence(a, raw, b, Seq::empty());
    find::law_no_occurrence(b, raw, Seq::empty());
    assert(a + Seq::<char>::empty() + b =~= a + b);
}

/// A line without a date is matched as it is, and without a moment.
pub proof fn law_line_without_date(rules: RulesView, line: Text, year: i32)
    requires
        rules.datepattern matches Some(m) ==> datepattern::found_date(m, line, year) is None,
        datepattern::detected(datepattern::known_patterns(), 0, line, year) is None,
    ensures
        line_match(rules, line, year) == match_of(rules, line, None, line),
{
}

/// The first failure pattern that matches a line makes the result, and its
/// groups tell what the result holds.
pub proof fn law_first_failure_pattern_decides(
    rules: RulesView,
    rest: Text,
    ts: Option<Timestamp>,
    line: Text,
    i: int,
    g: Seq<(Option<Text>, Option<Text>)>,
)
    requires
        rules.prefregex is None,
        forall|k: int|
            0 <= k < rules.ignoreregex.len() ==> pattern::regex_groups(
                #[trigger] rules.ignoreregex[k],
                rest,
            ) is None,
        0 <= i < rules.failregex.len(),
        pattern::regex_groups(rules.failregex[i], rest) == Some(g),
        forall|k: int|
            0 <= k < i ==> pattern::regex_groups(#[trigger] rules.failregex[k], rest) is None,
    ensures
        ({
            let r = match_of(rules, rest, ts, line);
            &&& r matches Some(m)
            &&& m.regex_index == i
            &&& m.line == line
            &&& m.timestamp == ts
            &&& forall|h: Text| #[trigger]
                pattern::captured_as(g, "host"@, Some(h)) ==> m.host == h && m.ip == address_of(h)
            &&& pattern::captured_as(g, "host"@, None) ==> m.host == Seq::<char>::empty()
                && m.ip is None
            &&& forall|v: Option<Text>| #[trigger]
                pattern::captured_as(g, "user"@, v) ==> m.user == v
            &&& forall|v: Option<Text>| #[trigger]
                pattern::captured_as(g, "alt_user"@, v) ==> m.alt_user == v
            &&& forall|v: Option<Text>| #[trigger]
                pattern::captured_as(g, "mlfid"@, v) ==> m.mlfid == v
            &&& forall|v: Option<Text>| #[trigger]
                pattern::captured_as(g, "nofail"@, v) ==> m.nofail == (v is Some)
            &&& forall|v: Option<Text>| #[trigger]
                pattern::captured_as(g, "mlfforget"@, v) ==> m.mlfforget == (v is Some)
            &&& forall|v: Option<Text>| #[trigger]
                pattern::captured_as(g, "mlfgained"@, v) ==> m.mlfgained == (v is Some)
        }),
{
    lemma_first_match(rules.failregex, 0, rest, i, g);
    assert forall|name: Text, v: Option<Text>| #[trigger]
        pattern::captured_as(g, name, v) implies pattern::named(g, name) == v by {
        pattern::law_group_is_found_by_name(g, name, v);
    }
    assert(!any_matches(rules.ignoreregex, rest));
    trim::law_trimmed(Seq::empty(), Seq::empty(), Seq::empty());
    assert(Seq::<char>::empty() + Seq::<char>::empty() + Seq::<char>::empty() =~= Seq::<
        char,
    >::empty());
}

proof fn lemma_first_match(
    patterns: Seq<Text>,
    from: int,
    s: Text,
    i: int,
    g: Seq<(Option<Text>, Option<Text>)>,
)
    requires
        0 <= from <= i < patterns.len(),
        pattern::regex_groups(patterns[i], s) == Some(g),
        forall|k: int| from <= k < i ==> pattern::regex_groups(#[trigger] patterns[k], s) is None,
    ensures
        first_match(patterns, from, s) == Some((i as nat, g)),
    decreases i - from,
{
    if from < i {
        lemma_first_match(patterns, from + 1, s, i, g);
    }
}

/// A line that no failure pattern matches tells nothing.
pub proof fn law_no_failure_pattern(
    rules: RulesView,
    rest: Text,
    ts: Option<Timestamp>,
    line: Text,
)
    requires
        rules.prefregex is None,
        forall|k: int|
            0 <= k < rules.failregex.len() ==> pattern::regex_groups(
                #[trigger] rules.failregex[k],
                rest,
            ) is None,
    ensures
        match_of(rules, rest, ts, line) is None,
{
    lemma_no_match(rules.failregex, 0, rest);
}

proof fn lemma_no_match(patterns: Seq<Text>, from: int, s: Text)
    requires
        0 <= from,
        forall|k: int|
            from <= k < patterns.len() ==> pattern::regex_groups(
                #[trigger] patterns[k],
                s,
            ) is None,
    ensures
        first_match(patterns, from, s) is None,
    decreases patterns.len() - from,
{
    if from < patterns.len() {
        lemma_no_match(patterns, from + 1, s);
    }
}

/// The pre-filter pattern picks the content that the failure patterns are
/// tried on, and the session it names stands where they name none.
pub proof fn law_prefilter_picks_content(
    rules: RulesView,
    rest: Text,
    ts: Option<Timestamp>,
    line: Text,
    g: Seq<(Option<Text>, Option<Text>)>,
    content: Option<Text>,
    id: Option<Text>,
)
    requires
        rules.prefregex is Some,
        pattern::regex_groups(rules.prefregex->0, rest) == Some(g),
        pattern::captured_as(g, "content"@, content),
        pattern::captured_as(g, "mlfid"@, id),
        forall|k: int|
            0 <= k < rules.ignoreregex.len() ==> pattern::regex_groups(
                #[trigger] rules.ignoreregex[k],
                rest,
            ) is None,
    ensures
        ({
            let tried = match content {
                Some(c) => c,
                None => rest,
            };
            let bare = RulesView { prefregex: None, ignoreregex: Seq::empty(), ..rules };
            match match_of(bare, tried, ts, line) {
                None => match_of(rules, rest, ts, line) is None,
                Some(m) => match_of(rules, rest, ts, line) == Some(
                    MatchView {
                        mlfid: match m.mlfid {
                            Some(x) => Some(x),
                            None => id,
                        },
                        ..m
                    },
                ),
            }
        }),
{
    pattern::law_group_is_found_by_name(g, "content"@, content);
    pattern::law_group_is_found_by_name(g, "mlfid"@, id);
    assert(!any_matches(rules.ignoreregex, rest));
    assert(!any_matches(Seq::empty(), rest));
    let tried = match content {
        Some(c) => c,
        None => rest,
    };
    assert(!any_matches(Seq::empty(), tried));
}

/// An address is read without the white space around it, and one that is
/// mapped into IPv6 is read as what is mapped.
pub proof fn law_mapped_address(s: Text)
    requires
        s.len() > 0,
        !trim::is_space(s[0]),
        !trim::is_space(s.last()),
    ensures
        address_of("::ffff:"@ + s) == ip::ip_of(s),
        address_of("::f{4,6}:"@ + s) == ip::ip_of(s),
        address_of(" "@ + s + " "@) == address_of(s),
        !find::starts(s, "::f"@) ==> address_of(s) == ip::ip_of(s),
        address_of(Seq::empty()) is None,
{
    reveal_strlit("::ffff:");
    reveal_strlit("::f{4,6}:");
    reveal_strlit("::f");
    reveal_strlit(" ");
    let e = Seq::<char>::empty();
    let p = "::ffff:"@ + s;
    trim::law_white_space(':');
    assert(p[0] == ':');
    assert(p.last() == s.last());
    trim::law_trimmed(e, p, e);
    assert(e + p + e =~= p);
    find::law_prefix_and_suffix("::ffff:"@, s);
    let q = "::f{4,6}:"@ + s;
    assert(q[0] == ':' && q.last() == s.last());
    trim::law_trimmed(e, q, e);
    assert(e + q + e =~= q);
    find::law_prefix_and_suffix("::f{4,6}:"@, s);
    assert(!find::starts(q, "::ffff:"@)) by {
        if find::starts(q, "::ffff:"@) {
            assert(q.take(7)[3] == 'f');
            assert(q[3] == '{');
        }
    }
    trim::law_trimmed(e, s, e);
    assert(e + s + e =~= s);
    trim::law_trimmed(" "@, s, " "@);
    trim::law_trimmed(e, e, e);
    assert(e + e + e =~= e);
    if !find::starts(s, "::f"@) {
        if find::starts(s, "::ffff:"@) {
            assert(s.take(3) =~= s.take(7).take(3));
            assert("::ffff:"@.take(3) =~= "::f"@);
        }
        if find::starts(s, "::f{4,6}:"@) {
            assert(s.take(3) =~= s.take(9).take(3));
            assert("::f{4,6}:"@.take(3) =~= "::f"@);
        }
    }
}

/// Whether a pattern with tags compiles to a regular expression.
pub open spec fn compiles_to(s: Text, out: Text) -> bool {
    &&& s.len() > 0
    &&& tags::expanded(s) matches Ok(t)
    &&& t.pattern == out
    &&& pattern::regex_fault(out) is None
}

/// The rules of a filter are its patterns, compiled, in their order.
pub proof fn law_patterns_keep_their_order(
    c: FilterView,
    fail: Seq<Text>,
    ignore: Seq<Text>,
    pre: Text,
    rules: RulesView,
)
    requires
        fail.len() == c.failregex.len(),
        forall|i: int| 0 <= i < fail.len() ==> compiles_to(c.failregex[i], #[trigger] fail[i]),
        ignore.len() == c.ignoreregex.len(),
        forall|i: int|
            0 <= i < ignore.len() ==> compiles_to(c.ignoreregex[i], #[trigger] ignore[i]),
        c.prefregex matches Some(p) ==> compiles_to(p, pre),
        rules_of(c) == Ok::<RulesView, ErrorView>(rules),
    ensures
        rules.failregex == fail,
        rules.ignoreregex == ignore,
        c.prefregex is Some ==> rules.prefregex == Some(pre),
        c.prefregex is None ==> rules.prefregex is None,
        c.datepattern is None ==> rules.datepattern is None,
        c.datepattern matches Some(d) ==> d.len() > 0 ==> (rules.datepattern matches Some(m)
            && datepattern::matcher_of(d) == Ok::<(Text, DateKind), ErrorView>(m)),
{
    assert(fail.take(0) =~= Seq::empty());
    assert(ignore.take(0) =~= Seq::empty());
    lemma_patterns_from(c.failregex, 0, Seq::empty(), fail);
    lemma_patterns_from(c.ignoreregex, 0, Seq::empty(), ignore);
}

proof fn lemma_patterns_from(s: Seq<Text>, i: int, acc: Seq<Text>, out: Seq<Text>)
    requires
        0 <= i <= s.len(),
        out.len() == s.len(),
        acc == out.take(i),
        forall|k: int| 0 <= k < out.len() ==> compiles_to(s[k], #[trigger] out[k]),
    ensures
        patterns_from(s, i, acc) == Ok::<Seq<Text>, ErrorView>(out),
    decreases s.len() - i,
{
    if i < s.len() {
        assert(compiles_to(s[i], out[i]));
        assert(acc.push(out[i]) =~= out.take(i + 1));
        lemma_patterns_from(s, i + 1, acc.push(out[i]), out);
    } else {
        assert(out.take(i) =~= out);
    }
}

/// A pattern with tags that cannot be expanded, or that is no regular
/// expression then, is an error; an empty pattern does not count.
pub proof fn law_wrong_patterns(s: Text, p: Text, m: Text, e: ErrorView, rest: Seq<Text>)
    requires
        s.len() > 0,
    ensures
        tags::expanded(s) matches Ok(t) ==> (pattern::regex_fault(t.pattern) == Some(m)
            ==> patterns_from(seq![s] + rest, 0, Seq::empty()) == Err::<Seq<Text>, ErrorView>(
            ErrorView::Regex("compiling "@ + text::debug_text(s) + ": "@ + m),
        )),
        tags::expanded(s) matches Err(x) ==> patterns_from(seq![s] + rest, 0, Seq::empty()) == Err::<
            Seq<Text>,
            ErrorView,
        >(x),
        patterns_from(seq![Seq::<char>::empty()], 0, Seq::empty()) == Ok::<Seq<Text>, ErrorView>(
            Seq::empty(),
        ),
        optional_pattern(Some(Seq::empty())) == Ok::<Option<Text>, ErrorView>(None),
        optional_date(Some(Seq::empty())) == Ok::<Option<(Text, DateKind)>, ErrorView>(None),
{
    assert((seq![s] + rest)[0] == s);
    reveal_with_fuel(patterns_from, 2);
}

} // verus!
