//! Trying a filter on a log: how many lines match, and for which hosts.

use crate::text;
use crate::text::number;
use crate::text::sort;
use crate::text::Text;
use vstd::prelude::*;

verus! {

/// What trying a filter has come to so far.
#[derive(Debug)]
pub struct Tally {
    /// How many lines there were.
    pub total: u64,
    /// How many of them matched.
    pub matched: u64,
    /// The hosts, each once, in the order in which they came.
    pub hosts: Vec<String>,
}

/// The model of what trying a filter has come to.
#[verifier::ext_equal]
pub struct TallyView {
    pub total: u64,
    pub matched: u64,
    pub hosts: Seq<Text>,
}

impl View for Tally {
    type V = TallyView;

    open spec fn view(&self) -> TallyView {
        TallyView { total: self.total, matched: self.matched, hosts: text::texts(self.hosts@) }
    }
}

/// One more, where there is room.
pub open spec fn more(n: u64) -> u64 {
    if n == u64::MAX {
        n
    } else {
        (n + 1) as u64
    }
}

/// A line taken in, with the host for which it matched. An empty line does not
/// count.
pub open spec fn counted(t: TallyView, line: Text, host: Option<Text>) -> TallyView {
    if line.len() == 0 {
        t
    } else {
        match host {
            None => TallyView { total: more(t.total), ..t },
            Some(h) => TallyView {
                total: more(t.total),
                matched: more(t.matched),
                hosts: if t.hosts.contains(h) {
                    t.hosts
                } else {
                    t.hosts.push(h)
                },
            },
        }
    }
}

/// What is told of a line.
pub open spec fn line_text(line: Text, host: Option<Text>) -> Text {
    match host {
        Some(h) => "[OK] host="@ + h + " line="@ + line,
        None => "[--] "@ + line,
    }
}

/// What is told in the end.
pub open spec fn report_of(t: TallyView) -> Seq<Text> {
    seq![
        Seq::<char>::empty(),
        "Lines: total="@ + number::decimal(t.total as nat) + ", matched="@ + number::decimal(
            t.matched as nat,
        ),
        "Unique hosts: "@ + number::decimal(t.hosts.len()),
    ] + sort::sorted(t.hosts).map_values(|h: Text| "  "@ + h)
}

impl Tally {
    /// Before the first line.
    pub fn new() -> (r: Tally)
        ensures
            r@ == (TallyView { total: 0, matched: 0, hosts: Seq::<Text>::empty() }),
    {
        let r = Tally { total: 0, matched: 0, hosts: Vec::new() };
        assert(text::texts(r.hosts@) =~= Seq::<Text>::empty());
        r
    }

    fn has_host(&self, host: &str) -> (r: bool)
        ensures
            r == self@.hosts.contains(host@),
    {
        let mut i: usize = 0;
        while i < self.hosts.len()
            invariant
                i <= self.hosts.len(),
                forall|k: int| 0 <= k < i ==> (#[trigger] self@.hosts[k]) != host@,
            decreases self.hosts.len() - i,
        {
            if text::same(self.hosts[i].as_str(), host) {
                assert(self@.hosts[i as int] == host@);
                return true;
            }
            i += 1;
        }
        false
    }

    /// Takes in a line, with the host for which it matched.
    pub fn note(&mut self, line: &str, host: Option<&str>)
        ensures
            final(self)@ == counted(old(self)@, line@, text::opt_str(host)),
    {
        if line.is_empty() {
            return;
        }
        self.total = self.total.saturating_add(1);
        if let Some(h) = host {
            self.matched = self.matched.saturating_add(1);
            if !self.has_host(h) {
                let ghost before = self.hosts@;
                let s = h.to_owned();
                self.hosts.push(s);
                proof {
                    text::lemma_texts_push(before, s);
                }
            }
        }
    }

    /// What is told of a line.
    pub fn show_line(line: &str, host: Option<&str>) -> (r: String)
        ensures
            r@ == line_text(line@, text::opt_str(host)),
    {
        match host {
            Some(h) => text::cat4("[OK] host=", h, " line=", line),
            None => text::cat2("[--] ", line),
        }
    }

    /// What is told in the end.
    pub fn report(&self) -> (r: Vec<String>)
        ensures
            text::texts(r@) == report_of(self@),
    {
        let total = number::to_decimal(self.total);
        let matched = number::to_decimal(self.matched);
        let count = number::to_decimal(self.hosts.len() as u64);
        let hosts = sort::sort(&self.hosts);
        let mut out: Vec<String> = Vec::new();
        let first = String::new();
        assert(first@ =~= Seq::<char>::empty());
        out.push(first);
        out.push(text::cat4("Lines: total=", total.as_str(), ", matched=", matched.as_str()));
        out.push(text::cat2("Unique hosts: ", count.as_str()));
        let ghost head = out@;
        let mut i: usize = 0;
        while i < hosts.len()
            invariant
                i <= hosts.len(),
                head.len() == 3,
                out@.len() == 3 + i,
                forall|k: int| 0 <= k < 3 ==> out@[k] == head[k],
                forall|k: int| 0 <= k < i ==> (#[trigger] out@[3 + k])@ == "  "@ + hosts@[k]@,
            decreases hosts.len() - i,
        {
            out.push(text::cat2("  ", hosts[i].as_str()));
            i += 1;
        }
        proof {
            let r = report_of(self@);
            let names = sort::sorted(self@.hosts).map_values(|h: Text| "  "@ + h);
            assert(text::texts(hosts@).len() == hosts@.len());
            assert(text::texts(out@).len() == r.len());
            assert forall|k: int| 0 <= k < r.len() implies text::texts(out@)[k] == r[k] by {
                if k < 3 {
                    assert(out@[k] == head[k]);
                } else {
                    assert(out@[3 + (k - 3)]@ == "  "@ + hosts@[k - 3]@);
                    assert(text::texts(hosts@)[k - 3] == hosts@[k - 3]@);
                    assert(r[k] == names[k - 3]);
                }
            }
            assert(text::texts(out@) =~= r);
        }
        out
    }
}

/// Every line that is not empty counts, every line with a host matches, and a
/// host is listed once, in the order in which the hosts came.
pub proof fn law_lines_are_tallied(t: TallyView, line: Text, host: Text)
    requires
        line.len() > 0,
        t.total < u64::MAX,
        t.matched < u64::MAX,
    ensures
        counted(t, line, None) == (TallyView { total: (t.total + 1) as u64, ..t }),
        counted(t, line, Some(host)).total == t.total + 1,
        counted(t, line, Some(host)).matched == t.matched + 1,
        t.hosts.contains(host) ==> counted(t, line, Some(host)).hosts == t.hosts,
        !t.hosts.contains(host) ==> counted(t, line, Some(host)).hosts == t.hosts.push(host),
        counted(t, Seq::empty(), Some(host)) == t,
{
}

/// What is told of lines, and in the end: the counts, and the hosts in order.
pub proof fn law_tally_is_told(t: TallyView, line: Text, h: Text, i: int)
    ensures
        line_text(line, Some(h)) == "[OK] host="@ + h + " line="@ + line,
        line_text(line, None) == "[--] "@ + line,
        ({
            let r = report_of(t);
            &&& r.len() == 3 + sort::sorted(t.hosts).len()
            &&& r[0] == Seq::<char>::empty()
            &&& r[1] == "Lines: total="@ + number::decimal(t.total as nat) + ", matched="@
                + number::decimal(t.matched as nat)
            &&& r[2] == "Unique hosts: "@ + number::decimal(t.hosts.len())
            &&& 0 <= i < sort::sorted(t.hosts).len() ==> r[3 + i] == "  "@ + sort::sorted(
                t.hosts,
            )[i]
        }),
{
}

} // verus!
