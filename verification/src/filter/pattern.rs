//! Regular expressions.

use crate::text;
use crate::text::Text;
use regex::Regex;
use vstd::prelude::*;

verus! {

/// `regex::Regex`, a compiled regular expression.
#[verifier::external_type_specification]
#[verifier::external_body]
pub struct ExRegex(Regex);

/// What is wrong with a regular expression, in words; `None` where it
/// compiles.
pub uninterp spec fn regex_fault(source: Text) -> Option<Text>;

/// The groups of the first match of a regular expression in a text: for each
/// group, the whole match first, its name and what it matched. `None` where
/// there is no match.
pub uninterp spec fn regex_groups(source: Text, s: Text) -> Option<
    Seq<(Option<Text>, Option<Text>)>,
>;

/// A compiled regular expression with its source. Values come from
/// `Pattern::compile` alone, so that the source is always what was compiled.
#[derive(Debug)]
pub struct Pattern {
    source: String,
    regex: Regex,
}

/// What a match captured: for each group its name and what it matched.
pub type Groups = Vec<(Option<String>, Option<String>)>;

/// The model of what a match captured.
pub open spec fn groups_view(g: Seq<(Option<String>, Option<String>)>) -> Seq<
    (Option<Text>, Option<Text>),
> {
    g.map_values(
        |p: (Option<String>, Option<String>)| (text::opt_text(p.0), text::opt_text(p.1)),
    )
}

/// What the first group with the name matched.
pub open spec fn named(g: Seq<(Option<Text>, Option<Text>)>, name: Text) -> Option<Text>
    decreases g.len(),
{
    if g.len() == 0 {
        None
    } else if g[0].0 == Some(name) {
        g[0].1
    } else {
        named(g.drop_first(), name)
    }
}

/// What the group at a position matched.
pub open spec fn numbered(g: Seq<(Option<Text>, Option<Text>)>, i: int) -> Option<Text> {
    if 0 <= i < g.len() {
        g[i].1
    } else {
        None
    }
}

impl Pattern {
    /// The source of the regular expression.
    pub closed spec fn source(&self) -> Text {
        self.source@
    }

    /// `regex::Regex::new`: either the expression compiles, or the words of
    /// the error are those named `regex_fault`.
    #[verifier::external_body]
    pub(crate) fn compile(source: &str) -> (r: Result<Pattern, String>)
        ensures
            match r {
                Ok(p) => p.source() == source@ && regex_fault(source@) is None,
                Err(m) => regex_fault(source@) == Some(m@),
            },
    {
        match Regex::new(source) {
            Ok(regex) => Ok(Pattern { source: source.to_string(), regex }),
            Err(e) => Err(e.to_string()),
        }
    }

    /// `regex::Regex::is_match`: whether there is a match in the text, which
    /// is when `regex::Regex::captures` finds groups.
    #[verifier::external_body]
    pub(crate) fn is_match(&self, s: &str) -> (r: bool)
        ensures
            r == (regex_groups(self.source(), s@) is Some),
    {
        self.regex.is_match(s)
    }

    /// `regex::Regex::captures`: the groups of the first match, named
    /// `regex_groups`, with the names that `regex::Regex::capture_names` gives.
    #[verifier::external_body]
    pub(crate) fn find_groups(&self, s: &str) -> (r: Option<Vec<(Option<String>, Option<String>)>>)
        ensures
            match r {
                Some(g) => regex_groups(self.source(), s@) == Some(groups_view(g@)),
                None => regex_groups(self.source(), s@) is None,
            },
    {
        let caps = self.regex.captures(s)?;
        Some(
            self.regex.capture_names().zip(caps.iter()).map(
                |(n, m)| (n.map(str::to_string), m.map(|m| m.as_str().to_string())),
            ).collect(),
        )
    }

    /// The groups of the first match in the text.
    pub fn captures(&self, s: &str) -> (r: Option<Vec<(Option<String>, Option<String>)>>)
        ensures
            match r {
                Some(g) => regex_groups(self.source(), s@) == Some(groups_view(g@)),
                None => regex_groups(self.source(), s@) is None,
            },
    {
        self.find_groups(s)
    }

    /// The source of the regular expression.
    pub fn as_str(&self) -> (r: &str)
        ensures
            r@ == self.source(),
    {
        self.source.as_str()
    }
}

/// What the first group with the name matched.
pub fn group_named<'a>(g: &'a Vec<(Option<String>, Option<String>)>, name: &str) -> (r: Option<
    &'a str,
>)
    ensures
        text::opt_str(r) == named(groups_view(g@), name@),
{
    let ghost all = groups_view(g@);
    let mut i: usize = 0;
    assert(all.skip(0) =~= all);
    while i < g.len()
        invariant
            i <= g.len(),
            all == groups_view(g@),
            named(all, name@) == named(all.skip(i as int), name@),
        decreases g.len() - i,
    {
        proof {
            text::lemma_skip_step(all, i as int);
        }
        let p = &g[i];
        if let Some(n) = &p.0 {
            if text::same(n.as_str(), name) {
                return match &p.1 {
                    Some(m) => Some(m.as_str()),
                    None => None,
                };
            }
        }
        i += 1;
    }
    None
}

/// What the group at a position matched.
pub fn group_at(g: &Vec<(Option<String>, Option<String>)>, i: usize) -> (r: Option<&str>)
    ensures
        text::opt_str(r) == numbered(groups_view(g@), i as int),
{
    if i < g.len() {
        match &g[i].1 {
            Some(m) => Some(m.as_str()),
            None => None,
        }
    } else {
        None
    }
}

/// Whether the group called `name` captured `v`: the first group of that name
/// counts, and where there is none, nothing was captured.
pub open spec fn captured_as(
    g: Seq<(Option<Text>, Option<Text>)>,
    name: Text,
    v: Option<Text>,
) -> bool {
    ||| exists|j: int|
        0 <= j < g.len() && #[trigger] g[j] == (Some(name), v) && forall|k: int|
            0 <= k < j ==> (#[trigger] g[k]).0 != Some(name)
    ||| v is None && forall|k: int| 0 <= k < g.len() ==> (#[trigger] g[k]).0 != Some(name)
}

/// A group is found by its name.
pub proof fn law_group_is_found_by_name(
    g: Seq<(Option<Text>, Option<Text>)>,
    name: Text,
    v: Option<Text>,
)
    requires
        captured_as(g, name, v),
    ensures
        named(g, name) == v,
    decreases g.len(),
{
    if g.len() > 0 && g[0].0 != Some(name) {
        let t = g.drop_first();
        if exists|j: int|
            0 <= j < g.len() && #[trigger] g[j] == (Some(name), v) && forall|k: int|
                0 <= k < j ==> (#[trigger] g[k]).0 != Some(name) {
            let j = choose|j: int|
                0 <= j < g.len() && #[trigger] g[j] == (Some(name), v) && forall|k: int|
                    0 <= k < j ==> (#[trigger] g[k]).0 != Some(name);
            assert(t[j - 1] == (Some(name), v));
            assert forall|k: int| 0 <= k < j - 1 implies (#[trigger] t[k]).0 != Some(name) by {
                assert(g[k + 1].0 != Some(name));
            }
        } else {
            assert forall|k: int| 0 <= k < t.len() implies (#[trigger] t[k]).0 != Some(name) by {
                assert(g[k + 1].0 != Some(name));
            }
        }
        law_group_is_found_by_name(t, name, v);
    } else if g.len() > 0 {
        assert(g[0].0 == Some(name));
    }
}

} // verus!
