//! The systemd journal, read through `journalctl`.

use crate::text;
use crate::text::split;
use crate::text::Text;
use vstd::prelude::*;

verus! {

/// Reading the journal.
#[derive(Debug)]
pub struct JournalBackend {
    /// What to match, one of which has to hold. Each is one `FIELD=value`, or
    /// several with white space in between, all of which have to hold.
    pub matches: Vec<String>,
}

/// Matches of which one has to hold: the fields of each, with `+` between two
/// matches.
pub open spec fn either(matches: Seq<Text>) -> Seq<Text>
    decreases matches.len(),
{
    if matches.len() == 0 {
        Seq::empty()
    } else {
        let fields = split::items(matches.last(), false);
        if matches.len() == 1 {
            fields
        } else {
            either(matches.drop_last()).push("+"@) + fields
        }
    }
}

/// The arguments of `journalctl`.
pub open spec fn journal_args(matches: Seq<Text>) -> Seq<Text> {
    seq!["-f"@, "-o"@, "cat"@, "--no-pager"@] + either(matches)
}

impl JournalBackend {
    /// Reading what matches one of `matches`, or everything where there are
    /// none.
    pub fn new(matches: Vec<String>) -> (r: JournalBackend)
        ensures
            r == (JournalBackend { matches }),
    {
        JournalBackend { matches }
    }

    /// The name of this way of reading logs.
    pub fn name(&self) -> (r: &'static str)
        ensures
            r@ == "journal"@,
    {
        "journal"
    }

    /// The arguments of `journalctl`.
    pub fn arguments(&self) -> (r: Vec<String>)
        ensures
            text::texts(r@) == journal_args(text::texts(self.matches@)),
    {
        let mut args: Vec<String> = Vec::new();
        args.push("-f".to_owned());
        args.push("-o".to_owned());
        args.push("cat".to_owned());
        args.push("--no-pager".to_owned());
        let ghost base = text::texts(args@);
        let ghost all = text::texts(self.matches@);
        let mut i: usize = 0;
        proof {
            assert(base =~= seq!["-f"@, "-o"@, "cat"@, "--no-pager"@]);
            assert(base + either(all.take(0)) =~= base);
        }
        while i < self.matches.len()
            invariant
                i <= self.matches.len(),
                all == text::texts(self.matches@),
                text::texts(args@) == base + either(all.take(i as int)),
            decreases self.matches.len() - i,
        {
            let ghost before = args@;
            proof {
                assert(all.take(i + 1).drop_last() =~= all.take(i as int));
                assert(all.take(i + 1).last() == self.matches@[i as int]@);
                assert(all.take(0) =~= Seq::empty());
            }
            if i > 0 {
                let plus = "+".to_owned();
                args.push(plus);
                proof {
                    text::lemma_texts_push(before, plus);
                }
            }
            let ghost listed = args@;
            let mut fields = split::split_items(self.matches[i].as_str(), false);
            let ghost own = fields@;
            args.append(&mut fields);
            proof {
                assert(text::texts(args@) =~= text::texts(listed) + text::texts(own));
                let now = all.take(i + 1);
                assert(either(all.take(0)) =~= Seq::empty());
                if i == 0 {
                    assert(either(now) =~= text::texts(own));
                } else {
                    assert(either(now) == either(all.take(i as int)).push("+"@) + text::texts(own));
                }
                assert(text::texts(args@) =~= base + either(now));
            }
            i += 1;
        }
        assert(all.take(i as int) =~= all);
        args
    }
}

/// The journal is followed, and lines that match one of the parts are taken:
/// the fields of a part have to match together, and `+` stands between parts.
pub proof fn law_journal_arguments(matches: Seq<Text>, m: Text)
    ensures
        journal_args(Seq::empty()) == seq!["-f"@, "-o"@, "cat"@, "--no-pager"@],
        journal_args(seq![m]) == seq!["-f"@, "-o"@, "cat"@, "--no-pager"@] + split::items(m, false),
        matches.len() > 0 ==> journal_args(matches.push(m)) == journal_args(matches) + seq!["+"@]
            + split::items(m, false),
{
    reveal_with_fuel(either, 2);
    let head = seq!["-f"@, "-o"@, "cat"@, "--no-pager"@];
    assert(journal_args(Seq::empty()) =~= head);
    assert(seq![m].last() == m);
    if matches.len() > 0 {
        let f = split::items(m, false);
        assert(matches.push(m).drop_last() =~= matches);
        assert(matches.push(m).last() == m);
        assert(either(matches.push(m)) == either(matches).push("+"@) + f);
        assert(head + (either(matches).push("+"@) + f) =~= head + either(matches) + seq!["+"@] + f);
    }
}

} // verus!
