//! Where log lines come from.
//!
//! - [`file::FileBackend`]: files, watched through notifications.
//! - [`poll::PollBackend`]: files, looked at again and again.
//! - [`journal::JournalBackend`]: the systemd journal.

use crate::text;
use crate::text::Text;
use vstd::prelude::*;

pub mod file;
pub mod journal;
pub mod poll;

verus! {

/// A line of a log.
#[derive(Debug)]
pub struct LogLine {
    /// The line without its end.
    pub text: String,
    /// The file that it stands in, or `journal`.
    pub source: String,
}

/// A text without line feeds and carriage returns at its end.
pub open spec fn without_line_end(s: Text) -> Text
    decreases s.len(),
{
    if s.len() > 0 && (s.last() == '\n' || s.last() == '\r') {
        without_line_end(s.drop_last())
    } else {
        s
    }
}

/// The line that was read, without its end. An empty line is passed over.
pub fn log_line(raw: &str, source: &str) -> (r: Option<LogLine>)
    ensures
        match r {
            Some(l) => l.text@ == without_line_end(raw@) && l.text@.len() > 0 && l.source@
                == source@,
            None => without_line_end(raw@).len() == 0,
        },
{
    let v = text::chars_of(raw);
    let mut j: usize = v.len();
    assert(v@.take(v.len() as int) =~= v@);
    while j > 0 && (v[j - 1] == '\n' || v[j - 1] == '\r')
        invariant
            j <= v.len(),
            v@ == raw@,
            without_line_end(raw@) == without_line_end(v@.take(j as int)),
        decreases j,
    {
        assert(v@.take(j as int).drop_last() =~= v@.take(j - 1));
        j -= 1;
    }
    if j == 0 {
        return None;
    }
    Some(LogLine { text: text::string_of(&v, 0, j), source: source.to_owned() })
}

/// A line that was read has no line end left, and is the start of what was
/// read.
pub proof fn law_line_has_no_end(raw: Text)
    ensures
        ({
            let t = without_line_end(raw);
            &&& t.len() <= raw.len()
            &&& t == raw.take(t.len() as int)
            &&& t.len() > 0 ==> t.last() != '\n' && t.last() != '\r'
        }),
    decreases raw.len(),
{
    if raw.len() > 0 && (raw.last() == '\n' || raw.last() == '\r') {
        law_line_has_no_end(raw.drop_last());
        let t = without_line_end(raw);
        assert(raw.drop_last().take(t.len() as int) =~= raw.take(t.len() as int));
    } else {
        assert(raw.take(raw.len() as int) =~= raw);
    }
}

/// Line ends come off the end of a line, and nothing else does.
pub proof fn law_line_end_comes_off(s: Text, c: char)
    ensures
        without_line_end(s.push('\n')) == without_line_end(s),
        without_line_end(s.push('\r')) == without_line_end(s),
        c != '\n' && c != '\r' ==> without_line_end(s.push(c)) == s.push(c),
{
    assert(s.push('\n').drop_last() =~= s);
    assert(s.push('\r').drop_last() =~= s);
}

} // verus!
