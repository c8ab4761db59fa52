//! Tags in patterns: `<HOST>`, `<F-USER>...</F-USER>` and the like, which are
//! expanded into named groups of a regular expression.

use crate::error::{Error, ErrorView};
use crate::text;
use crate::text::find;
use crate::text::Text;
use vstd::prelude::*;

verus! {

/// A tag.
#[derive(Debug, Clone, Copy, PartialEq, Eq, Hash, Structural)]
pub enum FTag {
    /// `<HOST>`: an IP address or a host name.
    Host,
    /// `<ADDR>`: an address, more loosely.
    Addr,
    /// `<F-USER>...</F-USER>`: a user.
    FUser,
    /// `<F-ALT_USER>...</F-ALT_USER>`: another user.
    FAltUser,
    /// `<F-NOFAIL>...</F-NOFAIL>`: a match that is no failure.
    FNoFail,
    /// `<F-MLFID>...</F-MLFID>`: the ID of a failure over several lines.
    FMlfid,
    /// `<F-MLFFORGET>...</F-MLFFORGET>`: forget that ID.
    FMlfforget,
    /// `<F-MLFGAINED>...</F-MLFGAINED>`: a success.
    FMlfgained,
    /// `<F-CONTENT>...</F-CONTENT>`: what failure patterns are matched against.
    FContent,
}

/// A pattern with its tags expanded.
#[derive(Debug)]
pub struct CompiledTag {
    /// The expanded pattern.
    pub pattern: String,
    /// The tags in the pattern, in the order in which they appear.
    pub tags: Vec<FTag>,
}

/// What `<HOST>` expands to: an IPv4 address mapped to IPv6, an IPv6 address,
/// or else an IPv4 address or a host name. An IPv6 address without `::` has
/// eight groups and one with `::` has fewer, where an IPv4 address at its end
/// counts as two; no letter, digit or underscore follows it.
pub const HOST_REGEX: &'static str =
    r"(?P<host>::f{4,6}:[\w\-.^_]*\w|(?:(?:[0-9A-Fa-f]{1,4}:){6}|(?:[0-9A-Fa-f]{1,4}:){5}:|(?:[0-9A-Fa-f]{1,4}:){4}(?::[0-9A-Fa-f]{1,4})?:|(?:[0-9A-Fa-f]{1,4}:){3}(?::[0-9A-Fa-f]{1,4}){0,2}:|(?:[0-9A-Fa-f]{1,4}:){2}(?::[0-9A-Fa-f]{1,4}){0,3}:|[0-9A-Fa-f]{1,4}:(?::[0-9A-Fa-f]{1,4}){0,4}:|:(?::[0-9A-Fa-f]{1,4}){0,5}:)(?:25[0-5]|2[0-4][0-9]|1[0-9]{2}|[1-9]?[0-9])(?:\.(?:25[0-5]|2[0-4][0-9]|1[0-9]{2}|[1-9]?[0-9])){3}\b|(?:(?:[0-9A-Fa-f]{1,4}:){7}[0-9A-Fa-f]{1,4}|(?:[0-9A-Fa-f]{1,4}:){6}:[0-9A-Fa-f]{1,4}|(?:[0-9A-Fa-f]{1,4}:){5}(?::[0-9A-Fa-f]{1,4}){1,2}|(?:[0-9A-Fa-f]{1,4}:){4}(?::[0-9A-Fa-f]{1,4}){1,3}|(?:[0-9A-Fa-f]{1,4}:){3}(?::[0-9A-Fa-f]{1,4}){1,4}|(?:[0-9A-Fa-f]{1,4}:){2}(?::[0-9A-Fa-f]{1,4}){1,5}|[0-9A-Fa-f]{1,4}:(?::[0-9A-Fa-f]{1,4}){1,6}|:(?::[0-9A-Fa-f]{1,4}){1,7})\b|(?:(?:[0-9A-Fa-f]{1,4}:){1,7}|:):\B|[\w\-.^_]*\w)";

/// What `<ADDR>` expands to.
pub const ADDR_REGEX: &'static str = r"(?P<addr>[\w\-.^_]*)";

/// The name of a tag without the prefix `F-`.
pub open spec fn tag_name(t: FTag) -> Text {
    match t {
        FTag::Host => "HOST"@,
        FTag::Addr => "ADDR"@,
        FTag::FUser => "USER"@,
        FTag::FAltUser => "ALT_USER"@,
        FTag::FNoFail => "NOFAIL"@,
        FTag::FMlfid => "MLFID"@,
        FTag::FMlfforget => "MLFFORGET"@,
        FTag::FMlfgained => "MLFGAINED"@,
        FTag::FContent => "CONTENT"@,
    }
}

/// The tag that stands between `<` and `>`.
pub open spec fn tag_of(name: Text) -> Option<FTag> {
    if name == "F-ALT_USER"@ {
        Some(FTag::FAltUser)
    } else if name == "F-MLFFORGET"@ {
        Some(FTag::FMlfforget)
    } else if name == "F-MLFGAINED"@ {
        Some(FTag::FMlfgained)
    } else if name == "F-MLFID"@ {
        Some(FTag::FMlfid)
    } else if name == "F-CONTENT"@ {
        Some(FTag::FContent)
    } else if name == "F-NOFAIL"@ {
        Some(FTag::FNoFail)
    } else if name == "F-USER"@ {
        Some(FTag::FUser)
    } else if name == "HOST"@ {
        Some(FTag::Host)
    } else if name == "ADDR"@ {
        Some(FTag::Addr)
    } else {
        None
    }
}

/// Whether a tag stands alone, without a closing tag.
pub open spec fn stands_alone(t: FTag) -> bool {
    t == FTag::Host || t == FTag::Addr
}

/// What the group of a paired tag starts with.
pub open spec fn group_start(t: FTag) -> Text {
    match t {
        FTag::FUser => "(?P<user>"@,
        FTag::FAltUser => "(?P<alt_user>"@,
        FTag::FNoFail => "(?P<nofail>"@,
        FTag::FMlfid => "(?P<mlfid>"@,
        FTag::FMlfforget => "(?P<mlfforget>"@,
        FTag::FMlfgained => "(?P<mlfgained>"@,
        FTag::FContent => "(?P<content>"@,
        FTag::Host => "(?P<host>"@,
        FTag::Addr => "(?P<addr>"@,
    }
}

/// What a tag that stands alone expands to.
pub open spec fn lone_expansion(t: FTag) -> Text {
    if t == FTag::Host {
        HOST_REGEX@
    } else {
        ADDR_REGEX@
    }
}

/// The model of an expanded pattern.
pub struct TagsView {
    pub pattern: Text,
    pub tags: Seq<FTag>,
}

impl View for CompiledTag {
    type V = TagsView;

    open spec fn view(&self) -> TagsView {
        TagsView { pattern: self.pattern@, tags: self.tags@ }
    }
}

/// An expansion with a pattern and tags put in front of it.
pub open spec fn after(pattern: Text, tags: Seq<FTag>, r: Result<TagsView, ErrorView>) -> Result<
    TagsView,
    ErrorView,
> {
    match r {
        Ok(t) => Ok(TagsView { pattern: pattern + t.pattern, tags: tags + t.tags }),
        Err(e) => Err(e),
    }
}

/// The pattern with its tags expanded, those inside paired tags too. What is
/// between angle brackets but is no tag stays as it is.
pub open spec fn expanded(s: Text) -> Result<TagsView, ErrorView>
    decreases s.len(),
    via expanded_shrinks
{
    if s.len() == 0 {
        Ok(TagsView { pattern: Seq::empty(), tags: Seq::empty() })
    } else if s[0] != '<' {
        after(seq![s[0]], Seq::empty(), expanded(s.skip(1)))
    } else {
        let rest = s.skip(1);
        let end = find::find(rest, '>');
        if end >= rest.len() {
            Err(ErrorView::Regex("unterminated tag"@))
        } else {
            let name = rest.take(end);
            let body = s.skip(end + 2);
            match tag_of(name) {
                None => after(seq![s[0]], Seq::empty(), expanded(s.skip(1))),
                Some(t) => if stands_alone(t) {
                    after(lone_expansion(t), seq![t], expanded(body))
                } else {
                    let close = "</"@ + name + ">"@;
                    let pos = find::find_text(body, close);
                    if pos < 0 {
                        Err(ErrorView::Regex("missing closing </"@ + name + ">"@))
                    } else {
                        match expanded(body.take(pos)) {
                            Err(e) => Err(e),
                            Ok(inner) => after(
                                group_start(t) + inner.pattern + ")"@,
                                seq![t] + inner.tags,
                                expanded(body.skip(pos + close.len())),
                            ),
                        }
                    }
                },
            }
        }
    }
}

#[via_fn]
proof fn expanded_shrinks(s: Text) {
    if s.len() > 0 {
        let rest = s.skip(1);
        find::lemma_find(rest, '>');
        let body = s.skip(find::find(rest, '>') + 2);
        let close = "</"@ + rest.take(find::find(rest, '>')) + ">"@;
        lemma_find_text(body, close);
    }
}

pub proof fn lemma_find_text(s: Text, p: Text)
    ensures
        -1 <= find::find_text(s, p) <= s.len(),
        find::find_text(s, p) >= 0 ==> find::find_text(s, p) + p.len() <= s.len(),
    decreases s.len(),
{
    if !find::starts(s, p) && s.len() > 0 {
        lemma_find_text(s.drop_first(), p);
    }
}

proof fn lemma_after_after(
    a: Text,
    x: Seq<FTag>,
    b: Text,
    y: Seq<FTag>,
    r: Result<TagsView, ErrorView>,
)
    ensures
        after(a, x, after(b, y, r)) == after(a + b, x + y, r),
{
    if let Ok(t) = r {
        assert(a + (b + t.pattern) =~= a + b + t.pattern);
        assert(x + (y + t.tags) =~= x + y + t.tags);
    }
}

impl FTag {
    /// The name of the tag without the prefix `F-`.
    pub fn name(self) -> (r: &'static str)
        ensures
            r@ == tag_name(self),
    {
        match self {
            FTag::Host => "HOST",
            FTag::Addr => "ADDR",
            FTag::FUser => "USER",
            FTag::FAltUser => "ALT_USER",
            FTag::FNoFail => "NOFAIL",
            FTag::FMlfid => "MLFID",
            FTag::FMlfforget => "MLFFORGET",
            FTag::FMlfgained => "MLFGAINED",
            FTag::FContent => "CONTENT",
        }
    }
}

fn find_tag(name: &str) -> (r: Option<FTag>)
    ensures
        r == tag_of(name@),
{
    if text::same(name, "F-ALT_USER") {
        Some(FTag::FAltUser)
    } else if text::same(name, "F-MLFFORGET") {
        Some(FTag::FMlfforget)
    } else if text::same(name, "F-MLFGAINED") {
        Some(FTag::FMlfgained)
    } else if text::same(name, "F-MLFID") {
        Some(FTag::FMlfid)
    } else if text::same(name, "F-CONTENT") {
        Some(FTag::FContent)
    } else if text::same(name, "F-NOFAIL") {
        Some(FTag::FNoFail)
    } else if text::same(name, "F-USER") {
        Some(FTag::FUser)
    } else if text::same(name, "HOST") {
        Some(FTag::Host)
    } else if text::same(name, "ADDR") {
        Some(FTag::Addr)
    } else {
        None
    }
}

fn start_of_group(t: FTag) -> (r: &'static str)
    ensures
        r@ == group_start(t),
{
    match t {
        FTag::FUser => "(?P<user>",
        FTag::FAltUser => "(?P<alt_user>",
        FTag::FNoFail => "(?P<nofail>",
        FTag::FMlfid => "(?P<mlfid>",
        FTag::FMlfforget => "(?P<mlfforget>",
        FTag::FMlfgained => "(?P<mlfgained>",
        FTag::FContent => "(?P<content>",
        FTag::Host => "(?P<host>",
        FTag::Addr => "(?P<addr>",
    }
}

/// Expands the tags of a pattern.
pub fn compile_tags(input: &str) -> (r: Result<CompiledTag, Error>)
    ensures
        crate::error::outcome(r) == expanded(input@),
    decreases input@.len(),
{
    let v = text::chars_of(input);
    let mut out = String::new();
    let mut tags: Vec<FTag> = Vec::new();
    let mut i: usize = 0;
    let ghost whole = expanded(input@);
    proof {
        assert(v@.skip(0) =~= v@);
        assert(out@ =~= Seq::<char>::empty());
        if let Ok(t) = whole {
            assert(out@ + t.pattern =~= t.pattern);
            assert(tags@ + t.tags =~= t.tags);
        }
    }
    while i < v.len()
        invariant
            i <= v.len(),
            v@ == input@,
            whole == expanded(input@),
            whole == after(out@, tags@, expanded(v@.skip(i as int))),
        decreases v.len() - i,
    {
        let ghost s = v@.skip(i as int);
        let ghost front = out@;
        let ghost seen = tags@;
        let c = v[i];
        proof {
            assert(s[0] == c);
            assert(s.skip(1) =~= v@.skip(i + 1));
            lemma_after_after(front, seen, seq![c], Seq::empty(), expanded(v@.skip(i + 1)));
            assert(front + seq![c] =~= front.push(c));
            assert(seen + Seq::<FTag>::empty() =~= seen);
        }
        if c != '<' {
            out.push(c);
            i += 1;
            continue;
        }
        let end = find::find_from(&v, i + 1, '>');
        let ghost rest = s.skip(1);
        if end == v.len() {
            return Err(Error::regex("unterminated tag"));
        }
        let name = text::string_of(&v, i + 1, end);
        proof {
            assert(name@ =~= rest.take(end - i - 1));
            assert(s.skip(end - i + 1) =~= v@.skip(end + 1));
        }
        let t = match find_tag(name.as_str()) {
            None => {
                out.push(c);
                i += 1;
                continue;
            },
            Some(t) => t,
        };
        if t == FTag::Host || t == FTag::Addr {
            out.append(
                if t == FTag::Host {
                    HOST_REGEX
                } else {
                    ADDR_REGEX
                },
            );
            tags.push(t);
            proof {
                lemma_after_after(
                    front,
                    seen,
                    lone_expansion(t),
                    seq![t],
                    expanded(v@.skip(end + 1)),
                );
                assert(seen + seq![t] =~= tags@);
            }
            i = end + 1;
            continue;
        }
        let close = text::cat3("</", name.as_str(), ">");
        let body = text::string_of(&v, end + 1, v.len());
        assert(body@ =~= v@.skip(end + 1));
        let pos = match find::position_of(body.as_str(), close.as_str()) {
            None => {
                return Err(Error::Regex(text::cat3("missing closing </", name.as_str(), ">")));
            },
            Some(pos) => pos,
        };
        let inner = match compile_tags(body.as_str().substring_char(0, pos)) {
            Ok(inner) => inner,
            Err(e) => {
                return Err(e);
            },
        };
        let next = end + 1 + pos + close.as_str().unicode_len();
        let group = text::cat3(start_of_group(t), inner.pattern.as_str(), ")");
        let mut more = inner.tags;
        let ghost added = more@;
        out.append(group.as_str());
        tags.push(t);
        tags.append(&mut more);
        proof {
            assert(body@.skip(pos + close@.len()) =~= v@.skip(next as int));
            lemma_after_after(
                front,
                seen,
                group@,
                seq![t] + added,
                expanded(v@.skip(next as int)),
            );
            assert(seen + (seq![t] + added) =~= tags@);
        }
        i = next;
    }
    proof {
        assert(v@.skip(i as int) =~= Seq::<char>::empty());
        assert(out@ + Seq::<char>::empty() =~= out@);
        assert(tags@ + Seq::<FTag>::empty() =~= tags@);
    }
    Ok(CompiledTag { pattern: out, tags })
}

/// The tags in a pattern; none where it cannot be expanded.
pub fn referenced_tags(input: &str) -> (r: Vec<FTag>)
    ensures
        r@ == (match expanded(input@) {
            Ok(t) => t.tags,
            Err(_) => Seq::empty(),
        }),
{
    match compile_tags(input) {
        Ok(c) => c.tags,
        Err(_) => Vec::new(),
    }
}

/// A pattern without `<` stays as it is and has no tags.
pub proof fn law_plain_pattern_unchanged(s: Text)
    requires
        !s.contains('<'),
    ensures
        expanded(s) == Ok::<TagsView, ErrorView>(TagsView { pattern: s, tags: Seq::empty() }),
    decreases s.len(),
{
    if s.len() == 0 {
        assert(s =~= Seq::<char>::empty());
    } else {
        let t = s.skip(1);
        assert(s.contains(s[0]));
        assert forall|c: char| t.contains(c) implies s.contains(c) by {
            let i = choose|i: int| 0 <= i < t.len() && t[i] == c;
            assert(s[i + 1] == c);
        }
        law_plain_pattern_unchanged(t);
        assert(seq![s[0]] + t =~= s);
        assert(Seq::<FTag>::empty() + Seq::<FTag>::empty() =~= Seq::<FTag>::empty());
    }
}

/// The tags in pairs: their names, the names of their groups, and the tags.
pub open spec fn paired_tags() -> Seq<(Text, Text, FTag)> {
    seq![
        ("F-USER"@, "user"@, FTag::FUser),
        ("F-ALT_USER"@, "alt_user"@, FTag::FAltUser),
        ("F-NOFAIL"@, "nofail"@, FTag::FNoFail),
        ("F-MLFID"@, "mlfid"@, FTag::FMlfid),
        ("F-MLFFORGET"@, "mlfforget"@, FTag::FMlfforget),
        ("F-MLFGAINED"@, "mlfgained"@, FTag::FMlfgained),
        ("F-CONTENT"@, "content"@, FTag::FContent),
    ]
}

/// Text without `<` in front of a pattern stays in front of its expansion.
pub proof fn law_plain_text_stays_in_front(front: Text, s: Text)
    requires
        !front.contains('<'),
    ensures
        match expanded(s) {
            Ok(t) => expanded(front + s) == Ok::<TagsView, ErrorView>(
                TagsView { pattern: front + t.pattern, tags: t.tags },
            ),
            Err(e) => expanded(front + s) == Err::<TagsView, ErrorView>(e),
        },
    decreases front.len(),
{
    if front.len() == 0 {
        assert(front + s =~= s);
        if let Ok(t) = expanded(s) {
            assert(front + t.pattern =~= t.pattern);
        }
    } else {
        let t = front.skip(1);
        assert(front.contains(front[0]));
        assert forall|c: char| t.contains(c) implies front.contains(c) by {
            let i = choose|i: int| 0 <= i < t.len() && t[i] == c;
            assert(front[i + 1] == c);
        }
        law_plain_text_stays_in_front(t, s);
        assert((front + s).skip(1) =~= t + s);
        assert((front + s)[0] == front[0]);
        if let Ok(r) = expanded(s) {
            assert(seq![front[0]] + (t + r.pattern) =~= front + r.pattern);
            assert(Seq::<FTag>::empty() + r.tags =~= r.tags);
        }
    }
}

proof fn lemma_tag_opens(name: Text, rest: Text)
    requires
        !name.contains('>'),
    ensures
        ({
            let s = "<"@ + name + ">"@ + rest;
            let body = s.skip(1);
            &&& s[0] == '<'
            &&& find::find(body, '>') == name.len()
            &&& name.len() < body.len()
            &&& body.take(name.len() as int) == name
            &&& s.skip(name.len() as int + 2) == rest
        }),
{
    reveal_strlit("<");
    reveal_strlit(">");
    let s = "<"@ + name + ">"@ + rest;
    let body = s.skip(1);
    assert(body =~= name.push('>') + rest);
    let n = name.len() as int;
    assert forall|k: int| 0 <= k < n implies body[k] != '>' by {
        assert(name.contains(name[k]));
        assert(body[k] == name[k]);
    }
    find::lemma_find_at(body, '>', n);
    assert(body.take(n) =~= name);
    assert(s.skip(n + 2) =~= rest);
}

/// `<HOST>` expands to the pattern of a host, and `<ADDR>` to that of an
/// address.
pub proof fn law_host_tag(rest: Text)
    ensures
        match expanded(rest) {
            Ok(t) => {
                &&& expanded("<HOST>"@ + rest) == Ok::<TagsView, ErrorView>(
                    TagsView {
                        pattern: HOST_REGEX@ + t.pattern,
                        tags: seq![FTag::Host] + t.tags,
                    },
                )
                &&& expanded("<ADDR>"@ + rest) == Ok::<TagsView, ErrorView>(
                    TagsView {
                        pattern: ADDR_REGEX@ + t.pattern,
                        tags: seq![FTag::Addr] + t.tags,
                    },
                )
            },
            Err(e) => {
                &&& expanded("<HOST>"@ + rest) == Err::<TagsView, ErrorView>(e)
                &&& expanded("<ADDR>"@ + rest) == Err::<TagsView, ErrorView>(e)
            },
        },
{
    reveal_strlit("<");
    reveal_strlit(">");
    reveal_strlit("HOST");
    reveal_strlit("ADDR");
    reveal_strlit("<HOST>");
    reveal_strlit("<ADDR>");
    law_tag_names(0);
    lemma_tag_opens("HOST"@, rest);
    lemma_tag_opens("ADDR"@, rest);
    assert("<HOST>"@ + rest =~= "<"@ + "HOST"@ + ">"@ + rest);
    assert("<ADDR>"@ + rest =~= "<"@ + "ADDR"@ + ">"@ + rest);
}

/// Every tag is known by its name, and its name without `F-` is told.
pub proof fn law_tag_names(i: int)
    ensures
        paired_tags().len() == 7,
        tag_of("HOST"@) == Some(FTag::Host),
        tag_of("ADDR"@) == Some(FTag::Addr),
        tag_name(FTag::Host) == "HOST"@,
        tag_name(FTag::Addr) == "ADDR"@,
        0 <= i < 7 ==> ({
            let p = paired_tags()[i];
            &&& tag_of(p.0) == Some(p.2)
            &&& p.0 == "F-"@ + tag_name(p.2)
            &&& group_start(p.2) == "(?P<"@ + p.1 + ">"@
            &&& !stands_alone(p.2)
            &&& !p.0.contains('>')
            &&& p.0.len() > 0
        }),
{
    reveal_strlit("F-USER");
    reveal_strlit("F-ALT_USER");
    reveal_strlit("F-NOFAIL");
    reveal_strlit("F-MLFID");
    reveal_strlit("F-MLFFORGET");
    reveal_strlit("F-MLFGAINED");
    reveal_strlit("F-CONTENT");
    reveal_strlit("HOST");
    reveal_strlit("ADDR");
    reveal_strlit("USER");
    reveal_strlit("ALT_USER");
    reveal_strlit("NOFAIL");
    reveal_strlit("MLFID");
    reveal_strlit("MLFFORGET");
    reveal_strlit("MLFGAINED");
    reveal_strlit("CONTENT");
    reveal_strlit("F-");
    reveal_strlit("(?P<");
    reveal_strlit(">");
    reveal_strlit("user");
    reveal_strlit("alt_user");
    reveal_strlit("nofail");
    reveal_strlit("mlfid");
    reveal_strlit("mlfforget");
    reveal_strlit("mlfgained");
    reveal_strlit("content");
    reveal_strlit("(?P<user>");
    reveal_strlit("(?P<alt_user>");
    reveal_strlit("(?P<nofail>");
    reveal_strlit("(?P<mlfid>");
    reveal_strlit("(?P<mlfforget>");
    reveal_strlit("(?P<mlfgained>");
    reveal_strlit("(?P<content>");
    let p = paired_tags();
    assert("F-USER"@.len() == 6 && "F-USER"@[2] == 'U' && "F-USER"@[5] == 'R' && "F-USER"@[0] == 'F');
    assert("F-ALT_USER"@.len() == 10 && "F-ALT_USER"@[2] == 'A' && "F-ALT_USER"@[5] == '_' && "F-ALT_USER"@[0] == 'F');
    assert("F-NOFAIL"@.len() == 8 && "F-NOFAIL"@[2] == 'N' && "F-NOFAIL"@[5] == 'A' && "F-NOFAIL"@[0] == 'F');
    assert("F-MLFID"@.len() == 7 && "F-MLFID"@[2] == 'M' && "F-MLFID"@[5] == 'I' && "F-MLFID"@[0] == 'F');
    assert("F-MLFFORGET"@.len() == 11 && "F-MLFFORGET"@[2] == 'M' && "F-MLFFORGET"@[5] == 'F' && "F-MLFFORGET"@[0] == 'F');
    assert("F-MLFGAINED"@.len() == 11 && "F-MLFGAINED"@[2] == 'M' && "F-MLFGAINED"@[5] == 'G' && "F-MLFGAINED"@[0] == 'F');
    assert("F-CONTENT"@.len() == 9 && "F-CONTENT"@[2] == 'C' && "F-CONTENT"@[5] == 'T' && "F-CONTENT"@[0] == 'F');
    assert("HOST"@.len() == 4 && "HOST"@[2] == 'S' && "HOST"@[0] == 'H');
    assert("ADDR"@.len() == 4 && "ADDR"@[2] == 'D' && "ADDR"@[0] == 'A');
    assert("F-USER"@ =~= "F-"@ + "USER"@);
    assert("(?P<user>"@ =~= "(?P<"@ + "user"@ + ">"@);
    assert(!"F-USER"@.contains('>'));
    assert(p[0].0 == "F-USER"@);
    assert("F-ALT_USER"@ =~= "F-"@ + "ALT_USER"@);
    assert("(?P<alt_user>"@ =~= "(?P<"@ + "alt_user"@ + ">"@);
    assert(!"F-ALT_USER"@.contains('>'));
    assert(p[1].0 == "F-ALT_USER"@);
    assert("F-NOFAIL"@ =~= "F-"@ + "NOFAIL"@);
    assert("(?P<nofail>"@ =~= "(?P<"@ + "nofail"@ + ">"@);
    assert(!"F-NOFAIL"@.contains('>'));
    assert(p[2].0 == "F-NOFAIL"@);
    assert("F-MLFID"@ =~= "F-"@ + "MLFID"@);
    assert("(?P<mlfid>"@ =~= "(?P<"@ + "mlfid"@ + ">"@);
    assert(!"F-MLFID"@.contains('>'));
    assert(p[3].0 == "F-MLFID"@);
    assert("F-MLFFORGET"@ =~= "F-"@ + "MLFFORGET"@);
    assert("(?P<mlfforget>"@ =~= "(?P<"@ + "mlfforget"@ + ">"@);
    assert(!"F-MLFFORGET"@.contains('>'));
    assert(p[4].0 == "F-MLFFORGET"@);
    assert("F-MLFGAINED"@ =~= "F-"@ + "MLFGAINED"@);
    assert("(?P<mlfgained>"@ =~= "(?P<"@ + "mlfgained"@ + ">"@);
    assert(!"F-MLFGAINED"@.contains('>'));
    assert(p[5].0 == "F-MLFGAINED"@);
    assert("F-CONTENT"@ =~= "F-"@ + "CONTENT"@);
    assert("(?P<content>"@ =~= "(?P<"@ + "content"@ + ">"@);
    assert(!"F-CONTENT"@.contains('>'));
    assert(p[6].0 == "F-CONTENT"@);
}

/// A pair of tags expands to a group of its name around what stands between
/// them.
pub proof fn law_paired_tag(i: int, inner: Text, rest: Text)
    requires
        0 <= i < 7,
        !inner.contains('<'),
    ensures
        ({
            let (name, group, tag) = paired_tags()[i];
            let s = "<"@ + name + ">"@ + inner + "</"@ + name + ">"@ + rest;
            match expanded(rest) {
                Ok(t) => expanded(s) == Ok::<TagsView, ErrorView>(
                    TagsView {
                        pattern: "(?P<"@ + group + ">"@ + inner + ")"@ + t.pattern,
                        tags: seq![tag] + t.tags,
                    },
                ),
                Err(e) => expanded(s) == Err::<TagsView, ErrorView>(e),
            }
        }),
{
    law_tag_names(i);
    reveal_strlit("</");
    reveal_strlit(">");
    let (name, group, tag) = paired_tags()[i];
    let close = "</"@ + name + ">"@;
    let body = inner + close + rest;
    let s = "<"@ + name + ">"@ + inner + "</"@ + name + ">"@ + rest;
    assert(s =~= "<"@ + name + ">"@ + body);
    lemma_tag_opens(name, body);
    assert forall|k: int| 0 <= k < inner.len() implies !#[trigger] find::starts(
        body.skip(k),
        close,
    ) by {
        if find::starts(body.skip(k), close) {
            assert(body.skip(k).take(close.len() as int)[0] == close[0]);
            assert(close[0] == '<');
            assert(body[k] == inner[k]);
            assert(inner.contains(inner[k]));
        }
    }
    find::law_first_occurrence(inner, close, rest, Seq::empty());
    let n = inner.len() as int;
    assert(body.take(n) =~= inner);
    assert(body.skip(n + close.len()) =~= rest);
    law_plain_pattern_unchanged(inner);
    if let Ok(t) = expanded(rest) {
        assert(seq![tag] + Seq::<FTag>::empty() + t.tags =~= seq![tag] + t.tags);
    }
}

/// A paired tag without its closing tag is an error, and so is a tag that
/// nothing ends.
pub proof fn law_open_tag_is_error(i: int, rest: Text)
    requires
        0 <= i < 7,
    ensures
        !rest.contains('<') ==> expanded("<"@ + paired_tags()[i].0 + ">"@ + rest) is Err,
        !rest.contains('>') ==> expanded("<"@ + rest) is Err,
{
    law_tag_names(i);
    reveal_strlit("<");
    reveal_strlit("</");
    reveal_strlit(">");
    let name = paired_tags()[i].0;
    if !rest.contains('<') {
        lemma_tag_opens(name, rest);
        let close = "</"@ + name + ">"@;
        assert forall|k: int| 0 <= k <= rest.len() implies !#[trigger] find::starts(
            rest.skip(k),
            close,
        ) by {
            if find::starts(rest.skip(k), close) {
                assert(rest.skip(k).take(close.len() as int)[0] == close[0]);
                assert(rest[k] == '<');
                assert(rest.contains(rest[k]));
            }
        }
        find::law_no_occurrence(rest, close, Seq::empty());
    }
    if !rest.contains('>') {
        let s = "<"@ + rest;
        assert(s.skip(1) =~= rest);
        find::lemma_find(rest, '>');
    }
}

/// A name in angle brackets that is no tag stays as it is.
pub proof fn law_unknown_tag_stays(name: Text, rest: Text)
    requires
        !name.contains('<'),
        !name.contains('>'),
        tag_of(name) is None,
    ensures
        match expanded(rest) {
            Ok(t) => expanded("<"@ + name + ">"@ + rest) == Ok::<TagsView, ErrorView>(
                TagsView { pattern: "<"@ + name + ">"@ + t.pattern, tags: t.tags },
            ),
            Err(e) => expanded("<"@ + name + ">"@ + rest) == Err::<TagsView, ErrorView>(e),
        },
{
    reveal_strlit("<");
    reveal_strlit(">");
    lemma_tag_opens(name, rest);
    let s = "<"@ + name + ">"@ + rest;
    let front = name + ">"@;
    assert(!front.contains('<')) by {
        if front.contains('<') {
            let i = choose|i: int| 0 <= i < front.len() && front[i] == '<';
            if i < name.len() {
                assert(name.contains(name[i]));
            }
        }
    }
    law_plain_text_stays_in_front(front, rest);
    assert(s.skip(1) =~= front + rest);
    if let Ok(t) = expanded(rest) {
        assert(seq!['<'] + (front + t.pattern) =~= "<"@ + name + ">"@ + t.pattern);
        assert(Seq::<FTag>::empty() + t.tags =~= t.tags);
    }
}

} // verus!
