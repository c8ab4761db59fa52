//! Interpolation: variables in configuration values.
//!
//! - `%(name)s`: a value of the same section, of `[DEFAULT]` or a built-in one
//! - `%(default/name)s`, `%(section/name)s`, `%(known/name)s`
//! - `<name>`, `<known/name>`: parameters
//! - `<lt_.../name>`, `<ipt_.../name>`: a value of the section so named
//! - `%%`: a percent sign

use crate::config::parser;
use crate::config::parser::{IniDocument, SectionView};
use crate::error;
use crate::error::{Error, ErrorView};
use crate::table;
use crate::text;
use crate::text::find;
use crate::text::trim;
use crate::text::Text;
use indexmap::IndexMap;
use vstd::prelude::*;

verus! {

/// How deep values may refer to values.
pub const MAX_DEPTH: usize = 10;

/// What variables are looked up in.
#[derive(Debug)]
pub struct InterpolationContext<'a> {
    /// The whole document.
    pub doc: &'a IniDocument,
    /// The values of `[DEFAULT]`.
    pub defaults: &'a IndexMap<String, String>,
    /// The built-in values.
    pub builtins: &'a IndexMap<String, String>,
    /// The section that is being interpolated.
    pub current_section: Option<String>,
    /// The parameters of a filter or an action.
    pub init: &'a IndexMap<String, String>,
    /// The last known values.
    pub known: &'a IndexMap<String, String>,
}

/// The model of what variables are looked up in.
pub struct ContextView {
    pub doc: Seq<SectionView>,
    pub defaults: Seq<(Text, Text)>,
    pub builtins: Seq<(Text, Text)>,
    pub current_section: Option<Text>,
    pub init: Seq<(Text, Text)>,
    pub known: Seq<(Text, Text)>,
}

impl<'a> View for InterpolationContext<'a> {
    type V = ContextView;

    open spec fn view(&self) -> ContextView {
        ContextView {
            doc: self.doc@,
            defaults: table::entries(*self.defaults),
            builtins: table::entries(*self.builtins),
            current_section: text::opt_text(self.current_section),
            init: table::entries(*self.init),
            known: table::entries(*self.known),
        }
    }
}

/// The first of two that is there.
pub open spec fn first_of(a: Option<Text>, b: Option<Text>) -> Option<Text> {
    match a {
        Some(v) => Some(v),
        None => b,
    }
}

/// What is there, or a configuration error.
pub open spec fn found_or(o: Option<Text>, message: Text) -> Result<Text, ErrorView> {
    match o {
        Some(v) => Ok(v),
        None => Err(ErrorView::Config(message)),
    }
}

/// The value of a variable written `%(key)s`, before its own variables are
/// replaced.
#[verifier::opaque]
pub open spec fn percent_value(key: Text, ctx: ContextView) -> Result<Text, ErrorView> {
    if find::starts(key, "default/"@) {
        let rest = key.skip("default/"@.len() as int);
        found_or(
            first_of(table::lookup(ctx.defaults, rest), table::lookup(ctx.builtins, rest)),
            "unknown default variable "@ + text::debug_text(rest),
        )
    } else if find::starts(key, "known/"@) {
        let rest = key.skip("known/"@.len() as int);
        found_or(
            first_of(table::lookup(ctx.known, rest), table::lookup(ctx.init, rest)),
            "unknown known variable "@ + text::debug_text(rest),
        )
    } else {
        match find::cut(key, '/') {
            Some((section, name)) => found_or(
                parser::value_of(ctx.doc, section, name),
                "unknown cross-section variable "@ + text::debug_text(key),
            ),
            None => {
                let own = match ctx.current_section {
                    Some(s) => parser::value_of(ctx.doc, s, key),
                    None => None,
                };
                found_or(
                    first_of(
                        own,
                        first_of(
                            table::lookup(ctx.defaults, key),
                            table::lookup(ctx.builtins, key),
                        ),
                    ),
                    "unknown variable %("@ + key + ")s"@,
                )
            },
        }
    }
}

/// The value of a tag that names a section by a prefix and a variable: the
/// value in that section, empty where there is none.
pub open spec fn selected_value(
    prefix: Text,
    rest: Text,
    tag: Text,
    ctx: ContextView,
) -> Result<Option<Text>, ErrorView> {
    match find::cut(rest, '/') {
        None => Err(ErrorView::Config("malformed <"@ + prefix + "...> tag: "@ + tag)),
        Some((var, name)) => {
            let chosen = match first_of(
                table::lookup(ctx.init, var),
                table::lookup(ctx.defaults, var),
            ) {
                Some(v) => v,
                None => var,
            };
            match parser::value_of(ctx.doc, prefix + chosen, name) {
                Some(v) => Ok(Some(v)),
                None => Ok(Some(Seq::empty())),
            }
        },
    }
}

/// The value of a tag written `<tag>`, before its own variables are replaced;
/// `None` where the tag is none of interpolation's.
#[verifier::opaque]
pub open spec fn tag_value(tag: Text, ctx: ContextView) -> Result<Option<Text>, ErrorView> {
    if find::starts(tag, "known/"@) {
        let rest = tag.skip("known/"@.len() as int);
        match first_of(table::lookup(ctx.init, rest), table::lookup(ctx.known, rest)) {
            Some(v) => Ok(Some(v)),
            None => Err(ErrorView::Config("unknown <known/"@ + rest + "> init parameter"@)),
        }
    } else if find::starts(tag, "lt_"@) {
        selected_value("lt_"@, tag.skip("lt_"@.len() as int), tag, ctx)
    } else if find::starts(tag, "ipt_"@) {
        selected_value("ipt_"@, tag.skip("ipt_"@.len() as int), tag, ctx)
    } else {
        Ok(
            first_of(
                table::lookup(ctx.init, tag),
                first_of(table::lookup(ctx.defaults, tag), table::lookup(ctx.builtins, tag)),
            ),
        )
    }
}

/// The position, from `i` on, of the `>` that closes a tag inside which
/// `open` tags are open; the text's length where there is none.
pub open spec fn tag_close(s: Text, i: int, open: nat) -> int
    decreases s.len() - i,
{
    if i >= s.len() {
        s.len() as int
    } else if s[i] == '<' {
        tag_close(s, i + 1, open + 1)
    } else if s[i] == '>' {
        if open == 0 {
            i
        } else {
            tag_close(s, i + 1, (open - 1) as nat)
        }
    } else {
        tag_close(s, i + 1, open)
    }
}

/// A result with a text put in front of it.
pub open spec fn after(front: Text, r: Result<Text, ErrorView>) -> Result<Text, ErrorView> {
    match r {
        Ok(t) => Ok(front + t),
        Err(e) => Err(e),
    }
}

/// What follows the `s` that may end a variable.
pub open spec fn past_s(s: Text) -> Text {
    if s.len() > 0 && s[0] == 's' {
        s.skip(1)
    } else {
        s
    }
}

/// The text with its variables replaced by their values, and those values'
/// variables in turn, from left to right. The first error ends it.
pub open spec fn interpolated(s: Text, ctx: ContextView, depth: nat) -> Result<Text, ErrorView>
    decreases MAX_DEPTH + 1 - depth, s.len(),
    via interpolated_shrinks
{
    if depth > MAX_DEPTH {
        Err(ErrorView::Config("interpolation recursion limit exceeded (10)"@))
    } else if s.len() == 0 {
        Ok(Seq::empty())
    } else if s[0] == '%' && s.len() > 1 && s[1] == '%' {
        after("%"@, interpolated(s.skip(2), ctx, depth))
    } else if s[0] == '%' {
        if s.len() == 1 || s[1] != '(' {
            Err(ErrorView::Config("expected '(' after '%' in interpolation"@))
        } else {
            let rest = s.skip(2);
            let end = find::find(rest, ')');
            if end >= rest.len() {
                Err(ErrorView::Config("unterminated %(name)"@))
            } else {
                match percent_value(trim::trimmed(rest.take(end)), ctx) {
                    Err(e) => Err(e),
                    Ok(v) => match interpolated(v, ctx, depth + 1) {
                        Err(e) => Err(e),
                        Ok(t) => after(t, interpolated(past_s(rest.skip(end + 1)), ctx, depth)),
                    },
                }
            }
        }
    } else if s[0] == '<' {
        let rest = s.skip(1);
        let end = tag_close(rest, 0, 0);
        if end >= rest.len() {
            Ok(s)
        } else {
            let written = rest.take(end);
            let inner = if written.contains('<') {
                interpolated(written, ctx, depth + 1)
            } else {
                Ok(written)
            };
            match inner {
                Err(e) => Err(e),
                Ok(tag) => match tag_value(tag, ctx) {
                    Err(e) => Err(e),
                    Ok(None) => after(
                        "<"@ + written + ">"@,
                        interpolated(rest.skip(end + 1), ctx, depth),
                    ),
                    Ok(Some(v)) => match interpolated(v, ctx, depth + 1) {
                        Err(e) => Err(e),
                        Ok(t) => after(t, interpolated(rest.skip(end + 1), ctx, depth)),
                    },
                },
            }
        }
    } else {
        after(seq![s[0]], interpolated(s.skip(1), ctx, depth))
    }
}

#[via_fn]
proof fn interpolated_shrinks(s: Text, ctx: ContextView, depth: nat) {
    if s.len() > 1 {
        find::lemma_find(s.skip(2), ')');
    }
    if s.len() > 0 {
        lemma_tag_close(s.skip(1), 0, 0);
    }
}

proof fn lemma_tag_close(s: Text, i: int, open: nat)
    requires
        0 <= i <= s.len(),
    ensures
        i <= tag_close(s, i, open) <= s.len(),
    decreases s.len() - i,
{
    if i < s.len() {
        if s[i] == '<' {
            lemma_tag_close(s, i + 1, open + 1);
        } else if s[i] == '>' {
            if open > 0 {
                lemma_tag_close(s, i + 1, (open - 1) as nat);
            }
        } else {
            lemma_tag_close(s, i + 1, open);
        }
    }
}

proof fn lemma_after_after(a: Text, b: Text, r: Result<Text, ErrorView>)
    ensures
        after(a, after(b, r)) == after(a + b, r),
{
    if let Ok(t) = r {
        assert(a + (b + t) =~= a + b + t);
    }
}

/// The value of a key in the first section with the name.
fn section_value<'a>(doc: &'a IniDocument, section: &str, key: &str) -> (r: Option<&'a str>)
    ensures
        text::opt_str(r) == parser::value_of(doc@, section@, key@),
{
    match doc.section(section) {
        Some(s) => s.get(key),
        None => None,
    }
}

fn first_in<'a>(
    a: &'a IndexMap<String, String>,
    b: &'a IndexMap<String, String>,
    key: &str,
) -> (r: Option<&'a str>)
    ensures
        text::opt_str(r) == first_of(
            table::lookup(table::entries(*a), key@),
            table::lookup(table::entries(*b), key@),
        ),
{
    match table::get(a, key) {
        Some(v) => Some(v),
        None => table::get(b, key),
    }
}

/// Looks up a variable written `%(key)s`.
fn lookup_percent(key: &str, ctx: &InterpolationContext<'_>) -> (r: Result<String, Error>)
    ensures
        error::outcome(r) == percent_value(key@, ctx@),
{
    proof {
        reveal(percent_value);
    }
    if let Some(rest) = find::strip_prefix(key, "default/") {
        return match first_in(ctx.defaults, ctx.builtins, rest) {
            Some(v) => Ok(v.to_owned()),
            None => {
                let q = text::quoted(rest);
                Err(Error::Config(text::cat2("unknown default variable ", q.as_str())))
            },
        };
    }
    if let Some(rest) = find::strip_prefix(key, "known/") {
        return match first_in(ctx.known, ctx.init, rest) {
            Some(v) => Ok(v.to_owned()),
            None => {
                let q = text::quoted(rest);
                Err(Error::Config(text::cat2("unknown known variable ", q.as_str())))
            },
        };
    }
    if let Some((section, parameter)) = find::split_once(key, '/') {
        return match section_value(ctx.doc, section, parameter) {
            Some(v) => Ok(v.to_owned()),
            None => {
                let q = text::quoted(key);
                Err(Error::Config(text::cat2("unknown cross-section variable ", q.as_str())))
            },
        };
    }
    if let Some(name) = &ctx.current_section {
        if let Some(v) = section_value(ctx.doc, name.as_str(), key) {
            return Ok(v.to_owned());
        }
    }
    match first_in(ctx.defaults, ctx.builtins, key) {
        Some(v) => Ok(v.to_owned()),
        None => Err(Error::Config(text::cat3("unknown variable %(", key, ")s"))),
    }
}

fn lookup_selected(
    prefix: &str,
    rest: &str,
    tag: &str,
    ctx: &InterpolationContext<'_>,
) -> (r: Result<Option<String>, Error>)
    ensures
        match r {
            Ok(v) => selected_value(prefix@, rest@, tag@, ctx@) == Ok::<Option<Text>, ErrorView>(
                text::opt_text(v),
            ),
            Err(e) => selected_value(prefix@, rest@, tag@, ctx@) == Err::<
                Option<Text>,
                ErrorView,
            >(e@),
        },
{
    match find::split_once(rest, '/') {
        None => Err(Error::Config(text::cat4("malformed <", prefix, "...> tag: ", tag))),
        Some((var, name)) => {
            let chosen = match first_in(ctx.init, ctx.defaults, var) {
                Some(v) => v,
                None => var,
            };
            let section = text::cat2(prefix, chosen);
            match section_value(ctx.doc, section.as_str(), name) {
                Some(v) => Ok(Some(v.to_owned())),
                None => {
                    let empty = String::new();
                    assert(empty@ =~= Seq::<char>::empty());
                    Ok(Some(empty))
                },
            }
        },
    }
}

/// Looks up a tag whose own variables have been replaced.
fn lookup_tag(tag: &str, ctx: &InterpolationContext<'_>) -> (r: Result<Option<String>, Error>)
    ensures
        match r {
            Ok(v) => tag_value(tag@, ctx@) == Ok::<Option<Text>, ErrorView>(text::opt_text(v)),
            Err(e) => tag_value(tag@, ctx@) == Err::<Option<Text>, ErrorView>(e@),
        },
{
    proof {
        reveal(tag_value);
    }
    if let Some(rest) = find::strip_prefix(tag, "known/") {
        return match first_in(ctx.init, ctx.known, rest) {
            Some(v) => Ok(Some(v.to_owned())),
            None => Err(
                Error::Config(text::cat3("unknown <known/", rest, "> init parameter")),
            ),
        };
    }
    if let Some(rest) = find::strip_prefix(tag, "lt_") {
        return lookup_selected("lt_", rest, tag, ctx);
    }
    if let Some(rest) = find::strip_prefix(tag, "ipt_") {
        return lookup_selected("ipt_", rest, tag, ctx);
    }
    if let Some(v) = table::get(ctx.init, tag) {
        return Ok(Some(v.to_owned()));
    }
    match first_in(ctx.defaults, ctx.builtins, tag) {
        Some(v) => Ok(Some(v.to_owned())),
        None => Ok(None),
    }
}

/// Where the tag that starts at `from` is closed.
fn close_of(v: &Vec<char>, from: usize) -> (r: usize)
    requires
        from <= v.len(),
    ensures
        from <= r <= v.len(),
        r == from + tag_close(v@.skip(from as int), 0, 0),
{
    let ghost s = v@.skip(from as int);
    let mut open: usize = 0;
    let mut i: usize = from;
    while i < v.len()
        invariant
            from <= i <= v.len(),
            open <= i,
            s == v@.skip(from as int),
            tag_close(s, 0, 0) == tag_close(s, i - from, open as nat),
        decreases v.len() - i,
    {
        let c = v[i];
        assert(s[i - from] == c);
        if c == '<' {
            open += 1;
        } else if c == '>' {
            if open == 0 {
                return i;
            }
            open -= 1;
        }
        i += 1;
    }
    i
}

#[verifier::rlimit(40)]
fn interpolate_inner(input: &str, ctx: &InterpolationContext<'_>, depth: usize) -> (r: Result<
    String,
    Error,
>)
    requires
        depth <= MAX_DEPTH + 1,
    ensures
        error::outcome(r) == interpolated(input@, ctx@, depth as nat),
    decreases MAX_DEPTH + 1 - depth,
{
    if depth > MAX_DEPTH {
        return Err(Error::config("interpolation recursion limit exceeded (10)"));
    }
    let v = text::chars_of(input);
    let mut out = String::new();
    let mut i: usize = 0;
    let ghost whole = interpolated(input@, ctx@, depth as nat);
    proof {
        assert(v@.skip(0) =~= v@);
        if let Ok(t) = whole {
            assert(Seq::<char>::empty() + t =~= t);
        }
        assert(out@ =~= Seq::<char>::empty());
    }
    while i < v.len()
        invariant
            i <= v.len(),
            depth <= MAX_DEPTH,
            whole == interpolated(input@, ctx@, depth as nat),
            whole == after(out@, interpolated(v@.skip(i as int), ctx@, depth as nat)),
        decreases v.len() - i,
    {
        let ghost s = v@.skip(i as int);
        let ghost front = out@;
        let c = v[i];
        proof {
            assert(s[0] == c);
            if i + 1 < v.len() {
                assert(s[1] == v@[i + 1]);
            }
        }
        if c == '%' {
            if i + 1 < v.len() && v[i + 1] == '%' {
                out.push('%');
                proof {
                    reveal_strlit("%");
                    assert(s.skip(2) =~= v@.skip(i + 2));
                    assert(front + "%"@ =~= out@);
                    lemma_after_after(
                        front,
                        "%"@,
                        interpolated(v@.skip(i + 2), ctx@, depth as nat),
                    );
                }
                i += 2;
            } else {
                if i + 1 >= v.len() || v[i + 1] != '(' {
                    return Err(Error::config("expected '(' after '%' in interpolation"));
                }
                let end = find::find_from(&v, i + 2, ')');
                let ghost rest = s.skip(2);
                assert(rest =~= v@.skip(i + 2));
                if end == v.len() {
                    return Err(Error::config("unterminated %(name)"));
                }
                let name = text::string_of(&v, i + 2, end);
                assert(name@ =~= rest.take(end - i - 2));
                let mut next: usize = end + 1;
                let ghost tail = rest.skip(end - i - 2 + 1);
                assert(tail =~= v@.skip(end + 1));
                if next < v.len() && v[next] == 's' {
                    next += 1;
                    assert(past_s(tail) =~= v@.skip(next as int));
                }
                assert(past_s(tail) == v@.skip(next as int));
                let value = match lookup_percent(trim::trim(name.as_str()), ctx) {
                    Ok(value) => value,
                    Err(e) => {
                        return Err(e);
                    },
                };
                let t = match interpolate_inner(value.as_str(), ctx, depth + 1) {
                    Ok(t) => t,
                    Err(e) => {
                        return Err(e);
                    },
                };
                out.append(t.as_str());
                proof {
                    lemma_after_after(
                        front,
                        t@,
                        interpolated(v@.skip(next as int), ctx@, depth as nat),
                    );
                }
                i = next;
            }
        } else if c == '<' {
            let end = close_of(&v, i + 1);
            let ghost rest = s.skip(1);
            assert(rest =~= v@.skip(i + 1));
            if end == v.len() {
                let tail = text::string_of(&v, i, end);
                assert(tail@ =~= s);
                out.append(tail.as_str());
                return Ok(out);
            }
            let written = text::string_of(&v, i + 1, end);
            assert(written@ =~= rest.take(end - i - 1));
            assert(rest.skip(end - i) =~= v@.skip(end + 1));
            let tag = if find::has(written.as_str(), '<') {
                match interpolate_inner(written.as_str(), ctx, depth + 1) {
                    Ok(t) => t,
                    Err(e) => {
                        return Err(e);
                    },
                }
            } else {
                written.clone()
            };
            match lookup_tag(tag.as_str(), ctx) {
                Err(e) => {
                    return Err(e);
                },
                Ok(None) => {
                    let literal = text::cat3("<", written.as_str(), ">");
                    out.append(literal.as_str());
                    proof {
                        lemma_after_after(
                            front,
                            literal@,
                            interpolated(v@.skip(end + 1), ctx@, depth as nat),
                        );
                    }
                },
                Ok(Some(value)) => {
                    let t = match interpolate_inner(value.as_str(), ctx, depth + 1) {
                        Ok(t) => t,
                        Err(e) => {
                            return Err(e);
                        },
                    };
                    out.append(t.as_str());
                    proof {
                        lemma_after_after(
                            front,
                            t@,
                            interpolated(v@.skip(end + 1), ctx@, depth as nat),
                        );
                    }
                },
            }
            i = end + 1;
        } else {
            out.push(c);
            proof {
                assert(s.skip(1) =~= v@.skip(i + 1));
                assert(front + seq![c] =~= out@);
                lemma_after_after(
                    front,
                    seq![c],
                    interpolated(v@.skip(i + 1), ctx@, depth as nat),
                );
            }
            i += 1;
        }
    }
    proof {
        assert(v@.skip(i as int) =~= Seq::<char>::empty());
        assert(out@ + Seq::<char>::empty() =~= out@);
    }
    Ok(out)
}

/// Replaces the variables of a text by their values.
pub fn interpolate(input: &str, ctx: &InterpolationContext<'_>) -> (r: Result<String, Error>)
    ensures
        error::outcome(r) == interpolated(input@, ctx@, 0),
{
    interpolate_inner(input, ctx, 0)
}

/// A text without `%` and `<` stays as it is.
pub proof fn law_plain_text_unchanged(s: Text, ctx: ContextView, depth: nat)
    requires
        depth <= MAX_DEPTH,
        !s.contains('%'),
        !s.contains('<'),
    ensures
        interpolated(s, ctx, depth) == Ok::<Text, ErrorView>(s),
    decreases s.len(),
{
    if s.len() == 0 {
        assert(s =~= Seq::<char>::empty());
    } else {
        let t = s.skip(1);
        assert(s.contains(s[0]));
        assert forall|c: char| t.contains(c) implies s.contains(c) by {
            let i = choose|i: int| 0 <= i < t.len() && t[i] == c;
            assert(s[i + 1] == c);
        }
        law_plain_text_unchanged(t, ctx, depth);
        assert(seq![s[0]] + t =~= s);
    }
}

/// A doubled percent sign stands for one.
pub proof fn law_percent_escape(s: Text, ctx: ContextView, depth: nat)
    requires
        depth <= MAX_DEPTH,
    ensures
        interpolated("%%"@ + s, ctx, depth) == after("%"@, interpolated(s, ctx, depth)),
{
    reveal_strlit("%%");
    let t = "%%"@ + s;
    assert(t.skip(2) =~= s);
}

/// A variable is replaced by its value with the value's variables replaced.
pub proof fn law_variable_replaced(name: Text, rest: Text, ctx: ContextView, depth: nat)
    requires
        depth <= MAX_DEPTH,
        !name.contains(')'),
    ensures
        interpolated("%("@ + name + ")s"@ + rest, ctx, depth) == (match percent_value(
            trim::trimmed(name),
            ctx,
        ) {
            Err(e) => Err(e),
            Ok(v) => match interpolated(v, ctx, depth + 1) {
                Err(e) => Err(e),
                Ok(t) => after(t, interpolated(rest, ctx, depth)),
            },
        }),
{
    reveal_strlit("%(");
    reveal_strlit(")s");
    let s = "%("@ + name + ")s"@ + rest;
    let body = s.skip(2);
    assert(body =~= name + ")s"@ + rest);
    assert forall|k: int| 0 <= k < name.len() implies body[k] != ')' by {
        assert(name.contains(name[k]));
    }
    find::lemma_find_at(body, ')', name.len() as int);
    assert(body.take(name.len() as int) =~= name);
    assert(past_s(body.skip(name.len() as int + 1)) =~= rest);
}

/// A variable whose value is that variable itself is an error, whatever
/// follows it.
pub proof fn law_self_reference_is_error(name: Text, rest: Text, ctx: ContextView, depth: nat)
    requires
        !name.contains(')'),
        percent_value(trim::trimmed(name), ctx) == Ok::<Text, ErrorView>(
            "%("@ + name + ")s"@ + rest,
        ),
    ensures
        interpolated("%("@ + name + ")s"@ + rest, ctx, depth) is Err,
    decreases MAX_DEPTH + 1 - depth,
{
    if depth <= MAX_DEPTH {
        law_variable_replaced(name, rest, ctx, depth);
        law_self_reference_is_error(name, rest, ctx, depth + 1);
    }
}

/// Two variables whose values are each other are an error.
pub proof fn law_mutual_reference_is_error(a: Text, b: Text, ctx: ContextView, depth: nat)
    requires
        !a.contains(')'),
        !b.contains(')'),
        percent_value(trim::trimmed(a), ctx) == Ok::<Text, ErrorView>("%("@ + b + ")s"@),
        percent_value(trim::trimmed(b), ctx) == Ok::<Text, ErrorView>("%("@ + a + ")s"@),
    ensures
        interpolated("%("@ + a + ")s"@, ctx, depth) is Err,
        interpolated("%("@ + b + ")s"@, ctx, depth) is Err,
    decreases MAX_DEPTH + 1 - depth,
{
    if depth <= MAX_DEPTH {
        law_variable_replaced(a, Seq::empty(), ctx, depth);
        law_variable_replaced(b, Seq::empty(), ctx, depth);
        assert("%("@ + a + ")s"@ + Seq::<char>::empty() =~= "%("@ + a + ")s"@);
        assert("%("@ + b + ")s"@ + Seq::<char>::empty() =~= "%("@ + b + ")s"@);
        law_mutual_reference_is_error(a, b, ctx, depth + 1);
    }
}

/// Plain text in front of a text stays in front of what the text becomes.
pub proof fn law_plain_text_stays_in_front(front: Text, s: Text, ctx: ContextView, depth: nat)
    requires
        depth <= MAX_DEPTH,
        !front.contains('%'),
        !front.contains('<'),
    ensures
        interpolated(front + s, ctx, depth) == (match interpolated(s, ctx, depth) {
            Ok(t) => Ok(front + t),
            Err(e) => Err(e),
        }),
    decreases front.len(),
{
    if front.len() == 0 {
        assert(front + s =~= s);
        if let Ok(t) = interpolated(s, ctx, depth) {
            assert(front + t =~= t);
        }
    } else {
        let t = front.skip(1);
        assert(front.contains(front[0]));
        assert forall|c: char| t.contains(c) implies front.contains(c) by {
            let i = choose|i: int| 0 <= i < t.len() && t[i] == c;
            assert(front[i + 1] == c);
        }
        law_plain_text_stays_in_front(t, s, ctx, depth);
        assert((front + s).skip(1) =~= t + s);
        assert((front + s)[0] == front[0]);
        if let Ok(r) = interpolated(s, ctx, depth) {
            assert(seq![front[0]] + (t + r) =~= front + r);
        }
    }
}

/// A variable without a slash has the value of its own section, or else the
/// one of `[DEFAULT]`, or else the built-in one; where there is none of them,
/// it is an error.
pub proof fn law_variable_is_looked_up(key: Text, ctx: ContextView)
    requires
        !key.contains('/'),
    ensures
        ({
            let own = match ctx.current_section {
                Some(s) => parser::value_of(ctx.doc, s, key),
                None => None,
            };
            let inherited = table::lookup(ctx.defaults, key);
            let builtin = table::lookup(ctx.builtins, key);
            let r = percent_value(key, ctx);
            &&& own matches Some(v) ==> r == Ok::<Text, ErrorView>(v)
            &&& own is None ==> (inherited matches Some(v) ==> r == Ok::<Text, ErrorView>(v))
            &&& own is None && inherited is None ==> (builtin matches Some(v) ==> r == Ok::<
                Text,
                ErrorView,
            >(v))
            &&& own is None && inherited is None && builtin is None ==> r is Err
        }),
{
    reveal(percent_value);
    reveal_strlit("default/");
    reveal_strlit("known/");
    find::lemma_find(key, '/');
    if find::starts(key, "default/"@) {
        assert(key.take(8)[7] == '/');
        assert(key[7] == '/');
    }
    if find::starts(key, "known/"@) {
        assert(key.take(6)[5] == '/');
        assert(key[5] == '/');
    }
}

/// A variable `default/name` has the value of `[DEFAULT]` or else the built-in
/// one, and `known/name` the last known value or else the parameter.
pub proof fn law_prefixed_variable_is_looked_up(name: Text, ctx: ContextView)
    ensures
        ({
            let inherited = table::lookup(ctx.defaults, name);
            let builtin = table::lookup(ctx.builtins, name);
            let r = percent_value("default/"@ + name, ctx);
            &&& inherited matches Some(v) ==> r == Ok::<Text, ErrorView>(v)
            &&& inherited is None ==> (builtin matches Some(v) ==> r == Ok::<Text, ErrorView>(v))
            &&& inherited is None && builtin is None ==> r is Err
        }),
        ({
            let known = table::lookup(ctx.known, name);
            let parameter = table::lookup(ctx.init, name);
            let r = percent_value("known/"@ + name, ctx);
            &&& known matches Some(v) ==> r == Ok::<Text, ErrorView>(v)
            &&& known is None ==> (parameter matches Some(v) ==> r == Ok::<Text, ErrorView>(v))
            &&& known is None && parameter is None ==> r is Err
        }),
{
    reveal(percent_value);
    reveal_strlit("default/");
    reveal_strlit("known/");
    let a = "default/"@ + name;
    assert(a.take(8) =~= "default/"@);
    assert(a.skip(8) =~= name);
    let b = "known/"@ + name;
    assert(b.take(6) =~= "known/"@);
    assert(b.skip(6) =~= name);
    assert(b[0] == 'k');
    if find::starts(b, "default/"@) {
        assert(b.take(8)[0] == 'd');
    }
}

/// A variable `section/name`, for a section other than `default` and `known`,
/// has the value of that section.
pub proof fn law_variable_of_another_section(section: Text, name: Text, ctx: ContextView)
    requires
        !section.contains('/'),
        section != "default"@,
        section != "known"@,
    ensures
        match parser::value_of(ctx.doc, section, name) {
            Some(v) => percent_value(section + "/"@ + name, ctx) == Ok::<Text, ErrorView>(v),
            None => percent_value(section + "/"@ + name, ctx) is Err,
        },
{
    reveal(percent_value);
    reveal_strlit("default/");
    reveal_strlit("default");
    reveal_strlit("known/");
    reveal_strlit("known");
    reveal_strlit("/");
    let key = section + "/"@ + name;
    let n = section.len() as int;
    assert forall|k: int| 0 <= k < n implies key[k] != '/' by {
        assert(section.contains(section[k]));
        assert(key[k] == section[k]);
    }
    assert(key[n] == '/');
    find::lemma_find_at(key, '/', n);
    assert(key.take(n) =~= section);
    assert(key.skip(n + 1) =~= name);
    if find::starts(key, "default/"@) {
        let t = key.take(8);
        assert(t[7] == '/');
        assert(key[7] == '/');
        assert(n <= 7);
        assert(n < 7 ==> t[n] == key[n]);
        assert(section =~= "default"@);
    }
    if find::starts(key, "known/"@) {
        let t = key.take(6);
        assert(t[5] == '/');
        assert(key[5] == '/');
        assert(n <= 5);
        assert(n < 5 ==> t[n] == key[n]);
        assert(section =~= "known"@);
    }
}

/// A tag without a slash, and so of no section, is the parameter of its name,
/// or else the value of `[DEFAULT]`, or else the built-in one; where there is
/// none of them, it is no tag.
pub proof fn law_tag_is_looked_up(tag: Text, ctx: ContextView)
    requires
        !tag.contains('/'),
        !find::starts(tag, "lt_"@),
        !find::starts(tag, "ipt_"@),
    ensures
        ({
            let parameter = table::lookup(ctx.init, tag);
            let inherited = table::lookup(ctx.defaults, tag);
            let builtin = table::lookup(ctx.builtins, tag);
            let r = tag_value(tag, ctx);
            &&& parameter matches Some(v) ==> r == Ok::<Option<Text>, ErrorView>(Some(v))
            &&& parameter is None ==> (inherited matches Some(v) ==> r == Ok::<
                Option<Text>,
                ErrorView,
            >(Some(v)))
            &&& parameter is None && inherited is None ==> (builtin matches Some(v) ==> r == Ok::<
                Option<Text>,
                ErrorView,
            >(Some(v)))
            &&& parameter is None && inherited is None && builtin is None ==> r == Ok::<
                Option<Text>,
                ErrorView,
            >(None)
        }),
{
    reveal(tag_value);
    reveal_strlit("known/");
    if find::starts(tag, "known/"@) {
        assert(tag.take(6)[5] == '/');
        assert(tag[5] == '/');
    }
}

/// A tag `known/name` is the parameter, or else the last known value; where
/// there is neither, it is an error.
pub proof fn law_known_tag_is_looked_up(name: Text, ctx: ContextView)
    ensures
        ({
            let parameter = table::lookup(ctx.init, name);
            let known = table::lookup(ctx.known, name);
            let r = tag_value("known/"@ + name, ctx);
            &&& parameter matches Some(v) ==> r == Ok::<Option<Text>, ErrorView>(Some(v))
            &&& parameter is None ==> (known matches Some(v) ==> r == Ok::<Option<Text>, ErrorView>(
                Some(v),
            ))
            &&& parameter is None && known is None ==> r is Err
        }),
{
    reveal(tag_value);
    reveal_strlit("known/");
    let t = "known/"@ + name;
    assert(t.take(6) =~= "known/"@);
    assert(t.skip(6) =~= name);
}

/// A tag `lt_var/name` or `ipt_var/name` is the value of the section whose
/// name is the prefix and the value of the variable, or the variable's name
/// where it has none; it is empty where there is no such value.
pub proof fn law_section_is_selected(var: Text, name: Text, ctx: ContextView)
    requires
        !var.contains('/'),
    ensures
        ({
            let chosen = match table::lookup(ctx.init, var) {
                Some(v) => v,
                None => match table::lookup(ctx.defaults, var) {
                    Some(v) => v,
                    None => var,
                },
            };
            let lt = parser::value_of(ctx.doc, "lt_"@ + chosen, name);
            let ipt = parser::value_of(ctx.doc, "ipt_"@ + chosen, name);
            &&& tag_value("lt_"@ + var + "/"@ + name, ctx) == Ok::<Option<Text>, ErrorView>(
                Some(
                    match lt {
                        Some(v) => v,
                        None => Seq::empty(),
                    },
                ),
            )
            &&& tag_value("ipt_"@ + var + "/"@ + name, ctx) == Ok::<Option<Text>, ErrorView>(
                Some(
                    match ipt {
                        Some(v) => v,
                        None => Seq::empty(),
                    },
                ),
            )
        }),
{
    reveal(tag_value);
    reveal_strlit("known/");
    reveal_strlit("lt_");
    reveal_strlit("ipt_");
    reveal_strlit("/");
    let n = var.len() as int;
    let rest = var + "/"@ + name;
    assert forall|k: int| 0 <= k < n implies rest[k] != '/' by {
        assert(var.contains(var[k]));
        assert(rest[k] == var[k]);
    }
    assert(rest[n] == '/');
    find::lemma_find_at(rest, '/', n);
    assert(rest.take(n) =~= var);
    assert(rest.skip(n + 1) =~= name);
    let a = "lt_"@ + var + "/"@ + name;
    assert(a.take(3) =~= "lt_"@);
    assert(a.skip(3) =~= rest);
    assert(a[0] == 'l');
    if find::starts(a, "known/"@) {
        assert(a.take(6)[0] == 'k');
    }
    let b = "ipt_"@ + var + "/"@ + name;
    assert(b.take(4) =~= "ipt_"@);
    assert(b.skip(4) =~= rest);
    assert(b[0] == 'i');
    if find::starts(b, "known/"@) {
        assert(b.take(6)[0] == 'k');
    }
    if find::starts(b, "lt_"@) {
        assert(b.take(3)[0] == 'l');
    }
}

proof fn lemma_tag_ends(name: Text, rest: Text, i: int)
    requires
        0 <= i <= name.len(),
        !name.contains('<'),
        !name.contains('>'),
    ensures
        tag_close(name + ">"@ + rest, i, 0) == name.len(),
    decreases name.len() - i,
{
    reveal_strlit(">");
    let s = name + ">"@ + rest;
    if i < name.len() {
        assert(name.contains(name[i]));
        assert(s[i] == name[i]);
        lemma_tag_ends(name, rest, i + 1);
    } else {
        assert(s[i] == '>');
    }
}

/// A tag is replaced by its value with the value's variables replaced; one
/// that is no tag stays as it is written.
pub proof fn law_tag_is_replaced(name: Text, rest: Text, ctx: ContextView, depth: nat)
    requires
        depth <= MAX_DEPTH,
        !name.contains('<'),
        !name.contains('>'),
    ensures
        ({
            let r = interpolated("<"@ + name + ">"@ + rest, ctx, depth);
            let following = interpolated(rest, ctx, depth);
            match tag_value(name, ctx) {
                Err(e) => r == Err::<Text, ErrorView>(e),
                Ok(None) => match following {
                    Ok(t) => r == Ok::<Text, ErrorView>("<"@ + name + ">"@ + t),
                    Err(e) => r == Err::<Text, ErrorView>(e),
                },
                Ok(Some(v)) => match (interpolated(v, ctx, depth + 1), following) {
                    (Err(e), _) => r == Err::<Text, ErrorView>(e),
                    (Ok(_), Err(e)) => r == Err::<Text, ErrorView>(e),
                    (Ok(w), Ok(t)) => r == Ok::<Text, ErrorView>(w + t),
                },
            }
        }),
{
    reveal_strlit("<");
    reveal_strlit(">");
    let s = "<"@ + name + ">"@ + rest;
    let body = s.skip(1);
    assert(body =~= name + ">"@ + rest);
    lemma_tag_ends(name, rest, 0);
    let n = name.len() as int;
    assert(body.take(n) =~= name);
    assert(body.skip(n + 1) =~= rest);
    assert(s[0] == '<');
}

proof fn lemma_never_closes(s: Text, i: int, open: nat)
    requires
        0 <= i <= s.len(),
        !s.contains('>'),
    ensures
        tag_close(s, i, open) >= s.len(),
    decreases s.len() - i,
{
    if i < s.len() {
        assert(s.contains(s[i]));
        if s[i] == '<' {
            lemma_never_closes(s, i + 1, open + 1);
        } else {
            lemma_never_closes(s, i + 1, open);
        }
    }
}

/// What looks like a tag and is never closed stays as it is; a percent sign
/// that begins no variable, and a variable that does not end, are errors.
pub proof fn law_unfinished_text(s: Text, c: char, ctx: ContextView, depth: nat)
    requires
        depth <= MAX_DEPTH,
    ensures
        !s.contains('>') ==> interpolated("<"@ + s, ctx, depth) == Ok::<Text, ErrorView>("<"@ + s),
        interpolated("%"@, ctx, depth) is Err,
        c != '%' && c != '(' ==> interpolated("%"@ + seq![c] + s, ctx, depth) is Err,
        !s.contains(')') ==> interpolated("%("@ + s, ctx, depth) is Err,
        interpolated(s, ctx, 11) == Err::<Text, ErrorView>(
            ErrorView::Config("interpolation recursion limit exceeded (10)"@),
        ),
{
    reveal_strlit("<");
    reveal_strlit("%");
    reveal_strlit("%(");
    if !s.contains('>') {
        let t = "<"@ + s;
        assert(t[0] == '<');
        assert(t.skip(1) =~= s);
        lemma_never_closes(s, 0, 0);
    }
    assert("%"@.len() == 1 && "%"@[0] == '%');
    let u = "%"@ + seq![c] + s;
    assert(u[0] == '%' && u[1] == c);
    if !s.contains(')') {
        let t = "%("@ + s;
        assert(t[0] == '%' && t[1] == '(');
        assert(t.skip(2) =~= s);
        find::lemma_find(s, ')');
    }
}

proof fn lemma_inner_ends(a: Text, b: Text, rest: Text, i: int)
    requires
        0 <= i <= a.len() + b.len() + 2,
        !a.contains('<') && !a.contains('>'),
        !b.contains('<') && !b.contains('>'),
    ensures
        tag_close(
            a + "<"@ + b + ">"@ + ">"@ + rest,
            i,
            if a.len() < i <= a.len() + b.len() + 1 {
                1
            } else {
                0
            },
        ) == a.len() + b.len() + 2,
    decreases a.len() + b.len() + 2 - i,
{
    reveal_strlit("<");
    reveal_strlit(">");
    let s = a + "<"@ + b + ">"@ + ">"@ + rest;
    if i < a.len() {
        assert(a.contains(a[i]));
        assert(s[i] == a[i]);
        lemma_inner_ends(a, b, rest, i + 1);
    } else if i == a.len() {
        assert(s[i] == '<');
        lemma_inner_ends(a, b, rest, i + 1);
    } else if i <= a.len() + b.len() {
        assert(b.contains(b[i - a.len() - 1]));
        assert(s[i] == b[i - a.len() - 1]);
        lemma_inner_ends(a, b, rest, i + 1);
    } else if i == a.len() + b.len() + 1 {
        assert(s[i] == '>');
        lemma_inner_ends(a, b, rest, i + 1);
    } else {
        assert(s[i] == '>');
    }
}

/// A tag inside a tag is replaced first, and what comes out names the tag.
pub proof fn law_tag_in_tag(
    a: Text,
    b: Text,
    v: Text,
    w: Text,
    rest: Text,
    t: Text,
    ctx: ContextView,
    depth: nat,
)
    requires
        depth < MAX_DEPTH,
        !a.contains('<') && !a.contains('>'),
        !b.contains('<') && !b.contains('>'),
        interpolated(a + "<"@ + b + ">"@, ctx, depth + 1) == Ok::<Text, ErrorView>(v),
        tag_value(v, ctx) == Ok::<Option<Text>, ErrorView>(Some(w)),
        interpolated(w, ctx, depth + 1) == Ok::<Text, ErrorView>(w),
        interpolated(rest, ctx, depth) == Ok::<Text, ErrorView>(t),
    ensures
        interpolated("<"@ + a + "<"@ + b + ">"@ + ">"@ + rest, ctx, depth) == Ok::<Text, ErrorView>(
            w + t,
        ),
{
    reveal_strlit("<");
    reveal_strlit(">");
    let s = "<"@ + a + "<"@ + b + ">"@ + ">"@ + rest;
    let body = s.skip(1);
    assert(body =~= a + "<"@ + b + ">"@ + ">"@ + rest);
    lemma_inner_ends(a, b, rest, 0);
    let n = a.len() + b.len() + 2;
    let written = a + "<"@ + b + ">"@;
    assert(body.take(n as int) =~= written);
    assert(body.skip(n as int + 1) =~= rest);
    assert(s[0] == '<');
    assert(written[a.len() as int] == '<');
    assert(written.contains('<'));
}

} // verus!
