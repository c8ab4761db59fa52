//! Actions: the commands that a jail runs to ban and to lift bans.
//!
//! A command is a template: tags such as `<ip>`, `<F-USER>` or `<bantime>` are
//! filled in for the ban at hand before it runs.

use crate::config::action::{ActionConfig, ActionView};
use crate::ip;
use crate::ip::{IpAddr, IpFamily};
use crate::table;
use crate::text;
use crate::text::find;
use crate::text::number;
use crate::text::Text;
use indexmap::IndexMap;
use vstd::prelude::*;

pub mod run;

verus! {

/// An action that belongs to a jail.
#[derive(Debug)]
pub struct Action {
    /// The action's name.
    pub name: String,
    /// The jail's name.
    pub jail: String,
    /// The configuration.
    pub config: ActionConfig,
    /// Whether the action is set up.
    pub started: bool,
}

/// The model of an action.
#[verifier::ext_equal]
pub struct BoundView {
    pub name: Text,
    pub jail: Text,
    pub config: ActionView,
    pub started: bool,
}

impl View for Action {
    type V = BoundView;

    open spec fn view(&self) -> BoundView {
        BoundView {
            name: self.name@,
            jail: self.jail@,
            config: self.config@,
            started: self.started,
        }
    }
}

impl Action {
    /// The action of a jail. It is not set up yet.
    pub fn new(jail: &str, cfg: ActionConfig) -> (r: Action)
        ensures
            r@ == (BoundView { name: cfg@.name, jail: jail@, config: cfg@, started: false }),
    {
        Action { name: cfg.name.clone(), jail: jail.to_owned(), config: cfg, started: false }
    }
}

/// What the commands of an action are told of a ban.
#[derive(Debug)]
pub struct BanContext {
    /// The host: an IP address or a failure ID.
    pub ip: String,
    /// The address, where the host is one.
    pub ip_addr: Option<IpAddr>,
    /// The IP family.
    pub family: IpFamily,
    /// The user.
    pub user: Option<String>,
    /// Another user.
    pub alt_user: Option<String>,
    /// The failure ID, where the host is no address.
    pub fid: Option<String>,
    /// How long the ban lasts, in seconds; `None` for ever.
    pub bantime: Option<u64>,
    /// The matched lines.
    pub matches: Vec<String>,
    /// The number of failures.
    pub failures: u32,
}

/// The model of what a command is told.
#[verifier::ext_equal]
pub struct BanInfo {
    pub ip: Text,
    pub ip_addr: Option<IpAddr>,
    pub family: IpFamily,
    pub user: Option<Text>,
    pub alt_user: Option<Text>,
    pub fid: Option<Text>,
    pub bantime: Option<u64>,
    pub matches: Seq<Text>,
    pub failures: u32,
}

impl View for BanContext {
    type V = BanInfo;

    open spec fn view(&self) -> BanInfo {
        BanInfo {
            ip: self.ip@,
            ip_addr: self.ip_addr,
            family: self.family,
            user: text::opt_text(self.user),
            alt_user: text::opt_text(self.alt_user),
            fid: text::opt_text(self.fid),
            bantime: self.bantime,
            matches: text::texts(self.matches@),
            failures: self.failures,
        }
    }
}

/// The model of an optional context.
pub open spec fn opt_info(ctx: Option<&BanContext>) -> Option<BanInfo> {
    match ctx {
        Some(c) => Some(c@),
        None => None,
    }
}

/// The least that can be told of the ban of an address.
pub open spec fn info_of_ip(ip: IpAddr, bantime: Option<u64>) -> BanInfo {
    BanInfo {
        ip: ip::ip_text(ip),
        ip_addr: Some(ip),
        family: ip::family(ip),
        user: None,
        alt_user: None,
        fid: None,
        bantime,
        matches: Seq::empty(),
        failures: 0,
    }
}

impl BanContext {
    /// The least that can be told of the ban of an address.
    pub fn for_ip(ip: IpAddr, bantime: Option<u64>) -> (r: BanContext)
        ensures
            r@ == info_of_ip(ip, bantime),
    {
        let matches: Vec<String> = Vec::new();
        proof {
            assert(text::texts(matches@) =~= Seq::empty());
        }
        BanContext {
            ip: ip.show(),
            ip_addr: Some(ip),
            family: ip::family_of(ip),
            user: None,
            alt_user: None,
            fid: None,
            bantime,
            matches,
            failures: 0,
        }
    }
}

/// The value of a tag: of the ban, of the jail, or else a parameter of the
/// action. A tag that speaks of a ban has none where there is no ban.
pub open spec fn tag_value(
    tag: Text,
    init: Seq<(Text, Text)>,
    jail: Text,
    ctx: Option<BanInfo>,
) -> Option<Text> {
    if tag == "name"@ || tag == "jail"@ {
        Some(jail)
    } else if is_ban_tag(tag) {
        match ctx {
            Some(c) => ban_value(tag, c),
            None => None,
        }
    } else {
        table::lookup(init, tag)
    }
}

/// Whether a tag speaks of a ban.
pub open spec fn is_ban_tag(tag: Text) -> bool {
    ||| tag == "ip"@
    ||| tag == "ip-host"@
    ||| tag == "ip-family"@
    ||| tag == "F-USER"@
    ||| tag == "F-ALT_USER"@
    ||| tag == "fid"@
    ||| tag == "bantime"@
    ||| tag == "unbanip"@
    ||| tag == "matches"@
    ||| tag == "ipmatches"@
    ||| tag == "ipjailmatches"@
    ||| tag == "failures"@
}

/// The value of a tag that speaks of a ban.
pub open spec fn ban_value(tag: Text, c: BanInfo) -> Option<Text> {
    if tag == "ip-host"@ {
        match c.ip_addr {
            Some(_) => Some(c.ip),
            None => None,
        }
    } else if tag == "ip-family"@ {
        Some(ip::family_text(c.family))
    } else if tag == "F-USER"@ {
        c.user
    } else if tag == "F-ALT_USER"@ {
        c.alt_user
    } else if tag == "fid"@ {
        match c.fid {
            Some(f) => Some(f),
            None => Some(c.ip),
        }
    } else if tag == "bantime"@ {
        match c.bantime {
            Some(n) => Some(number::decimal(n as nat)),
            None => None,
        }
    } else if tag == "matches"@ || tag == "ipmatches"@ || tag == "ipjailmatches"@ {
        Some(text::joined(c.matches, "\n"@))
    } else if tag == "failures"@ {
        Some(number::decimal(c.failures as nat))
    } else {
        Some(c.ip)
    }
}

/// A template with its tags filled in. What is between angle brackets but has
/// no value stays as it is.
pub open spec fn filled(
    s: Text,
    init: Seq<(Text, Text)>,
    jail: Text,
    ctx: Option<BanInfo>,
) -> Text
    decreases s.len(),
    via filled_shrinks
{
    if s.len() == 0 {
        Seq::empty()
    } else {
        let end = find::find(s, '>');
        if s[0] == '<' && end < s.len() && tag_value(s.subrange(1, end), init, jail, ctx) is Some {
            tag_value(s.subrange(1, end), init, jail, ctx)->0 + filled(
                s.skip(end + 1),
                init,
                jail,
                ctx,
            )
        } else {
            seq![s[0]] + filled(s.skip(1), init, jail, ctx)
        }
    }
}

#[via_fn]
proof fn filled_shrinks(s: Text, init: Seq<(Text, Text)>, jail: Text, ctx: Option<BanInfo>) {
    if s.len() > 0 {
        find::lemma_find(s, '>');
    }
}

fn ban_tag_value(tag: &str, c: &BanContext) -> (r: Option<String>)
    ensures
        text::opt_text(r) == ban_value(tag@, c@),
{
    if text::same(tag, "ip-host") {
        match c.ip_addr {
            Some(_) => Some(c.ip.clone()),
            None => None,
        }
    } else if text::same(tag, "ip-family") {
        Some(c.family.as_str().to_owned())
    } else if text::same(tag, "F-USER") {
        text::copy_opt(&c.user)
    } else if text::same(tag, "F-ALT_USER") {
        text::copy_opt(&c.alt_user)
    } else if text::same(tag, "fid") {
        match &c.fid {
            Some(f) => Some(f.clone()),
            None => Some(c.ip.clone()),
        }
    } else if text::same(tag, "bantime") {
        match c.bantime {
            Some(n) => Some(number::to_decimal(n)),
            None => None,
        }
    } else if text::same(tag, "matches") || text::same(tag, "ipmatches") || text::same(
        tag,
        "ipjailmatches",
    ) {
        Some(text::join(&c.matches, "\n"))
    } else if text::same(tag, "failures") {
        Some(number::to_decimal(c.failures as u64))
    } else {
        Some(c.ip.clone())
    }
}

fn speaks_of_ban(tag: &str) -> (r: bool)
    ensures
        r == is_ban_tag(tag@),
{
    text::same(tag, "ip") || text::same(tag, "ip-host") || text::same(tag, "ip-family")
        || text::same(tag, "F-USER") || text::same(tag, "F-ALT_USER") || text::same(tag, "fid")
        || text::same(tag, "bantime") || text::same(tag, "unbanip") || text::same(tag, "matches")
        || text::same(tag, "ipmatches") || text::same(tag, "ipjailmatches") || text::same(
        tag,
        "failures",
    )
}

/// The value of a tag.
fn lookup_tag(
    tag: &str,
    init: &IndexMap<String, String>,
    jail: &str,
    ctx: Option<&BanContext>,
) -> (r: Option<String>)
    ensures
        text::opt_text(r) == tag_value(tag@, table::entries(*init), jail@, opt_info(ctx)),
{
    if text::same(tag, "name") || text::same(tag, "jail") {
        Some(jail.to_owned())
    } else if speaks_of_ban(tag) {
        match ctx {
            Some(c) => ban_tag_value(tag, c),
            None => None,
        }
    } else {
        match table::get(init, tag) {
            Some(v) => Some(v.to_owned()),
            None => None,
        }
    }
}

/// Fills in the tags of a command template.
pub fn expand_command(
    template: &str,
    init: &IndexMap<String, String>,
    jail: &str,
    ctx: Option<&BanContext>,
) -> (r: String)
    ensures
        r@ == filled(template@, table::entries(*init), jail@, opt_info(ctx)),
{
    let ghost e = table::entries(*init);
    let ghost c = opt_info(ctx);
    let v = text::chars_of(template);
    let mut out = String::new();
    let mut i: usize = 0;
    proof {
        assert(v@.skip(0) =~= v@);
        assert(out@ + filled(v@, e, jail@, c) =~= filled(v@, e, jail@, c));
    }
    while i < v.len()
        invariant
            i <= v.len(),
            v@ == template@,
            e == table::entries(*init),
            c == opt_info(ctx),
            out@ + filled(v@.skip(i as int), e, jail@, c) == filled(template@, e, jail@, c),
        decreases v.len() - i,
    {
        let ghost s = v@.skip(i as int);
        let ghost before = out@;
        proof {
            assert(s.skip(1) =~= v@.skip(i + 1));
            assert(before.push(s[0]) + filled(s.skip(1), e, jail@, c) =~= before + (seq![s[0]]
                + filled(s.skip(1), e, jail@, c)));
        }
        if v[i] == '<' {
            let end = find::find_from(&v, i, '>');
            if end < v.len() {
                let tag = text::string_of(&v, i + 1, end);
                proof {
                    assert(tag@ =~= s.subrange(1, end - i));
                    assert(s.skip(end - i + 1) =~= v@.skip(end + 1));
                }
                if let Some(value) = lookup_tag(tag.as_str(), init, jail, ctx) {
                    out.append(value.as_str());
                    i = end + 1;
                    assert(out@ + filled(v@.skip(i as int), e, jail@, c) =~= before + (value@
                        + filled(v@.skip(i as int), e, jail@, c)));
                    continue;
                }
            }
        }
        out.push(v[i]);
        i += 1;
    }
    proof {
        assert(v@.skip(i as int) =~= Seq::<char>::empty());
        assert(out@ + Seq::<char>::empty() =~= out@);
    }
    out
}

/// A template without an opening bracket is filled in as it is.
pub proof fn law_plain_command_unchanged(
    s: Text,
    init: Seq<(Text, Text)>,
    jail: Text,
    ctx: Option<BanInfo>,
)
    requires
        !s.contains('<'),
    ensures
        filled(s, init, jail, ctx) == s,
    decreases s.len(),
{
    if s.len() > 0 {
        assert(s[0] != '<');
        assert forall|i: int| 0 <= i < s.skip(1).len() implies s.skip(1)[i] != '<' by {
            assert(s.skip(1)[i] == s[i + 1]);
        }
        law_plain_command_unchanged(s.skip(1), init, jail, ctx);
        assert(seq![s[0]] + s.skip(1) =~= s);
    }
}

/// A tag in front of a template is filled in with its value, and the rest of
/// the template is filled in on its own.
pub proof fn law_tag_replaced(
    tag: Text,
    rest: Text,
    init: Seq<(Text, Text)>,
    jail: Text,
    ctx: Option<BanInfo>,
)
    requires
        !tag.contains('>'),
        tag_value(tag, init, jail, ctx) is Some,
    ensures
        filled("<"@ + tag + ">"@ + rest, init, jail, ctx) == tag_value(tag, init, jail, ctx)->0
            + filled(rest, init, jail, ctx),
{
    reveal_strlit("<");
    reveal_strlit(">");
    let s = "<"@ + tag + ">"@ + rest;
    let n: int = tag.len() as int;
    assert forall|k: int| 0 <= k < n + 1 implies s[k] != '>' by {
        if k > 0 {
            assert(s[k] == tag[k - 1]);
        }
    }
    find::lemma_find_at(s, '>', n + 1);
    assert(s.subrange(1, n + 1) =~= tag);
    assert(s.skip(n + 2) =~= rest);
}

/// What the tags stand for in a command about a ban.
pub proof fn law_ban_tags(init: Seq<(Text, Text)>, jail: Text, c: BanInfo)
    ensures
        tag_value("name"@, init, jail, Some(c)) == Some(jail),
        tag_value("jail"@, init, jail, Some(c)) == Some(jail),
        tag_value("ip"@, init, jail, Some(c)) == Some(c.ip),
        tag_value("unbanip"@, init, jail, Some(c)) == Some(c.ip),
        c.ip_addr is Some ==> tag_value("ip-host"@, init, jail, Some(c)) == Some(c.ip),
        c.ip_addr is None ==> tag_value("ip-host"@, init, jail, Some(c)) is None,
        tag_value("ip-family"@, init, jail, Some(c)) == Some(ip::family_text(c.family)),
        tag_value("F-USER"@, init, jail, Some(c)) == c.user,
        tag_value("F-ALT_USER"@, init, jail, Some(c)) == c.alt_user,
        c.fid is Some ==> tag_value("fid"@, init, jail, Some(c)) == c.fid,
        c.fid is None ==> tag_value("fid"@, init, jail, Some(c)) == Some(c.ip),
        c.bantime matches Some(n) ==> tag_value("bantime"@, init, jail, Some(c)) == Some(
            number::decimal(n as nat),
        ),
        c.bantime is None ==> tag_value("bantime"@, init, jail, Some(c)) is None,
        tag_value("matches"@, init, jail, Some(c)) == Some(text::joined(c.matches, "\n"@)),
        tag_value("ipmatches"@, init, jail, Some(c)) == Some(text::joined(c.matches, "\n"@)),
        tag_value("ipjailmatches"@, init, jail, Some(c)) == Some(text::joined(c.matches, "\n"@)),
        tag_value("failures"@, init, jail, Some(c)) == Some(number::decimal(c.failures as nat)),
{
    reveal_strlit("name");
    reveal_strlit("jail");
    reveal_strlit("ip");
    reveal_strlit("ip-host");
    reveal_strlit("ip-family");
    reveal_strlit("F-USER");
    reveal_strlit("F-ALT_USER");
    reveal_strlit("fid");
    reveal_strlit("bantime");
    reveal_strlit("unbanip");
    reveal_strlit("matches");
    reveal_strlit("ipmatches");
    reveal_strlit("ipjailmatches");
    reveal_strlit("failures");
    assert("name"@.len() == 4 && "name"@[0] == 'n');
    assert("jail"@.len() == 4 && "jail"@[0] == 'j');
    assert("ip"@.len() == 2);
    assert("ip-host"@.len() == 7 && "ip-host"@[0] == 'i');
    assert("ip-family"@.len() == 9 && "ip-family"@[2] == '-');
    assert("F-USER"@.len() == 6);
    assert("F-ALT_USER"@.len() == 10);
    assert("fid"@.len() == 3);
    assert("bantime"@.len() == 7 && "bantime"@[0] == 'b');
    assert("unbanip"@.len() == 7 && "unbanip"@[0] == 'u');
    assert("matches"@.len() == 7 && "matches"@[0] == 'm');
    assert("ipmatches"@.len() == 9 && "ipmatches"@[2] == 'm');
    assert("ipjailmatches"@.len() == 13);
    assert("failures"@.len() == 8);
}

/// Outside a ban, the tags of the jail are still known, those of a ban are
/// not; any other tag stands for the parameter of its name.
pub proof fn law_other_tags(
    init: Seq<(Text, Text)>,
    jail: Text,
    ctx: Option<BanInfo>,
    tag: Text,
)
    requires
        tag != "name"@,
        tag != "jail"@,
    ensures
        tag_value("name"@, init, jail, None) == Some(jail),
        tag_value("jail"@, init, jail, None) == Some(jail),
        ({
            ||| tag == "ip"@
            ||| tag == "ip-host"@
            ||| tag == "ip-family"@
            ||| tag == "F-USER"@
            ||| tag == "F-ALT_USER"@
            ||| tag == "fid"@
            ||| tag == "bantime"@
            ||| tag == "unbanip"@
            ||| tag == "matches"@
            ||| tag == "ipmatches"@
            ||| tag == "ipjailmatches"@
            ||| tag == "failures"@
        }) ==> tag_value(tag, init, jail, None) is None,
        !({
            ||| tag == "ip"@
            ||| tag == "ip-host"@
            ||| tag == "ip-family"@
            ||| tag == "F-USER"@
            ||| tag == "F-ALT_USER"@
            ||| tag == "fid"@
            ||| tag == "bantime"@
            ||| tag == "unbanip"@
            ||| tag == "matches"@
            ||| tag == "ipmatches"@
            ||| tag == "ipjailmatches"@
            ||| tag == "failures"@
        }) ==> tag_value(tag, init, jail, ctx) == table::lookup(init, tag),
{
}

/// Text without `<` in front of a command stays in front of it.
pub proof fn law_plain_text_stays_in_front(
    front: Text,
    s: Text,
    init: Seq<(Text, Text)>,
    jail: Text,
    ctx: Option<BanInfo>,
)
    requires
        !front.contains('<'),
    ensures
        filled(front + s, init, jail, ctx) == front + filled(s, init, jail, ctx),
    decreases front.len(),
{
    if front.len() == 0 {
        assert(front + s =~= s);
        assert(front + filled(s, init, jail, ctx) =~= filled(s, init, jail, ctx));
    } else {
        let t = front.skip(1);
        assert(front.contains(front[0]));
        assert forall|c: char| t.contains(c) implies front.contains(c) by {
            let i = choose|i: int| 0 <= i < t.len() && t[i] == c;
            assert(front[i + 1] == c);
        }
        law_plain_text_stays_in_front(t, s, init, jail, ctx);
        assert((front + s).skip(1) =~= t + s);
        assert(seq![front[0]] + (t + filled(s, init, jail, ctx)) =~= front + filled(
            s,
            init,
            jail,
            ctx,
        ));
    }
}

/// A tag that stands for nothing stays as it is.
pub proof fn law_unknown_tag_stays(
    tag: Text,
    rest: Text,
    init: Seq<(Text, Text)>,
    jail: Text,
    ctx: Option<BanInfo>,
)
    requires
        !tag.contains('>'),
        !tag.contains('<'),
        tag_value(tag, init, jail, ctx) is None,
    ensures
        filled("<"@ + tag + ">"@ + rest, init, jail, ctx) == "<"@ + tag + ">"@ + filled(
            rest,
            init,
            jail,
            ctx,
        ),
{
    reveal_strlit("<");
    reveal_strlit(">");
    let s = "<"@ + tag + ">"@ + rest;
    let front = tag + ">"@;
    let n = tag.len() + 1;
    assert forall|k: int| 0 <= k < n implies s[k] != '>' by {
        if k > 0 {
            assert(s[k] == tag[k - 1]);
            assert(tag.contains(tag[k - 1]));
        }
    }
    find::lemma_find_at(s, '>', n as int);
    assert(s.subrange(1, n as int) =~= tag);
    assert(!front.contains('<')) by {
        if front.contains('<') {
            let i = choose|i: int| 0 <= i < front.len() && front[i] == '<';
            if i < tag.len() {
                assert(tag.contains(tag[i]));
            }
        }
    }
    law_plain_text_stays_in_front(front, rest, init, jail, ctx);
    assert(s.skip(1) =~= front + rest);
    assert(seq!['<'] + (front + filled(rest, init, jail, ctx)) =~= "<"@ + tag + ">"@ + filled(
        rest,
        init,
        jail,
        ctx,
    ));
}

/// A ban of an address alone tells the address, its family and its length.
pub proof fn law_ban_of_an_address(ip: IpAddr, n: Option<u64>)
    ensures
        ({
            let c = info_of_ip(ip, n);
            &&& c.ip == ip::ip_text(ip)
            &&& c.ip_addr == Some(ip)
            &&& c.family == ip::family(ip)
            &&& c.bantime == n
            &&& c.user is None && c.alt_user is None && c.fid is None
            &&& c.failures == 0
            &&& c.matches.len() == 0
        }),
{
}

} // verus!
