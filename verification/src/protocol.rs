//! What client and server say to each other. Each request and each response is
//! one JSON object on a line of its own.

use crate::error::{Error, ErrorView};
use crate::text;
use crate::text::trim;
use crate::text::Text;
use vstd::prelude::*;

verus! {

/// The default path of the control socket.
pub const DEFAULT_SOCKET: &'static str = "/var/run/rail2ban/rail2ban.sock";

/// How long a client waits by default, in seconds.
pub const DEFAULT_TIMEOUT_SECS: u64 = 30;

/// A request.
#[derive(Debug)]
pub struct Request {
    /// The words of the command, such as `status` and `sshd`.
    pub args: Vec<String>,
}

impl Request {
    /// The request with these words.
    pub fn new(args: Vec<String>) -> (r: Request)
        ensures
            r == (Request { args }),
    {
        Request { args }
    }
}

/// A ban as it is listed.
#[derive(Debug)]
pub struct BanDetail {
    /// The host.
    pub ip: String,
    /// When the ban started, in seconds since 1970.
    pub time_of_ban: i64,
    /// How many seconds it lasts; `None` for ever.
    pub bantime: Option<i128>,
    /// How many failures led to it.
    pub failures: u32,
    /// The lines that led to it.
    pub matches: Vec<String>,
}

/// The model of a ban as it is listed.
#[verifier::ext_equal]
pub struct DetailView {
    pub ip: Text,
    pub time_of_ban: i64,
    pub bantime: Option<i128>,
    pub failures: u32,
    pub matches: Seq<Text>,
}

impl View for BanDetail {
    type V = DetailView;

    open spec fn view(&self) -> DetailView {
        DetailView {
            ip: self.ip@,
            time_of_ban: self.time_of_ban,
            bantime: self.bantime,
            failures: self.failures,
            matches: text::texts(self.matches@),
        }
    }
}

/// The models of bans as they are listed.
pub open spec fn detail_list(v: Seq<BanDetail>) -> Seq<DetailView> {
    v.map_values(|d: BanDetail| d@)
}

/// What is told of a jail.
#[derive(Debug)]
pub struct JailStats {
    /// The jail's name.
    pub jail: String,
    /// Whether it is to run.
    pub enabled: bool,
    /// The name of its filter.
    pub filter: String,
    /// The log files.
    pub logpath: Vec<String>,
    /// How many failures lead to a ban.
    pub maxretry: u32,
    /// How many matched lines a ticket keeps.
    pub maxmatches: u32,
    /// Within how many seconds the failures count.
    pub findtime: u64,
    /// How many seconds a ban lasts.
    pub bantime: u64,
    /// What is done with host names.
    pub usedns: String,
    /// How many hosts are banned.
    pub currently_banned: usize,
    /// How many bans there have been.
    pub total_banned: u64,
    /// How many hosts have failures.
    pub currently_failed: usize,
    /// How many failures there are.
    pub total_failed: usize,
    /// The hosts that are banned.
    pub banned_ips: Vec<String>,
    /// Their bans.
    pub banned_list: Vec<BanDetail>,
}

/// The model of what is told of a jail.
#[verifier::ext_equal]
pub struct StatsView {
    pub jail: Text,
    pub enabled: bool,
    pub filter: Text,
    pub logpath: Seq<Text>,
    pub maxretry: u32,
    pub maxmatches: u32,
    pub findtime: u64,
    pub bantime: u64,
    pub usedns: Text,
    pub currently_banned: nat,
    pub total_banned: u64,
    pub currently_failed: nat,
    pub total_failed: nat,
    pub banned_ips: Seq<Text>,
    pub banned_list: Seq<DetailView>,
}

impl View for JailStats {
    type V = StatsView;

    open spec fn view(&self) -> StatsView {
        StatsView {
            jail: self.jail@,
            enabled: self.enabled,
            filter: self.filter@,
            logpath: text::texts(self.logpath@),
            maxretry: self.maxretry,
            maxmatches: self.maxmatches,
            findtime: self.findtime,
            bantime: self.bantime,
            usedns: self.usedns@,
            currently_banned: self.currently_banned as nat,
            total_banned: self.total_banned,
            currently_failed: self.currently_failed as nat,
            total_failed: self.total_failed as nat,
            banned_ips: text::texts(self.banned_ips@),
            banned_list: detail_list(self.banned_list@),
        }
    }
}

/// Names under a key.
#[derive(Debug)]
pub struct Listing {
    pub key: String,
    pub names: Vec<String>,
}

/// The models of names under keys.
pub open spec fn listing_list(v: Seq<Listing>) -> Seq<(Text, Seq<Text>)> {
    v.map_values(|l: Listing| (l.key@, text::texts(l.names@)))
}

/// The models of what is told of jails.
pub open spec fn stats_list(v: Seq<JailStats>) -> Seq<StatsView> {
    v.map_values(|s: JailStats| s@)
}

/// What a response carries besides its message.
#[derive(Debug)]
pub enum Payload {
    /// The names of the jails.
    Jails(Vec<String>),
    /// What is told of a jail.
    Stats(JailStats),
    /// What is told of all jails.
    AllStats(Vec<JailStats>),
    /// Hosts by jail, or jails by host.
    Listings(Vec<Listing>),
}

/// The model of what a response carries.
pub enum PayloadView {
    Jails(Seq<Text>),
    Stats(StatsView),
    AllStats(Seq<StatsView>),
    Listings(Seq<(Text, Seq<Text>)>),
}

impl View for Payload {
    type V = PayloadView;

    open spec fn view(&self) -> PayloadView {
        match *self {
            Payload::Jails(v) => PayloadView::Jails(text::texts(v@)),
            Payload::Stats(s) => PayloadView::Stats(s@),
            Payload::AllStats(v) => PayloadView::AllStats(stats_list(v@)),
            Payload::Listings(v) => PayloadView::Listings(listing_list(v@)),
        }
    }
}

/// A response.
#[derive(Debug)]
pub struct Response {
    /// Whether the command succeeded.
    pub ok: bool,
    /// A message: what went wrong, or what was done.
    pub message: Option<String>,
    /// What else there is to tell.
    pub data: Option<Payload>,
}

/// The model of a response.
pub enum Answer {
    /// The command succeeded, with a message.
    Said(Text),
    /// The command succeeded, with something to tell.
    Told(PayloadView),
    /// The command failed, with a message.
    Refused(Text),
}

/// Whether a response is what the model says.
pub open spec fn conveys(r: Response, a: Answer) -> bool {
    match a {
        Answer::Said(m) => r.ok && text::opt_text(r.message) == Some(m) && r.data is None,
        Answer::Told(p) => r.ok && r.message is None && r.data is Some && r.data->0@ == p,
        Answer::Refused(m) => !r.ok && text::opt_text(r.message) == Some(m) && r.data is None,
    }
}

impl Response {
    /// Success, with a message.
    pub fn ok(msg: &str) -> (r: Response)
        ensures
            conveys(r, Answer::Said(msg@)),
    {
        Response { ok: true, message: Some(msg.to_owned()), data: None }
    }

    /// Success, with something to tell.
    pub fn ok_data(value: Payload) -> (r: Response)
        ensures
            conveys(r, Answer::Told(value@)),
    {
        Response { ok: true, message: None, data: Some(value) }
    }

    /// Failure, with a message.
    pub fn err(msg: &str) -> (r: Response)
        ensures
            conveys(r, Answer::Refused(msg@)),
    {
        Response { ok: false, message: Some(msg.to_owned()), data: None }
    }
}

/// The request in a line that the server read; an empty line is passed over.
pub fn request_line(line: &str) -> (r: Option<&str>)
    ensures
        match r {
            Some(s) => s@ == trim::trimmed(line@) && s@.len() > 0,
            None => trim::trimmed(line@).len() == 0,
        },
{
    let s = trim::trim(line);
    if s.is_empty() {
        None
    } else {
        Some(s)
    }
}

/// The response in a line that the client read. Where nothing was read the
/// server has closed the connection.
pub fn response_line(line: &str) -> (r: Result<&str, Error>)
    ensures
        match r {
            Ok(s) => line@.len() > 0 && s@ == trim::trimmed(line@),
            Err(e) => line@.len() == 0 && e@ == ErrorView::Protocol(
                "server closed connection without response"@,
            ),
        },
{
    if line.is_empty() {
        return Err(Error::Protocol("server closed connection without response".to_owned()));
    }
    Ok(trim::trim(line))
}

/// The answer to a request that is not valid.
pub fn invalid_request(cause: &str) -> (r: Response)
    ensures
        conveys(r, Answer::Refused("invalid request: "@ + cause@)),
{
    let msg = text::cat2("invalid request: ", cause);
    Response::err(msg.as_str())
}

/// An answer that says or tells something is a success, a refusal is none; a
/// message and something to tell do not come together.
pub proof fn law_answers(r: Response, m: Text, p: PayloadView)
    ensures
        conveys(r, Answer::Said(m)) <==> r.ok && text::opt_text(r.message) == Some(m)
            && r.data is None,
        conveys(r, Answer::Refused(m)) <==> !r.ok && text::opt_text(r.message) == Some(m)
            && r.data is None,
        conveys(r, Answer::Told(p)) <==> r.ok && r.message is None && (r.data matches Some(d) && d@
            == p),
{
}

} // verus!
