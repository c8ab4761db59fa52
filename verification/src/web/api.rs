//! The answers of the web interface.

use crate::protocol;
use crate::protocol::{JailStats, Listing, StatsView};
use crate::text;
use crate::text::Text;
use vstd::prelude::*;

verus! {

/// A value in an answer.
#[derive(Debug)]
pub enum Value {
    /// A text.
    Word(String),
    /// A number.
    Number(i64),
    /// A number that is not negative.
    Count(u64),
    /// A truth value.
    Flag(bool),
    /// Texts.
    Names(Vec<String>),
    /// Nothing.
    Nothing,
}

/// The model of a value in an answer.
pub enum ValueView {
    Word(Text),
    Number(i64),
    Count(u64),
    Flag(bool),
    Names(Seq<Text>),
    Nothing,
}

impl View for Value {
    type V = ValueView;

    open spec fn view(&self) -> ValueView {
        match *self {
            Value::Word(s) => ValueView::Word(s@),
            Value::Number(n) => ValueView::Number(n),
            Value::Count(n) => ValueView::Count(n),
            Value::Flag(b) => ValueView::Flag(b),
            Value::Names(v) => ValueView::Names(text::texts(v@)),
            Value::Nothing => ValueView::Nothing,
        }
    }
}

/// A named value.
#[derive(Debug)]
pub struct Field {
    pub key: &'static str,
    pub value: Value,
}

/// The models of named values.
pub open spec fn field_list(v: Seq<Field>) -> Seq<(Text, ValueView)> {
    v.map_values(|f: Field| (f.key@, f.value@))
}

/// A jail in short.
#[derive(Debug)]
pub struct JailBrief {
    pub name: String,
    pub currently_banned: usize,
    pub total_banned: u64,
    pub currently_failed: usize,
    pub total_failed: usize,
}

/// The model of a jail in short.
#[verifier::ext_equal]
pub struct BriefView {
    pub name: Text,
    pub currently_banned: nat,
    pub total_banned: u64,
    pub currently_failed: nat,
    pub total_failed: nat,
}

impl View for JailBrief {
    type V = BriefView;

    open spec fn view(&self) -> BriefView {
        BriefView {
            name: self.name@,
            currently_banned: self.currently_banned as nat,
            total_banned: self.total_banned,
            currently_failed: self.currently_failed as nat,
            total_failed: self.total_failed as nat,
        }
    }
}

/// The models of jails in short.
pub open spec fn brief_list(v: Seq<JailBrief>) -> Seq<BriefView> {
    v.map_values(|b: JailBrief| b@)
}

/// What an answer carries.
#[derive(Debug)]
pub enum ApiData {
    /// Named values.
    Fields(Vec<Field>),
    /// What is told of a jail.
    Stats(JailStats),
    /// What is told of all jails.
    AllStats(Vec<JailStats>),
    /// Hosts by jail.
    Listings(Vec<Listing>),
    /// The jails in short.
    Briefs(Vec<JailBrief>),
}

/// The model of what an answer carries.
pub enum DataView {
    Fields(Seq<(Text, ValueView)>),
    Stats(StatsView),
    AllStats(Seq<StatsView>),
    Listings(Seq<(Text, Seq<Text>)>),
    Briefs(Seq<BriefView>),
}

impl View for ApiData {
    type V = DataView;

    open spec fn view(&self) -> DataView {
        match *self {
            ApiData::Fields(v) => DataView::Fields(field_list(v@)),
            ApiData::Stats(s) => DataView::Stats(s@),
            ApiData::AllStats(v) => DataView::AllStats(protocol::stats_list(v@)),
            ApiData::Listings(v) => DataView::Listings(protocol::listing_list(v@)),
            ApiData::Briefs(v) => DataView::Briefs(brief_list(v@)),
        }
    }
}

/// The body of an answer.
#[derive(Debug)]
pub struct ApiResponse {
    /// Whether the request succeeded.
    pub ok: bool,
    /// What went wrong.
    pub message: Option<String>,
    /// What there is to tell.
    pub data: Option<ApiData>,
}

/// An answer.
#[derive(Debug)]
pub struct ApiReply {
    /// The status.
    pub status: u16,
    /// The cookie to set.
    pub cookie: Option<String>,
    /// The body.
    pub body: ApiResponse,
}

/// The model of the body of an answer.
pub enum Body {
    /// Success, with something to tell.
    Data(DataView),
    /// Failure, with a message.
    Failure(Text),
}

/// Whether the body of an answer is what the model says.
pub open spec fn carries(r: ApiResponse, b: Body) -> bool {
    match b {
        Body::Data(d) => r.ok && r.message is None && r.data is Some && r.data->0@ == d,
        Body::Failure(m) => !r.ok && text::opt_text(r.message) == Some(m) && r.data is None,
    }
}

/// Whether an answer is what the model says.
pub open spec fn answers(r: ApiReply, status: u16, cookie: Option<Text>, b: Body) -> bool {
    r.status == status && text::opt_text(r.cookie) == cookie && carries(r.body, b)
}

impl ApiResponse {
    /// Success, with something to tell.
    pub fn ok(data: ApiData) -> (r: ApiResponse)
        ensures
            carries(r, Body::Data(data@)),
    {
        ApiResponse { ok: true, message: None, data: Some(data) }
    }

    /// Failure, with a message.
    pub fn err(msg: &str) -> (r: ApiResponse)
        ensures
            carries(r, Body::Failure(msg@)),
    {
        ApiResponse { ok: false, message: Some(msg.to_owned()), data: None }
    }
}

/// Success, with a named value to tell.
pub fn one(k: &'static str, v: Value) -> (r: ApiResponse)
    ensures
        carries(r, Body::Data(DataView::Fields(seq![(k@, v@)]))),
{
    let mut fields: Vec<Field> = Vec::new();
    fields.push(Field { key: k, value: v });
    assert(field_list(fields@) =~= seq![(k@, v@)]);
    ApiResponse::ok(ApiData::Fields(fields))
}

/// Success, with two named values to tell.
pub fn two(k: &'static str, v: Value, l: &'static str, w: Value) -> (r: ApiResponse)
    ensures
        carries(r, Body::Data(DataView::Fields(seq![(k@, v@), (l@, w@)]))),
{
    let mut fields: Vec<Field> = Vec::new();
    fields.push(Field { key: k, value: v });
    fields.push(Field { key: l, value: w });
    assert(field_list(fields@) =~= seq![(k@, v@), (l@, w@)]);
    ApiResponse::ok(ApiData::Fields(fields))
}

/// Success, with three named values to tell.
pub fn three(k: &'static str, v: Value, l: &'static str, w: Value, m: &'static str, x: Value) -> (r:
    ApiResponse)
    ensures
        carries(r, Body::Data(DataView::Fields(seq![(k@, v@), (l@, w@), (m@, x@)]))),
{
    let mut fields: Vec<Field> = Vec::new();
    fields.push(Field { key: k, value: v });
    fields.push(Field { key: l, value: w });
    fields.push(Field { key: m, value: x });
    assert(field_list(fields@) =~= seq![(k@, v@), (l@, w@), (m@, x@)]);
    ApiResponse::ok(ApiData::Fields(fields))
}

/// An answer with data is a success, one with a message is none; a reply has
/// the code and the cookie that it was given.
pub proof fn law_replies(r: ApiReply, status: u16, cookie: Option<Text>, d: DataView, m: Text)
    ensures
        answers(r, status, cookie, Body::Data(d)) <==> r.status == status && text::opt_text(
            r.cookie,
        ) == cookie && r.body.ok && r.body.message is None && (r.body.data matches Some(x) && x@
            == d),
        answers(r, status, cookie, Body::Failure(m)) <==> r.status == status && text::opt_text(
            r.cookie,
        ) == cookie && !r.body.ok && text::opt_text(r.body.message) == Some(m)
            && r.body.data is None,
{
}

} // verus!
