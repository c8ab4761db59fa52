//! The errors of the library.

use crate::text;
use crate::text::Text;
use vstd::prelude::*;

verus! {

/// What can go wrong, with a message.
#[derive(Debug)]
pub enum Error {
    /// Configuration parsing or interpolation.
    Config(String),
    /// Regular expression compilation.
    Regex(String),
    /// Input or output.
    Io(String),
    /// The database.
    Database(String),
    /// JSON serialization.
    Json(String),
    /// Time parsing.
    TimeParse(String),
    /// IP address parsing.
    IpParse(String),
    /// The control protocol.
    Protocol(String),
    /// Running an action command.
    Action(String),
    /// A jail that is missing or not running.
    Jail(String),
    /// Anything else.
    Other(String),
}

/// The model of an error.
pub enum ErrorView {
    Config(Text),
    Regex(Text),
    Io(Text),
    Database(Text),
    Json(Text),
    TimeParse(Text),
    IpParse(Text),
    Protocol(Text),
    Action(Text),
    Jail(Text),
    Other(Text),
}

impl View for Error {
    type V = ErrorView;

    open spec fn view(&self) -> ErrorView {
        match *self {
            Error::Config(m) => ErrorView::Config(m@),
            Error::Regex(m) => ErrorView::Regex(m@),
            Error::Io(m) => ErrorView::Io(m@),
            Error::Database(m) => ErrorView::Database(m@),
            Error::Json(m) => ErrorView::Json(m@),
            Error::TimeParse(m) => ErrorView::TimeParse(m@),
            Error::IpParse(m) => ErrorView::IpParse(m@),
            Error::Protocol(m) => ErrorView::Protocol(m@),
            Error::Action(m) => ErrorView::Action(m@),
            Error::Jail(m) => ErrorView::Jail(m@),
            Error::Other(m) => ErrorView::Other(m@),
        }
    }
}

/// The model of a result: the model of the value, or of the error.
pub open spec fn outcome<T: View>(r: Result<T, Error>) -> Result<T::V, ErrorView> {
    match r {
        Ok(v) => Ok(v@),
        Err(e) => Err(e@),
    }
}

/// An error in words: what it is about, and its message.
pub open spec fn error_text(e: ErrorView) -> Text {
    match e {
        ErrorView::Config(m) => "config error: "@ + m,
        ErrorView::Regex(m) => "regex error: "@ + m,
        ErrorView::Io(m) => "io error: "@ + m,
        ErrorView::Database(m) => "database error: "@ + m,
        ErrorView::Json(m) => "json error: "@ + m,
        ErrorView::TimeParse(m) => "time parse error: "@ + m,
        ErrorView::IpParse(m) => "ip parse error: "@ + m,
        ErrorView::Protocol(m) => "protocol error: "@ + m,
        ErrorView::Action(m) => "action error: "@ + m,
        ErrorView::Jail(m) => "jail error: "@ + m,
        ErrorView::Other(m) => m,
    }
}

impl Error {
    /// A configuration error.
    pub fn config(msg: &str) -> (e: Error)
        ensures
            e@ == ErrorView::Config(msg@),
    {
        Error::Config(msg.to_owned())
    }

    /// A regular expression error.
    pub fn regex(msg: &str) -> (e: Error)
        ensures
            e@ == ErrorView::Regex(msg@),
    {
        Error::Regex(msg.to_owned())
    }

    /// An error of no particular kind.
    pub fn other(msg: &str) -> (e: Error)
        ensures
            e@ == ErrorView::Other(msg@),
    {
        Error::Other(msg.to_owned())
    }

    /// The error in words.
    pub fn message(&self) -> (r: String)
        ensures
            r@ == error_text(self@),
    {
        match self {
            Error::Config(m) => text::cat2("config error: ", m.as_str()),
            Error::Regex(m) => text::cat2("regex error: ", m.as_str()),
            Error::Io(m) => text::cat2("io error: ", m.as_str()),
            Error::Database(m) => text::cat2("database error: ", m.as_str()),
            Error::Json(m) => text::cat2("json error: ", m.as_str()),
            Error::TimeParse(m) => text::cat2("time parse error: ", m.as_str()),
            Error::IpParse(m) => text::cat2("ip parse error: ", m.as_str()),
            Error::Protocol(m) => text::cat2("protocol error: ", m.as_str()),
            Error::Action(m) => text::cat2("action error: ", m.as_str()),
            Error::Jail(m) => text::cat2("jail error: ", m.as_str()),
            Error::Other(m) => m.clone(),
        }
    }
}

/// An error says what it is about and then what went wrong.
pub proof fn law_error_texts(m: Text)
    ensures
        error_text(ErrorView::Config(m)) == "config error: "@ + m,
        error_text(ErrorView::Regex(m)) == "regex error: "@ + m,
        error_text(ErrorView::Io(m)) == "io error: "@ + m,
        error_text(ErrorView::Database(m)) == "database error: "@ + m,
        error_text(ErrorView::Json(m)) == "json error: "@ + m,
        error_text(ErrorView::TimeParse(m)) == "time parse error: "@ + m,
        error_text(ErrorView::IpParse(m)) == "ip parse error: "@ + m,
        error_text(ErrorView::Protocol(m)) == "protocol error: "@ + m,
        error_text(ErrorView::Action(m)) == "action error: "@ + m,
        error_text(ErrorView::Jail(m)) == "jail error: "@ + m,
        error_text(ErrorView::Other(m)) == m,
{
}

} // verus!
