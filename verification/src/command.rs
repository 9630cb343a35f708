//! Requests, responses and the names of the supported commands.

use vstd::prelude::*;
use vstd::utf8::is_ascii_chars;

verus! {

/// A request of a client: the command name and the fields that commands use.
#[derive(Debug)]
pub struct Request {
    pub cmd: String,
    pub key: Option<String>,
    pub value: Option<String>,
    pub seconds: Option<i64>,
}

/// What a request holds, as plain values.
pub struct RequestView {
    pub cmd: Seq<char>,
    pub key: Option<Seq<char>>,
    pub value: Option<Seq<char>>,
    pub seconds: Option<i64>,
}

/// The text of an optional string.
pub open spec fn text_of(o: Option<String>) -> Option<Seq<char>> {
    match o {
        Some(s) => Some(s@),
        None => None,
    }
}

impl View for Request {
    type V = RequestView;

    open spec fn view(&self) -> RequestView {
        RequestView {
            cmd: self.cmd@,
            key: text_of(self.key),
            value: text_of(self.value),
            seconds: self.seconds,
        }
    }
}

/// The value a response carries: JSON `null`, a string, or an integer.
#[derive(Debug, PartialEq)]
pub enum ResponseValue {
    Null,
    Str(String),
    Int(i64),
}

/// A response value, as plain values.
pub enum ValueView {
    Null,
    Str(Seq<char>),
    Int(i64),
}

impl View for ResponseValue {
    type V = ValueView;

    open spec fn view(&self) -> ValueView {
        match self {
            ResponseValue::Null => ValueView::Null,
            ResponseValue::Str(s) => ValueView::Str(s@),
            ResponseValue::Int(n) => ValueView::Int(*n),
        }
    }
}

/// The answer to a request: a status (`"ok"` or `"error"`) and the optional
/// fields that some commands fill in.
#[derive(Debug)]
pub struct Response {
    pub status: String,
    pub value: Option<ResponseValue>,
    pub count: Option<u32>,
    pub keys: Option<Vec<String>>,
    pub ttl: Option<i64>,
    pub message: Option<String>,
}

/// A response, as plain values.
pub struct ResponseView {
    pub status: Seq<char>,
    pub value: Option<ValueView>,
    pub count: Option<u32>,
    pub keys: Option<Seq<Seq<char>>>,
    pub ttl: Option<i64>,
    pub message: Option<Seq<char>>,
}

/// The texts of a list of strings.
pub open spec fn texts_of(v: Seq<String>) -> Seq<Seq<char>> {
    v.map_values(|s: String| s@)
}

impl View for Response {
    type V = ResponseView;

    open spec fn view(&self) -> ResponseView {
        ResponseView {
            status: self.status@,
            value: match self.value {
                Some(v) => Some(v@),
                None => None,
            },
            count: self.count,
            keys: match self.keys {
                Some(ks) => Some(texts_of(ks@)),
                None => None,
            },
            ttl: self.ttl,
            message: text_of(self.message),
        }
    }
}

/// A success response with no further field.
pub open spec fn ok_view() -> ResponseView {
    ResponseView {
        status: "ok"@,
        value: None,
        count: None,
        keys: None,
        ttl: None,
        message: None,
    }
}

/// An error response with the given message.
pub open spec fn error_view(message: Seq<char>) -> ResponseView {
    ResponseView {
        status: "error"@,
        value: None,
        count: None,
        keys: None,
        ttl: None,
        message: Some(message),
    }
}

impl Response {
    /// A success response.
    pub fn ok() -> (r: Response)
        ensures
            r@ == ok_view(),
    {
        Response {
            status: "ok".to_owned(),
            value: None,
            count: None,
            keys: None,
            ttl: None,
            message: None,
        }
    }

    /// An error response carrying `message`.
    pub fn error(message: &str) -> (r: Response)
        ensures
            r@ == error_view(message@),
    {
        Response {
            status: "error".to_owned(),
            value: None,
            count: None,
            keys: None,
            ttl: None,
            message: Some(message.to_owned()),
        }
    }

    /// The same response carrying `value`.
    pub fn with_value(self, value: ResponseValue) -> (r: Response)
        ensures
            r@ == (ResponseView { value: Some(value@), ..self@ }),
    {
        Response { value: Some(value), ..self }
    }

    /// The same response carrying a count.
    pub fn with_count(self, count: u32) -> (r: Response)
        ensures
            r@ == (ResponseView { count: Some(count), ..self@ }),
    {
        Response { count: Some(count), ..self }
    }

    /// The same response carrying a list of keys.
    pub fn with_keys(self, keys: Vec<String>) -> (r: Response)
        ensures
            r@ == (ResponseView { keys: Some(texts_of(keys@)), ..self@ }),
    {
        Response { keys: Some(keys), ..self }
    }

    /// The same response carrying a time to live.
    pub fn with_ttl(self, ttl: i64) -> (r: Response)
        ensures
            r@ == (ResponseView { ttl: Some(ttl), ..self@ }),
    {
        Response { ttl: Some(ttl), ..self }
    }
}

/// The commands the server understands.
#[derive(Debug, Clone, Copy, PartialEq, Eq, Structural)]
pub enum Command {
    Ping,
    SetKey,
    Get,
    Del,
    Keys,
    Expire,
    Ttl,
    Incr,
    Decr,
    Save,
}

/// The command whose name is exactly `name` (names are upper case).
pub open spec fn command_named(name: Seq<char>) -> Option<Command> {
    if name == "PING"@ {
        Some(Command::Ping)
    } else if name == "SET"@ {
        Some(Command::SetKey)
    } else if name == "GET"@ {
        Some(Command::Get)
    } else if name == "DEL"@ {
        Some(Command::Del)
    } else if name == "KEYS"@ {
        Some(Command::Keys)
    } else if name == "EXPIRE"@ {
        Some(Command::Expire)
    } else if name == "TTL"@ {
        Some(Command::Ttl)
    } else if name == "INCR"@ {
        Some(Command::Incr)
    } else if name == "DECR"@ {
        Some(Command::Decr)
    } else if name == "SAVE"@ {
        Some(Command::Save)
    } else {
        None
    }
}

/// What `str::to_uppercase` returns for a string (Unicode upper-casing).
pub uninterp spec fn uppercase_of(s: Seq<char>) -> Seq<char>;

/// The upper case of an ASCII character: `a`..`z` become `A`..`Z`, every
/// other character stays as it is.
pub open spec fn ascii_upper(c: char) -> char {
    if 'a' <= c <= 'z' {
        ((c as u32) - 32) as char
    } else {
        c
    }
}

/// Calls `str::to_uppercase`; the result is named `uppercase_of` of the input.
/// The contract also states the one short fact of Unicode case mapping that
/// callers use: an ASCII text is upper-cased character by character, with
/// `a`..`z` mapped to `A`..`Z` and the other ASCII characters unchanged.
#[verifier::external_body]
fn to_uppercase(s: &str) -> (r: String)
    ensures
        r@ == uppercase_of(s@),
        is_ascii_chars(s@) ==> r@ == s@.map_values(|c: char| ascii_upper(c)),
{
    s.to_uppercase()
}

/// Whether two string slices hold the same characters.
fn same_text(a: &str, b: &str) -> (r: bool)
    ensures
        r == (a@ == b@),
{
    let x: String = a.to_owned();
    let y: String = b.to_owned();
    x == y
}

impl Command {
    /// The command named exactly `name`, if any (no case folding).
    pub fn from_name(name: &str) -> (r: Option<Command>)
        ensures
            r == command_named(name@),
    {
        if same_text(name, "PING") {
            Some(Command::Ping)
        } else if same_text(name, "SET") {
            Some(Command::SetKey)
        } else if same_text(name, "GET") {
            Some(Command::Get)
        } else if same_text(name, "DEL") {
            Some(Command::Del)
        } else if same_text(name, "KEYS") {
            Some(Command::Keys)
        } else if same_text(name, "EXPIRE") {
            Some(Command::Expire)
        } else if same_text(name, "TTL") {
            Some(Command::Ttl)
        } else if same_text(name, "INCR") {
            Some(Command::Incr)
        } else if same_text(name, "DECR") {
            Some(Command::Decr)
        } else if same_text(name, "SAVE") {
            Some(Command::Save)
        } else {
            None
        }
    }

    /// Parses a command name, ignoring case: the name is upper-cased first.
    pub fn from_str(s: &str) -> (r: Option<Command>)
        ensures
            r == command_named(uppercase_of(s@)),
            is_ascii_chars(s@) ==> r == command_named(s@.map_values(|c: char| ascii_upper(c))),
    {
        let upper = to_uppercase(s);
        Command::from_name(upper.as_str())
    }
}

} // verus!
