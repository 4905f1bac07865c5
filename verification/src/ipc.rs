use vstd::prelude::*;

use crate::text::push_char;

verus! {

/// `serde_json::Value`, the parameters and results of requests; carried as an opaque value.
#[verifier::external_type_specification]
#[verifier::external_body]
pub struct ExJsonValue(serde_json::Value);

/// `Clone` for `serde_json::Value` (a derived deep copy): the copy is the same value.
pub assume_specification[ <serde_json::Value as Clone>::clone ](v: &serde_json::Value) -> (r: serde_json::Value)
    ensures
        r == *v,
;

/// The requests the IPC protocol knows.
#[derive(Clone, Copy, Debug, PartialEq, Eq, Structural)]
pub enum Method {
    SystemPing,
    SystemCapabilities,
    WorkspaceCreate,
    PaneSplit,
    BrowserOpen,
    NotificationCreate,
    EventsStream,
}

/// How a method is written on the wire.
pub open spec fn wire_name_spec(m: Method) -> Seq<char> {
    match m {
        Method::SystemPing => "system.ping"@,
        Method::SystemCapabilities => "system.capabilities"@,
        Method::WorkspaceCreate => "workspace.create"@,
        Method::PaneSplit => "pane.split"@,
        Method::BrowserOpen => "browser.open"@,
        Method::NotificationCreate => "notification.create"@,
        Method::EventsStream => "events.stream"@,
    }
}

/// The method written `s` on the wire, if any.
pub open spec fn method_named(s: Seq<char>) -> Option<Method> {
    if s == "system.ping"@ {
        Some(Method::SystemPing)
    } else if s == "system.capabilities"@ {
        Some(Method::SystemCapabilities)
    } else if s == "workspace.create"@ {
        Some(Method::WorkspaceCreate)
    } else if s == "pane.split"@ {
        Some(Method::PaneSplit)
    } else if s == "browser.open"@ {
        Some(Method::BrowserOpen)
    } else if s == "notification.create"@ {
        Some(Method::NotificationCreate)
    } else if s == "events.stream"@ {
        Some(Method::EventsStream)
    } else {
        None
    }
}

impl Method {
    pub fn wire_name(&self) -> (r: &'static str)
        ensures
            r@ == wire_name_spec(*self),
    {
        match self {
            Method::SystemPing => "system.ping",
            Method::SystemCapabilities => "system.capabilities",
            Method::WorkspaceCreate => "workspace.create",
            Method::PaneSplit => "pane.split",
            Method::BrowserOpen => "browser.open",
            Method::NotificationCreate => "notification.create",
            Method::EventsStream => "events.stream",
        }
    }

    /// The method written `name` on the wire; `None` for a name the protocol does not know.
    pub fn from_wire_name(name: &str) -> (r: Option<Method>)
        ensures
            r == method_named(name@),
    {
        let c = crate::text::str_chars(name);
        if crate::text::chars_equal_str(&c, "system.ping") {
            Some(Method::SystemPing)
        } else if crate::text::chars_equal_str(&c, "system.capabilities") {
            Some(Method::SystemCapabilities)
        } else if crate::text::chars_equal_str(&c, "workspace.create") {
            Some(Method::WorkspaceCreate)
        } else if crate::text::chars_equal_str(&c, "pane.split") {
            Some(Method::PaneSplit)
        } else if crate::text::chars_equal_str(&c, "browser.open") {
            Some(Method::BrowserOpen)
        } else if crate::text::chars_equal_str(&c, "notification.create") {
            Some(Method::NotificationCreate)
        } else if crate::text::chars_equal_str(&c, "events.stream") {
            Some(Method::EventsStream)
        } else {
            None
        }
    }
}

/// Every method reads back as itself from its wire name.
pub proof fn law_method_wire_round_trip(m: Method)
    ensures
        method_named(wire_name_spec(m)) == Some(m),
{
    reveal_strlit("system.ping");
    reveal_strlit("system.capabilities");
    reveal_strlit("workspace.create");
    reveal_strlit("pane.split");
    reveal_strlit("browser.open");
    reveal_strlit("notification.create");
    reveal_strlit("events.stream");
    assert("system.capabilities"@[0] != "notification.create"@[0]);
    assert("system.ping"@.len() == 11);
    assert("system.capabilities"@.len() == 19);
    assert("workspace.create"@.len() == 16);
    assert("pane.split"@.len() == 10);
    assert("browser.open"@.len() == 12);
    assert("notification.create"@.len() == 19);
    assert("events.stream"@.len() == 13);
}

/// A request: its id, what it asks for, and the method's parameters.
#[derive(Clone, Debug, PartialEq)]
pub struct RequestFrame {
    pub id: u64,
    pub method: Method,
    pub params: serde_json::Value,
}

impl RequestFrame {
    pub fn new(id: u64, method: Method, params: serde_json::Value) -> (r: Self)
        ensures
            r == (RequestFrame { id, method, params }),
    {
        RequestFrame { id, method, params }
    }
}

/// Why a request failed.
#[derive(Clone, Debug, PartialEq, Eq)]
pub struct ErrorFrame {
    pub code: String,
    pub message: String,
}

#[derive(Clone, Debug, PartialEq)]
enum ResponsePayload {
    Result(serde_json::Value),
    Error(ErrorFrame),
}

/// A reply to a request: a result or an error, never both.
#[derive(Clone, Debug, PartialEq)]
pub struct ResponseFrame {
    pub id: u64,
    payload: ResponsePayload,
}

pub enum ReplyView {
    Result(serde_json::Value),
    Error(Seq<char>, Seq<char>),
}

impl View for ResponseFrame {
    type V = (u64, ReplyView);

    closed spec fn view(&self) -> (u64, ReplyView) {
        (
            self.id,
            match self.payload {
                ResponsePayload::Result(v) => ReplyView::Result(v),
                ResponsePayload::Error(e) => ReplyView::Error(e.code@, e.message@),
            },
        )
    }
}

/// Why a decoded reply is not a valid response frame.
#[derive(Clone, Copy, Debug, PartialEq, Eq, Structural)]
pub enum ResponseShapeError {
    BothResultAndError,
    NeitherResultNorError,
}

impl ResponseShapeError {
    pub fn message(&self) -> (r: &'static str)
        ensures
            r@ == (match *self {
                ResponseShapeError::BothResultAndError => "response frame must contain either result or error, not both"@,
                ResponseShapeError::NeitherResultNorError => "response frame must contain result or error"@,
            }),
    {
        match self {
            ResponseShapeError::BothResultAndError => "response frame must contain either result or error, not both",
            ResponseShapeError::NeitherResultNorError => "response frame must contain result or error",
        }
    }
}

impl ResponseFrame {
    pub fn ok(id: u64, result: serde_json::Value) -> (r: Self)
        ensures
            r@ == (id, ReplyView::Result(result)),
    {
        ResponseFrame { id, payload: ResponsePayload::Result(result) }
    }

    pub fn error(id: u64, code: &str, message: &str) -> (r: Self)
        ensures
            r@ == (id, ReplyView::Error(code@, message@)),
    {
        ResponseFrame {
            id,
            payload: ResponsePayload::Error(
                ErrorFrame { code: String::from_str(code), message: String::from_str(message) },
            ),
        }
    }

    /// The result, when the reply is one.
    pub fn result(&self) -> (r: Option<&serde_json::Value>)
        ensures
            match self@.1 {
                ReplyView::Result(v) => r == Some(&v),
                ReplyView::Error(_, _) => r is None,
            },
    {
        match &self.payload {
            ResponsePayload::Result(v) => Some(v),
            ResponsePayload::Error(_) => None,
        }
    }

    /// The error, when the reply is one.
    pub fn error_frame(&self) -> (r: Option<&ErrorFrame>)
        ensures
            match self@.1 {
                ReplyView::Result(_) => r is None,
                ReplyView::Error(c, m) => r matches Some(e) && e.code@ == c && e.message@ == m,
            },
    {
        match &self.payload {
            ResponsePayload::Result(_) => None,
            ResponsePayload::Error(e) => Some(e),
        }
    }

    /// A reply from the fields a decoder found: exactly one of a result and an error.
    pub fn from_parts(id: u64, result: Option<serde_json::Value>, error: Option<ErrorFrame>) -> (r: Result<
        Self,
        ResponseShapeError,
    >)
        ensures
            match (result, error) {
                (Some(v), None) => r matches Ok(f) && f@ == (id, ReplyView::Result(v)),
                (None, Some(e)) => r matches Ok(f) && f@ == (id, ReplyView::Error(e.code@, e.message@)),
                (Some(_), Some(_)) => r == Err::<ResponseFrame, ResponseShapeError>(
                    ResponseShapeError::BothResultAndError,
                ),
                (None, None) => r == Err::<ResponseFrame, ResponseShapeError>(
                    ResponseShapeError::NeitherResultNorError,
                ),
            },
    {
        match (result, error) {
            (Some(v), None) => Ok(ResponseFrame { id, payload: ResponsePayload::Result(v) }),
            (None, Some(e)) => Ok(ResponseFrame { id, payload: ResponsePayload::Error(e) }),
            (Some(_), Some(_)) => Err(ResponseShapeError::BothResultAndError),
            (None, None) => Err(ResponseShapeError::NeitherResultNorError),
        }
    }
}

/// A frame's JSON text as one line of the newline-delimited stream.
pub fn json_line(body: String) -> (r: String)
    ensures
        r@ == body@.push('\n'),
{
    let mut line = body;
    push_char(&mut line, '\n');
    line
}

#[derive(Debug)]
pub enum ProtocolError {
    Json(serde_json::Error),
}

} // verus!
