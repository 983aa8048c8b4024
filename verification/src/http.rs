//! What the client asks of the server, and what comes back, as plain values.

use vstd::prelude::*;

verus! {

/// The method of a request.
#[derive(Debug, Clone, Copy, PartialEq, Eq, Structural)]
pub enum Method {
    Get,
    Put,
    Post,
    Patch,
    Delete,
}

/// What a request carries.
#[derive(Debug)]
pub enum Body {
    /// Nothing.
    Empty,
    /// Raw bytes.
    Bytes(Vec<u8>),
    /// The JSON object `{"from": .., "to": ..}`.
    Rename { from: String, to: String },
    /// The JSON object `{"mode": ..}`.
    Mode(Option<u32>),
    /// The JSON object `{"new_path": ..}`.
    NewPath(String),
}

/// A request to the server.
#[derive(Debug)]
pub struct Request {
    pub method: Method,
    pub url: String,
    /// The value of the `Content-Range` header, where there is one.
    pub content_range: Option<String>,
    /// The value of the `Content-Type` header, where one is set.
    pub content_type: Option<String>,
    pub body: Body,
}

/// The model of a request's body.
pub enum BodyView {
    Empty,
    Bytes(Seq<u8>),
    Rename { from: Seq<char>, to: Seq<char> },
    Mode(Option<u32>),
    NewPath(Seq<char>),
}

/// The model of a request.
pub struct RequestView {
    pub method: Method,
    pub url: Seq<char>,
    pub content_range: Option<Seq<char>>,
    pub content_type: Option<Seq<char>>,
    pub body: BodyView,
}

impl View for Body {
    type V = BodyView;

    open spec fn view(&self) -> BodyView {
        match self {
            Body::Empty => BodyView::Empty,
            Body::Bytes(b) => BodyView::Bytes(b@),
            Body::Rename { from, to } => BodyView::Rename { from: from@, to: to@ },
            Body::Mode(m) => BodyView::Mode(*m),
            Body::NewPath(p) => BodyView::NewPath(p@),
        }
    }
}

impl View for Request {
    type V = RequestView;

    open spec fn view(&self) -> RequestView {
        RequestView {
            method: self.method,
            url: self.url@,
            content_range: match self.content_range {
                Some(c) => Some(c@),
                None => None,
            },
            content_type: match self.content_type {
                Some(c) => Some(c@),
                None => None,
            },
            body: self.body@,
        }
    }
}

/// A request that sets no header.
pub open spec fn plain_request(method: Method, url: Seq<char>, body: BodyView) -> RequestView {
    RequestView { method, url, content_range: None, content_type: None, body }
}

/// Why no answer came from the server.
#[derive(Debug)]
pub enum NetworkFault {
    /// The time limit of the connection or of the request was reached.
    Timeout,
    /// No connection could be made.
    Connect,
    /// Anything else, in the words of the HTTP client.
    Other(String),
}

/// What became of a request.
#[derive(Debug)]
pub enum Exchange<T> {
    /// No answer came.
    Failed(NetworkFault),
    /// An answer came: its status and what reading its body gave, which is the
    /// reader's complaint where the body could not be read. The body is of
    /// interest only behind a status that tells of success.
    Answered { status: u16, body: Result<T, String> },
}

/// The status tells of success.
pub open spec fn success(status: u16) -> bool {
    200 <= status < 300
}

/// The status lays the failure at the client's door.
pub open spec fn client_error(status: u16) -> bool {
    400 <= status < 500
}

/// Whether the status tells of success.
pub fn is_success(status: u16) -> (r: bool)
    ensures
        r == success(status),
        r <==> status / 100 == 2,
{
    200 <= status && status < 300
}

/// Whether the status lays the failure at the client's door.
pub fn is_client_error(status: u16) -> (r: bool)
    ensures
        r == client_error(status),
        r <==> status / 100 == 4,
{
    400 <= status && status < 500
}

/// A status tells of success if and only if its first digit of three is a two,
/// and lays the failure at the client's door if and only if it is a four.
pub proof fn law_status_classes(status: u16)
    ensures
        success(status) <==> status / 100 == 2,
        client_error(status) <==> status / 100 == 4,
        !(success(status) && client_error(status)),
{
}

} // verus!
