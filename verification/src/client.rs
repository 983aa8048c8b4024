//! The client's operations on the server: which requests each of them makes, and
//! what the answers mean.
//!
//! An operation is a function of what was answered so far. It says what to send
//! next, or how it ended.

use vstd::prelude::*;
use vstd::string::*;

use crate::api::{
    fault_errno, fault_words, status_errno, status_words, ApiError, FileEntry,
};
use crate::bytes::{copy_of, slice, slice_of, splice, spliced};
use crate::errno::Errno;
use crate::http::{
    client_error, is_client_error, is_success, plain_request, success, Body, BodyView, Exchange,
    Method, Request, RequestView,
};
use crate::numeral::{decimal, render_decimal};
use crate::paths::{lemma_split_at, lemma_split_single};
use crate::text::{
    owned, same_text, split, split_char, texts, trim_start, trim_start_char,
};

verus! {

/// How often a chunk write is tried again.
pub const MAX_RETRIES: u32 = 4;

/// Where an operation stands.
#[derive(Debug)]
pub enum Step<T> {
    /// It ended.
    Done(Result<T, ApiError>),
    /// This request has to be sent next.
    Send(Request),
}

/// Where a write that is tried again stands.
#[derive(Debug)]
pub enum RetryStep {
    /// It ended.
    Done(Result<(), ApiError>),
    /// This request has to be sent next.
    Send(Request),
    /// The request has to be sent again once so many milliseconds have passed,
    /// as the attempt with this number.
    Wait { millis: u64, attempt: u32 },
}

/// The path goes up: one of its segments is `..`.
pub open spec fn traverses(path: Seq<char>) -> bool {
    split(path, '/').contains(".."@)
}

/// The error is that for a path that goes up.
pub open spec fn refused<T>(r: Result<T, ApiError>, operation: Seq<char>) -> bool {
    r matches Err(e) && e.is(Errno::Inval, operation, "Invalid path traversal attempt"@)
}

/// The address of `path` below the route `route` of the server.
pub open spec fn address(base: Seq<char>, route: Seq<char>, path: Seq<char>) -> Seq<char> {
    base + route + trim_start(path, '/')
}

/// How an operation ends whose answer carries a value. A value that could not
/// be read is an input/output error, `complaint` standing before the reader's
/// words.
pub open spec fn settled<T>(
    exchange: Exchange<T>,
    operation: Seq<char>,
    complaint: Seq<char>,
    r: Result<T, ApiError>,
) -> bool {
    match exchange {
        Exchange::Failed(fault) => r matches Err(e) && e.is(
            fault_errno(fault),
            operation,
            fault_words(fault),
        ),
        Exchange::Answered { status, body } => if success(status) {
            match body {
                Ok(value) => r == Ok::<T, ApiError>(value),
                Err(words) => r matches Err(e) && e.is(Errno::Io, operation, complaint + words@),
            }
        } else {
            r matches Err(e) && e.is(
                status_errno(status, operation),
                operation,
                status_words(status, operation),
            )
        },
    }
}

/// How an operation ends of whose answer only the status counts.
pub open spec fn acknowledged(
    exchange: Exchange<()>,
    operation: Seq<char>,
    r: Result<(), ApiError>,
) -> bool {
    match exchange {
        Exchange::Failed(fault) => r matches Err(e) && e.is(
            fault_errno(fault),
            operation,
            fault_words(fault),
        ),
        Exchange::Answered { status, .. } => if success(status) {
            r is Ok
        } else {
            r matches Err(e) && e.is(
                status_errno(status, operation),
                operation,
                status_words(status, operation),
            )
        },
    }
}

/// The value of the `Content-Range` header for bytes `from` to `to`.
pub open spec fn range_header(from: nat, to: nat) -> Seq<char> {
    "bytes "@ + decimal(from) + "-"@ + decimal(to) + "/*"@
}

/// The request that writes `data` at `offset`.
pub open spec fn patch_request(
    base: Seq<char>,
    path: Seq<char>,
    offset: nat,
    data: Seq<u8>,
) -> RequestView {
    RequestView {
        method: Method::Patch,
        url: address(base, "/files/"@, path),
        content_range: Some(range_header(offset, (offset + data.len() - 1) as nat)),
        content_type: None,
        body: BodyView::Bytes(data),
    }
}

/// The server does not take partial writes.
pub open spec fn unsupported(exchange: Exchange<()>) -> bool {
    exchange matches Exchange::Answered { status, .. } && status == 405
}

/// What the file held, as far as a whole-file read tells: nothing where there
/// is no such file, and `None` where the read failed otherwise.
pub open spec fn held(read: Exchange<Vec<u8>>) -> Option<Seq<u8>> {
    match read {
        Exchange::Answered { status, body } => if success(status) {
            match body {
                Ok(bytes) => Some(bytes@),
                Err(_) => None,
            }
        } else if status == 404 {
            Some(Seq::empty())
        } else {
            None
        },
        Exchange::Failed(_) => None,
    }
}

/// How many milliseconds pass before attempt number `attempt`: half a second,
/// doubled with each attempt.
pub open spec fn delay(attempt: nat) -> nat
    decreases attempt,
{
    if attempt == 0 {
        500
    } else {
        2 * delay((attempt - 1) as nat)
    }
}

/// The answer says that trying again will not help.
pub open spec fn hopeless(exchange: Exchange<()>) -> bool {
    exchange matches Exchange::Answered { status, .. } && client_error(status) && status != 429
        && status != 408
}

/// The answer tells of success.
pub open spec fn accepted(exchange: Exchange<()>) -> bool {
    exchange matches Exchange::Answered { status, .. } && success(status)
}

/// The step after the answer `exchange` to attempt number `attempt`.
pub open spec fn retried(
    exchange: Exchange<()>,
    attempt: nat,
    operation: Seq<char>,
    step: RetryStep,
) -> bool {
    if accepted(exchange) || hopeless(exchange) || attempt >= MAX_RETRIES {
        step matches RetryStep::Done(r) && acknowledged(exchange, operation, r)
    } else {
        step matches RetryStep::Wait { millis, attempt: next } && next == attempt + 1 && millis
            == delay(attempt + 1)
    }
}

/// The client of one server.
#[derive(Debug)]
pub struct ApiClient {
    pub base_url: String,
}

/// The address of `path` below a route of the server.
fn address_of(base: &String, route: &str, path: &str) -> (url: String)
    ensures
        url@ == address(base@, route@, path@),
{
    let mut url = base.clone();
    url.append(route);
    url.append(trim_start_char(path, '/'));
    url
}

/// The value of the `Content-Range` header for bytes `from` to `to`.
pub fn render_range(from: u64, to: u64) -> (s: String)
    ensures
        s@ == range_header(from as nat, to as nat),
{
    let mut s = owned("bytes ");
    s.append(render_decimal(from).as_str());
    s.append("-");
    s.append(render_decimal(to).as_str());
    s.append("/*");
    s
}

/// How an operation ends whose answer carries a value.
pub fn settle<T>(exchange: Exchange<T>, operation: &str, complaint: &str) -> (r: Result<
    T,
    ApiError,
>)
    ensures
        settled(exchange, operation@, complaint@, r),
{
    match exchange {
        Exchange::Failed(fault) => Err(ApiError::from_network_error(operation, &fault)),
        Exchange::Answered { status, body } => if is_success(status) {
            match body {
                Ok(value) => Ok(value),
                Err(words) => {
                    let mut detail = owned(complaint);
                    detail.append(words.as_str());
                    Err(ApiError::io_error(operation, detail.as_str()))
                },
            }
        } else {
            Err(ApiError::from_status(status, operation))
        },
    }
}

/// How an operation ends of whose answer only the status counts.
pub fn acknowledge(exchange: Exchange<()>, operation: &str) -> (r: Result<(), ApiError>)
    ensures
        acknowledged(exchange, operation@, r),
{
    match exchange {
        Exchange::Failed(fault) => Err(ApiError::from_network_error(operation, &fault)),
        Exchange::Answered { status, .. } => if is_success(status) {
            Ok(())
        } else {
            Err(ApiError::from_status(status, operation))
        },
    }
}

impl ApiClient {
    /// A client of the server at `base_url`.
    pub fn new(base_url: String) -> (c: Self)
        ensures
            c.base_url@ == base_url@,
    {
        ApiClient { base_url }
    }

    /// Refuses a path that goes up.
    pub fn validate_path(path: &str, operation: &str) -> (r: Result<(), ApiError>)
        ensures
            r is Ok <==> !traverses(path@),
            traverses(path@) ==> refused(r, operation@),
    {
        let segments = split_char(path, '/');
        for i in 0..segments.len()
            invariant
                texts(segments@) == split(path@, '/'),
                forall|k: int| 0 <= k < i ==> (#[trigger] segments@[k])@ != ".."@,
        {
            if same_text(segments[i].as_str(), "..") {
                assert(texts(segments@)[i as int] == ".."@);
                return Err(
                    ApiError {
                        errno: Errno::Inval,
                        message: crate::api::labelled(operation, "Invalid path traversal attempt"),
                    },
                );
            }
        }
        proof {
            if traverses(path@) {
                let k = choose|k: int|
                    0 <= k < split(path@, '/').len() && split(path@, '/')[k] == ".."@;
                assert(texts(segments@)[k] == segments@[k]@);
            }
        }
        Ok(())
    }

    /// A request without a body for the address of `path` below `route`.
    fn plain(&self, method: Method, route: &str, path: &str) -> (r: Request)
        ensures
            r@ == plain_request(
                method,
                address(self.base_url@, route@, path@),
                BodyView::Empty,
            ),
    {
        Request {
            method,
            url: address_of(&self.base_url, route, path),
            content_range: None,
            content_type: None,
            body: Body::Empty,
        }
    }

    /// The entries of the directory `path`.
    pub fn list_directory(&self, path: &str, answer: Option<Exchange<Vec<FileEntry>>>) -> (step:
        Step<Vec<FileEntry>>)
        ensures
            if traverses(path@) {
                step matches Step::Done(r) && refused(r, "list_directory"@)
            } else {
                match answer {
                    None => step matches Step::Send(q) && q@ == plain_request(
                        Method::Get,
                        address(self.base_url@, "/list/"@, path@),
                        BodyView::Empty,
                    ),
                    Some(x) => step matches Step::Done(r) && settled(
                        x,
                        "list_directory"@,
                        "Failed to parse response: "@,
                        r,
                    ),
                }
            },
            (step matches Step::Done(r) && r is Ok) <==> (!traverses(path@) && (answer matches Some(
                Exchange::Answered { status, body },
            ) && 200 <= status <= 299 && body is Ok)),
            (step matches Step::Done(Err(e)) && e.errno == Errno::NoEnt) <==> (!traverses(path@) && (
            answer matches Some(Exchange::Answered { status, .. }) && status == 404)),
            step is Send <==> !traverses(path@) && answer is None,
            step matches Step::Done(Ok(got)) ==> (answer matches Some(
                Exchange::Answered { body: Ok(sent), .. },
            ) && got@.len() == sent@.len() && forall|i: int|
                0 <= i < sent@.len() ==> #[trigger] got@[i] == sent@[i]),
            step matches Step::Send(q) ==> q.method == Method::Get && q.body is Empty,
            step matches Step::Send(q) ==> q.url@ == self.base_url@ + "/list/"@ + trim_start(path@, '/')
                && q.content_range is None && q.content_type is None,
    {
        if let Err(e) = ApiClient::validate_path(path, "list_directory") {
            return Step::Done(Err(e));
        }
        match answer {
            None => Step::Send(self.plain(Method::Get, "/list/", path)),
            Some(x) => Step::Done(settle(x, "list_directory", "Failed to parse response: ")),
        }
    }

    /// The contents of the file `path`.
    pub fn read_file(&self, path: &str, answer: Option<Exchange<Vec<u8>>>) -> (step: Step<Vec<u8>>)
        ensures
            if traverses(path@) {
                step matches Step::Done(r) && refused(r, "read_file"@)
            } else {
                match answer {
                    None => step matches Step::Send(q) && q@ == plain_request(
                        Method::Get,
                        address(self.base_url@, "/files/"@, path@),
                        BodyView::Empty,
                    ),
                    Some(x) => step matches Step::Done(r) && settled(
                        x,
                        "read_file"@,
                        "Failed to read response: "@,
                        r,
                    ),
                }
            },
            (step matches Step::Done(r) && r is Ok) <==> (!traverses(path@) && (answer matches Some(
                Exchange::Answered { status, body },
            ) && 200 <= status <= 299 && body is Ok)),
            (step matches Step::Done(Err(e)) && e.errno == Errno::NoEnt) <==> (!traverses(path@) && (
            answer matches Some(Exchange::Answered { status, .. }) && status == 404)),
            step is Send <==> !traverses(path@) && answer is None,
            step matches Step::Done(Ok(got)) ==> (answer matches Some(
                Exchange::Answered { body: Ok(sent), .. },
            ) && got@.len() == sent@.len() && forall|i: int|
                0 <= i < sent@.len() ==> #[trigger] got@[i] == sent@[i]),
            step matches Step::Send(q) ==> q.method == Method::Get && q.body is Empty,
            step matches Step::Send(q) ==> q.url@ == self.base_url@ + "/files/"@ + trim_start(path@, '/')
                && q.content_range is None && q.content_type is None,
    {
        if let Err(e) = ApiClient::validate_path(path, "read_file") {
            return Step::Done(Err(e));
        }
        match answer {
            None => Step::Send(self.plain(Method::Get, "/files/", path)),
            Some(x) => Step::Done(settle(x, "read_file", "Failed to read response: ")),
        }
    }

    /// Up to `size` bytes of the file `path` from `offset` on. Nothing is asked
    /// of the server for no bytes, and what it sends beyond `size` is cut off.
    pub fn read_file_chunk(
        &self,
        path: &str,
        offset: u64,
        size: u32,
        answer: Option<Exchange<Vec<u8>>>,
    ) -> (step: Step<Vec<u8>>)
        ensures
            if traverses(path@) {
                step matches Step::Done(r) && refused(r, "read_file_chunk"@)
            } else if size == 0 {
                step matches Step::Done(Ok(bytes)) && bytes@.len() == 0
            } else {
                match answer {
                    None => step matches Step::Send(q) && q@ == plain_request(
                        Method::Get,
                        address(self.base_url@, "/files/"@, path@) + "?offset="@ + decimal(
                            offset as nat,
                        ) + "&size="@ + decimal(size as nat),
                        BodyView::Empty,
                    ),
                    Some(Exchange::Answered { status, body: Ok(bytes) }) if success(status) => {
                        step matches Step::Done(Ok(cut)) && cut@ == slice(
                            bytes@,
                            0,
                            size as int,
                        )
                    },
                    Some(x) => step matches Step::Done(r) && settled(
                        x,
                        "read_file_chunk"@,
                        "Failed to read response: "@,
                        r,
                    ),
                }
            },
            step is Send <==> !traverses(path@) && size > 0 && answer is None,
            size > 0 ==> ((step matches Step::Done(r) && r is Ok) <==> (!traverses(path@) && (
            answer matches Some(Exchange::Answered { status, body }) && 200 <= status <= 299
                && body is Ok))),
            size > 0 ==> (step matches Step::Done(Ok(got)) ==> (answer matches Some(
                Exchange::Answered { body: Ok(sent), .. },
            ) && got@.len() == (if sent@.len() <= size {
                sent@.len()
            } else {
                size as nat
            }) && forall|i: int| 0 <= i < got@.len() ==> #[trigger] got@[i] == sent@[i])),
            step matches Step::Send(q) ==> q.method == Method::Get && q.body is Empty,
            step matches Step::Send(q) ==> q.url@ == self.base_url@ + "/files/"@ + trim_start(path@, '/')
                + "?offset="@ + decimal(offset as nat) + "&size="@ + decimal(size as nat),
    {
        if let Err(e) = ApiClient::validate_path(path, "read_file_chunk") {
            return Step::Done(Err(e));
        }
        if size == 0 {
            return Step::Done(Ok(Vec::new()));
        }
        match answer {
            None => {
                let mut url = address_of(&self.base_url, "/files/", path);
                url.append("?offset=");
                url.append(render_decimal(offset).as_str());
                url.append("&size=");
                url.append(render_decimal(size as u64).as_str());
                Step::Send(
                    Request { method: Method::Get, url, content_range: None, content_type: None, body: Body::Empty },
                )
            },
            Some(x) => match settle(x, "read_file_chunk", "Failed to read response: ") {
                Ok(bytes) => Step::Done(Ok(slice_of(&bytes, 0, size as u64))),
                Err(e) => Step::Done(Err(e)),
            },
        }
    }

    /// Makes `data` the contents of the file `path`.
    pub fn write_file(&self, path: &str, data: &Vec<u8>, answer: Option<Exchange<()>>) -> (step:
        Step<()>)
        ensures
            if traverses(path@) {
                step matches Step::Done(r) && refused(r, "write_file"@)
            } else {
                match answer {
                    None => step matches Step::Send(q) && q@ == plain_request(
                        Method::Put,
                        address(self.base_url@, "/files/"@, path@),
                        BodyView::Bytes(data@),
                    ),
                    Some(x) => step matches Step::Done(r) && acknowledged(x, "write_file"@, r),
                }
            },
            (step matches Step::Done(r) && r is Ok) <==> (!traverses(path@) && (answer matches Some(
                Exchange::Answered { status, .. },
            ) && 200 <= status <= 299)),
            (step matches Step::Done(Err(e)) && e.errno == Errno::NoEnt) <==> (!traverses(path@) && (
            answer matches Some(Exchange::Answered { status, .. }) && status == 404)),
            step is Send <==> !traverses(path@) && answer is None,
            step matches Step::Send(q) ==> q.method == Method::Put && (q.body matches Body::Bytes(b) && b@ == data@),
            step matches Step::Send(q) ==> q.url@ == self.base_url@ + "/files/"@ + trim_start(path@, '/')
                && q.content_range is None && q.content_type is None,
    {
        if let Err(e) = ApiClient::validate_path(path, "write_file") {
            return Step::Done(Err(e));
        }
        match answer {
            None => Step::Send(
                Request {
                    method: Method::Put,
                    url: address_of(&self.base_url, "/files/", path),
                    content_range: None,
                    content_type: None,
                    body: Body::Bytes(copy_of(data)),
                },
            ),
            Some(x) => Step::Done(acknowledge(x, "write_file")),
        }
    }

    /// Writes `data` into the file `path` at `offset`. Nothing is sent for no
    /// data. A server that does not take partial writes is asked for the whole
    /// file (`read`), which is then written back with the data in it
    /// (`written`).
    pub fn write_file_chunk(
        &self,
        path: &str,
        offset: u64,
        data: &Vec<u8>,
        patched: Option<Exchange<()>>,
        read: Option<Exchange<Vec<u8>>>,
        written: Option<Exchange<()>>,
    ) -> (step: Step<()>)
        requires
            (patched matches Some(x) && unsupported(x)) ==> offset + data@.len() <= usize::MAX,
        ensures
            if traverses(path@) {
                step matches Step::Done(r) && refused(r, "write_file_chunk"@)
            } else if data@.len() == 0 {
                step matches Step::Done(Ok(_))
            } else if offset + data@.len() - 1 > u64::MAX {
                step matches Step::Done(Err(e)) && e.is(
                    Errno::Io,
                    "write_file_chunk"@,
                    "Invalid range overflow"@,
                )
            } else {
                match patched {
                    None => step matches Step::Send(q) && q@ == patch_request(
                        self.base_url@,
                        path@,
                        offset as nat,
                        data@,
                    ),
                    Some(x) => if unsupported(x) {
                        self.rewritten(path@, offset as int, data@, read, written, step)
                    } else {
                        step matches Step::Done(r) && acknowledged(x, "write_file_chunk"@, r)
                    },
                }
            },
            !traverses(path@) && data@.len() > 0 && (patched matches Some(
                Exchange::Answered { status, .. },
            ) && status != 405 && (status < 200 || status > 299)) ==> step matches Step::Done(Err(_)),
            !traverses(path@) && (patched matches Some(Exchange::Answered { status, .. }) && 200
                <= status <= 299) && offset + data@.len() - 1 <= u64::MAX ==> step matches Step::Done(
                Ok(_),
            ),
            !traverses(path@) && (patched matches Some(Exchange::Failed(_))) && data@.len() > 0
                ==> step matches Step::Done(Err(_)),
            (step matches Step::Done(r) && r is Ok) && data@.len() > 0 ==> (patched matches Some(
                Exchange::Answered { status, .. },
            ) && (200 <= status <= 299 || (status == 405 && (written matches Some(
                Exchange::Answered { status: again, .. },
            ) && 200 <= again <= 299)))),
            patched is None ==> (step matches Step::Send(q) ==> q.method == Method::Patch && (
            q.body matches Body::Bytes(b) && b@ == data@) && q.content_range is Some),
            step matches Step::Send(q) ==> q.url@ == self.base_url@ + "/files/"@ + trim_start(path@, '/'),
            patched is None ==> (step matches Step::Send(q) ==> (q.content_range matches Some(c) && c@
                == "bytes "@ + decimal(offset as nat) + "-"@ + decimal((offset + data@.len() - 1) as nat)
                + "/*"@)),
            patched is Some && read is None ==> (step matches Step::Send(q) ==> q.method == Method::Get
                && q.body is Empty),
            patched is Some ==> (read matches Some(Exchange::Answered { status, body: Ok(bytes) }) ==> (200
                <= status && status <= 299 ==> (step matches Step::Send(q) ==> q.method == Method::Put && (
            q.body matches Body::Bytes(b) && b@.len() == (if bytes@.len() < offset + data@.len() {
                offset + data@.len()
            } else {
                bytes@.len() as int
            }) && (forall|i: int|
                offset <= i < offset + data@.len() ==> #[trigger] b@[i] == data@[i - offset]) && (forall|i: int|
                0 <= i < bytes@.len() && !(offset <= i < offset + data@.len()) ==> #[trigger] b@[i]
                    == bytes@[i]))))),
    {
        if let Err(e) = ApiClient::validate_path(path, "write_file_chunk") {
            return Step::Done(Err(e));
        }
        if data.len() == 0 {
            return Step::Done(Ok(()));
        }
        let end: u64 = match offset.checked_add(data.len() as u64 - 1) {
            Some(end) => end,
            None => {
                return Step::Done(
                    Err(ApiError::io_error("write_file_chunk", "Invalid range overflow")),
                );
            },
        };
        match patched {
            None => Step::Send(
                Request {
                    method: Method::Patch,
                    url: address_of(&self.base_url, "/files/", path),
                    content_range: Some(render_range(offset, end)),
                    content_type: None,
                    body: Body::Bytes(copy_of(data)),
                },
            ),
            Some(x) => {
                let unsupported = match x {
                    Exchange::Answered { status, .. } => status == 405,
                    Exchange::Failed(_) => false,
                };
                if unsupported {
                    self.write_file_chunk_fallback(path, offset, data, read, written)
                } else {
                    Step::Done(acknowledge(x, "write_file_chunk"))
                }
            },
        }
    }

    /// The step of a write that reads the whole file, changes it, and writes it
    /// back.
    pub open spec fn rewritten(
        &self,
        path: Seq<char>,
        offset: int,
        data: Seq<u8>,
        read: Option<Exchange<Vec<u8>>>,
        written: Option<Exchange<()>>,
        step: Step<()>,
    ) -> bool {
        match read {
            None => step matches Step::Send(q) && q@ == plain_request(
                Method::Get,
                address(self.base_url@, "/files/"@, path),
                BodyView::Empty,
            ),
            Some(x) => match held(x) {
                None => step matches Step::Done(Err(e)) && settled(
                    x,
                    "read_file"@,
                    "Failed to read response: "@,
                    Err(e),
                ),
                Some(bytes) => match written {
                    None => step matches Step::Send(q) && q@ == plain_request(
                        Method::Put,
                        address(self.base_url@, "/files/"@, path),
                        BodyView::Bytes(spliced(bytes, offset, data)),
                    ),
                    Some(y) => step matches Step::Done(r) && acknowledged(y, "write_file"@, r),
                },
            },
        }
    }

    /// Writes `data` into the file at `offset` by reading the whole file,
    /// changing it, and writing it back. A file that does not exist counts as
    /// empty.
    fn write_file_chunk_fallback(
        &self,
        path: &str,
        offset: u64,
        data: &Vec<u8>,
        read: Option<Exchange<Vec<u8>>>,
        written: Option<Exchange<()>>,
    ) -> (step: Step<()>)
        requires
            !traverses(path@),
            data@.len() > 0,
            offset + data@.len() <= usize::MAX,
        ensures
            self.rewritten(path@, offset as int, data@, read, written, step),
            step matches Step::Send(q) ==> q.url@ == self.base_url@ + "/files/"@ + trim_start(path@, '/'),
            read is None ==> (step matches Step::Send(q) ==> q.method == Method::Get && q.body is Empty),
            read matches Some(Exchange::Answered { status, body: Ok(bytes) }) ==> (200 <= status && status
                <= 299 ==> (step matches Step::Send(q) ==> q.method == Method::Put && (q.body
                matches Body::Bytes(b) && b@.len() == (if bytes@.len() < offset + data@.len() {
                offset + data@.len()
            } else {
                bytes@.len() as int
            }) && (forall|i: int|
                offset <= i < offset + data@.len() ==> #[trigger] b@[i] == data@[i - offset]) && (forall|i: int|
                0 <= i < bytes@.len() && !(offset <= i < offset + data@.len()) ==> #[trigger] b@[i]
                    == bytes@[i])))),
    {
        match self.read_file(path, read) {
            Step::Send(q) => Step::Send(q),
            Step::Done(outcome) => {
                let mut contents: Vec<u8> = match outcome {
                    Ok(bytes) => bytes,
                    Err(e) => {
                        if e.errno == Errno::NoEnt {
                            Vec::new()
                        } else {
                            return Step::Done(Err(e));
                        }
                    },
                };
                splice(&mut contents, offset as usize, data);
                self.write_file(path, &contents, written)
            },
        }
    }

    /// Writes `data` into the file `path` at `offset`, trying again where that
    /// may help. `answer` is what came of attempt number `attempt`.
    pub fn write_file_chunk_async(
        &self,
        path: &str,
        offset: u64,
        data: &Vec<u8>,
        attempt: u32,
        answer: Option<Exchange<()>>,
    ) -> (step: RetryStep)
        ensures
            if traverses(path@) {
                step matches RetryStep::Done(r) && refused(r, "write_file_chunk_async"@)
            } else if data@.len() == 0 {
                step matches RetryStep::Done(Ok(_))
            } else if offset + data@.len() - 1 > u64::MAX {
                step matches RetryStep::Done(Err(e)) && e.is(
                    Errno::Io,
                    "write_file_chunk_async"@,
                    "Invalid range overflow"@,
                )
            } else {
                match answer {
                    None => step matches RetryStep::Send(q) && q@ == patch_request(
                        self.base_url@,
                        path@,
                        offset as nat,
                        data@,
                    ),
                    Some(x) => retried(x, attempt as nat, "write_file_chunk_async"@, step),
                }
            },
            (step matches RetryStep::Done(r) && r is Ok) && data@.len() > 0 ==> (answer matches Some(
                Exchange::Answered { status, .. },
            ) && 200 <= status <= 299),
            !traverses(path@) && data@.len() > 0 && offset + data@.len() - 1 <= u64::MAX && (
            answer matches Some(Exchange::Answered { status, .. }) && 200 <= status <= 299)
                ==> step matches RetryStep::Done(Ok(_)),
            step matches RetryStep::Wait { attempt: next, .. } ==> next == attempt + 1 && attempt < 4,
            step matches RetryStep::Send(q) ==> q.method == Method::Patch && (q.body matches Body::Bytes(b)
                && b@ == data@) && q.content_range is Some,
            step matches RetryStep::Send(q) ==> q.url@ == self.base_url@ + "/files/"@ + trim_start(path@, '/') && (
            q.content_range matches Some(c) && c@ == "bytes "@ + decimal(offset as nat) + "-"@ + decimal(
                (offset + data@.len() - 1) as nat,
            ) + "/*"@),
    {
        if let Err(e) = ApiClient::validate_path(path, "write_file_chunk_async") {
            return RetryStep::Done(Err(e));
        }
        if data.len() == 0 {
            return RetryStep::Done(Ok(()));
        }
        let end: u64 = match offset.checked_add(data.len() as u64 - 1) {
            Some(end) => end,
            None => {
                return RetryStep::Done(
                    Err(ApiError::io_error("write_file_chunk_async", "Invalid range overflow")),
                );
            },
        };
        match answer {
            None => RetryStep::Send(
                Request {
                    method: Method::Patch,
                    url: address_of(&self.base_url, "/files/", path),
                    content_range: Some(render_range(offset, end)),
                    content_type: None,
                    body: Body::Bytes(copy_of(data)),
                },
            ),
            Some(x) => {
                let ends = match x {
                    Exchange::Answered { status, .. } => is_success(status) || (is_client_error(
                        status,
                    ) && status != 429 && status != 408),
                    Exchange::Failed(_) => false,
                };
                if ends || attempt >= MAX_RETRIES {
                    RetryStep::Done(acknowledge(x, "write_file_chunk_async"))
                } else {
                    let next: u32 = attempt + 1;
                    let millis: u64 = if next == 1 {
                        1000
                    } else if next == 2 {
                        2000
                    } else if next == 3 {
                        4000
                    } else {
                        8000
                    };
                    assert(millis == delay(next as nat)) by {
                        reveal_with_fuel(delay, 5);
                    }
                    RetryStep::Wait { millis, attempt: next }
                }
            },
        }
    }

    /// Makes the directory `path`.
    pub fn create_directory(&self, path: &str, answer: Option<Exchange<()>>) -> (step: Step<()>)
        ensures
            if traverses(path@) {
                step matches Step::Done(r) && refused(r, "create_directory"@)
            } else {
                match answer {
                    None => step matches Step::Send(q) && q@ == plain_request(
                        Method::Post,
                        address(self.base_url@, "/mkdir/"@, path@),
                        BodyView::Empty,
                    ),
                    Some(x) => step matches Step::Done(r) && acknowledged(
                        x,
                        "create_directory"@,
                        r,
                    ),
                }
            },
            (step matches Step::Done(r) && r is Ok) <==> (!traverses(path@) && (answer matches Some(
                Exchange::Answered { status, .. },
            ) && 200 <= status <= 299)),
            (step matches Step::Done(Err(e)) && e.errno == Errno::NoEnt) <==> (!traverses(path@) && (
            answer matches Some(Exchange::Answered { status, .. }) && status == 404)),
            step is Send <==> !traverses(path@) && answer is None,
            step matches Step::Send(q) ==> q.method == Method::Post && q.body is Empty,
            step matches Step::Send(q) ==> q.url@ == self.base_url@ + "/mkdir/"@ + trim_start(path@, '/')
                && q.content_range is None && q.content_type is None,
    {
        if let Err(e) = ApiClient::validate_path(path, "create_directory") {
            return Step::Done(Err(e));
        }
        match answer {
            None => Step::Send(self.plain(Method::Post, "/mkdir/", path)),
            Some(x) => Step::Done(acknowledge(x, "create_directory")),
        }
    }

    /// Deletes the file or the empty directory `path`.
    pub fn delete(&self, path: &str, answer: Option<Exchange<()>>) -> (step: Step<()>)
        ensures
            if traverses(path@) {
                step matches Step::Done(r) && refused(r, "delete"@)
            } else {
                match answer {
                    None => step matches Step::Send(q) && q@ == plain_request(
                        Method::Delete,
                        address(self.base_url@, "/files/"@, path@),
                        BodyView::Empty,
                    ),
                    Some(x) => step matches Step::Done(r) && acknowledged(x, "delete"@, r),
                }
            },
            (step matches Step::Done(r) && r is Ok) <==> (!traverses(path@) && (answer matches Some(
                Exchange::Answered { status, .. },
            ) && 200 <= status <= 299)),
            (step matches Step::Done(Err(e)) && e.errno == Errno::NoEnt) <==> (!traverses(path@) && (
            answer matches Some(Exchange::Answered { status, .. }) && status == 404)),
            step is Send <==> !traverses(path@) && answer is None,
            (step matches Step::Done(Err(e)) && e.errno == Errno::NotEmpty) <==> (!traverses(path@) && (
            answer matches Some(Exchange::Answered { status, .. }) && status == 409)),
            (step matches Step::Done(Err(e)) && e.errno == Errno::Acces) <==> (!traverses(path@) && (
            answer matches Some(Exchange::Answered { status, .. }) && (status == 401 || status == 403))),
            step matches Step::Send(q) ==> q.method == Method::Delete && q.body is Empty,
            step matches Step::Send(q) ==> q.url@ == self.base_url@ + "/files/"@ + trim_start(path@, '/')
                && q.content_range is None && q.content_type is None,
    {
        if let Err(e) = ApiClient::validate_path(path, "delete") {
            return Step::Done(Err(e));
        }
        match answer {
            None => Step::Send(self.plain(Method::Delete, "/files/", path)),
            Some(x) => Step::Done(acknowledge(x, "delete")),
        }
    }

    /// Gives what stands at `from` the path `to`.
    pub fn rename(&self, from: &str, to: &str, answer: Option<Exchange<()>>) -> (step: Step<()>)
        ensures
            if traverses(from@) || traverses(to@) {
                step matches Step::Done(r) && refused(r, "rename"@)
            } else {
                match answer {
                    None => step matches Step::Send(q) && q@ == plain_request(
                        Method::Post,
                        self.base_url@ + "/rename"@,
                        BodyView::Rename { from: from@, to: to@ },
                    ),
                    Some(x) => step matches Step::Done(r) && acknowledged(x, "rename"@, r),
                }
            },
            (step matches Step::Done(r) && r is Ok) <==> (!traverses(from@) && !traverses(to@) && (answer matches Some(
                Exchange::Answered { status, .. },
            ) && 200 <= status <= 299)),
            (step matches Step::Done(Err(e)) && e.errno == Errno::NoEnt) <==> (!traverses(from@) && !traverses(to@) && (
            answer matches Some(Exchange::Answered { status, .. }) && status == 404)),
            step is Send <==> !traverses(from@) && !traverses(to@) && answer is None,
            step matches Step::Send(q) ==> q.method == Method::Post && (q.body matches Body::Rename { from: f, to: t } && f@ == from@ && t@ == to@),
            step matches Step::Send(q) ==> q.url@ == self.base_url@ + "/rename"@,
    {
        if let Err(e) = ApiClient::validate_path(from, "rename") {
            return Step::Done(Err(e));
        }
        if let Err(e) = ApiClient::validate_path(to, "rename") {
            return Step::Done(Err(e));
        }
        match answer {
            None => {
                let mut url = self.base_url.clone();
                url.append("/rename");
                Step::Send(
                    Request {
                        method: Method::Post,
                        url,
                        content_range: None,
                        content_type: None,
                        body: Body::Rename { from: owned(from), to: owned(to) },
                    },
                )
            },
            Some(x) => Step::Done(acknowledge(x, "rename")),
        }
    }

    /// Gives `path` the permission bits `mode`.
    pub fn set_attrs(&self, path: &str, mode: Option<u32>, answer: Option<Exchange<()>>) -> (step:
        Step<()>)
        ensures
            if traverses(path@) {
                step matches Step::Done(r) && refused(r, "set_attrs"@)
            } else {
                match answer {
                    None => step matches Step::Send(q) && q@ == plain_request(
                        Method::Patch,
                        address(self.base_url@, "/attrs/"@, path@),
                        BodyView::Mode(mode),
                    ),
                    Some(x) => step matches Step::Done(r) && acknowledged(x, "set_attrs"@, r),
                }
            },
            (step matches Step::Done(r) && r is Ok) <==> (!traverses(path@) && (answer matches Some(
                Exchange::Answered { status, .. },
            ) && 200 <= status <= 299)),
            (step matches Step::Done(Err(e)) && e.errno == Errno::NoEnt) <==> (!traverses(path@) && (
            answer matches Some(Exchange::Answered { status, .. }) && status == 404)),
            step is Send <==> !traverses(path@) && answer is None,
            step matches Step::Send(q) ==> q.method == Method::Patch && (q.body matches Body::Mode(m) && m == mode),
            step matches Step::Send(q) ==> q.url@ == self.base_url@ + "/attrs/"@ + trim_start(path@, '/')
                && q.content_range is None && q.content_type is None,
    {
        if let Err(e) = ApiClient::validate_path(path, "set_attrs") {
            return Step::Done(Err(e));
        }
        match answer {
            None => Step::Send(
                Request {
                    method: Method::Patch,
                    url: address_of(&self.base_url, "/attrs/", path),
                    content_range: None,
                    content_type: None,
                    body: Body::Mode(mode),
                },
            ),
            Some(x) => Step::Done(acknowledge(x, "set_attrs")),
        }
    }

    /// Asks whether the server is well.
    pub fn health_check(&self, answer: Option<Exchange<()>>) -> (step: Step<()>)
        ensures
            match answer {
                None => step matches Step::Send(q) && q@ == plain_request(
                    Method::Get,
                    self.base_url@ + "/health"@,
                    BodyView::Empty,
                ),
                Some(x) => step matches Step::Done(r) && acknowledged(x, "health_check"@, r),
            },
            (step matches Step::Done(r) && r is Ok) <==> (answer matches Some(
                Exchange::Answered { status, .. },
            ) && 200 <= status <= 299),
            step is Send <==> answer is None,
            step matches Step::Send(q) ==> q.method == Method::Get && q.body is Empty,
            step matches Step::Send(q) ==> q.url@ == self.base_url@ + "/health"@,
    {
        match answer {
            None => {
                let mut url = self.base_url.clone();
                url.append("/health");
                Step::Send(
                    Request { method: Method::Get, url, content_range: None, content_type: None, body: Body::Empty },
                )
            },
            Some(x) => Step::Done(acknowledge(x, "health_check")),
        }
    }
}

/// A write that is tried again ends with the fifth answer at the latest: each
/// step that waits raises the number of the attempt by one, and the answer to
/// the last attempt ends the write whatever it is.
pub proof fn law_retries_end(
    exchange: Exchange<()>,
    attempt: nat,
    operation: Seq<char>,
    step: RetryStep,
)
    requires
        retried(exchange, attempt, operation, step),
    ensures
        attempt >= MAX_RETRIES ==> step is Done,
        step matches RetryStep::Wait { attempt: next, .. } ==> next == attempt + 1 && next
            <= MAX_RETRIES,
{
}

/// An operation of whose answer only the status counts ends well if and only if
/// the server answered with a status from 200 to 299. Otherwise it ends with an
/// error that names the operation, and the condition tells what the server, or
/// the lack of an answer, said.
pub proof fn law_acknowledged(
    exchange: Exchange<()>,
    operation: Seq<char>,
    r: Result<(), ApiError>,
)
    requires
        acknowledged(exchange, operation, r),
    ensures
        r is Ok <==> (exchange matches Exchange::Answered { status, .. } && 200 <= status <= 299),
        r matches Err(e) ==> exists|words: Seq<char>|
            e.message@ == #[trigger] (operation + ": "@ + words),
        r matches Err(e) ==> {
            &&& exchange matches Exchange::Answered { status, .. } ==> {
                &&& e.errno == Errno::NoEnt <==> status == 404
                &&& e.errno == Errno::Acces <==> status == 401 || status == 403
                &&& e.errno == Errno::NotEmpty <==> status == 409 && operation == "delete"@
                &&& e.errno == Errno::Exist <==> status == 409 && operation != "delete"@
                &&& e.errno == Errno::NoSpc <==> status == 507
                &&& e.errno == Errno::TimedOut <==> status == 408 || status == 504
                &&& e.errno == Errno::Again <==> status == 429 || status == 502 || status == 503
            }
            &&& exchange matches Exchange::Failed(fault) ==> {
                &&& e.errno == Errno::TimedOut <==> fault is Timeout
                &&& e.errno == Errno::HostUnreach <==> fault is Connect
                &&& e.errno == Errno::Io <==> fault is Other
            }
        },
{
}

/// An operation whose answer carries a value ends well if and only if the server
/// answered with a status from 200 to 299 and the value could be read, and then
/// with just that value. It ends with a missing file if and only if the server
/// answered with 404.
pub proof fn law_settled<T>(
    exchange: Exchange<T>,
    operation: Seq<char>,
    complaint: Seq<char>,
    r: Result<T, ApiError>,
)
    requires
        settled(exchange, operation, complaint, r),
    ensures
        r is Ok <==> (exchange matches Exchange::Answered { status, body } && 200 <= status <= 299
            && body is Ok),
        r matches Ok(value) ==> (exchange matches Exchange::Answered { body: Ok(sent), .. } && value
            == sent),
        r matches Err(e) ==> (e.errno == Errno::NoEnt <==> (exchange matches Exchange::Answered {
            status,
            ..
        } && status == 404)),
        r matches Err(e) ==> exists|words: Seq<char>|
            e.message@ == #[trigger] (operation + ": "@ + words),
        r matches Err(e) ==> (exchange matches Exchange::Answered { status, body: Err(words) } ==> (
        200 <= status <= 299 ==> e.errno == Errno::Io && e.message@ == operation + ": "@ + (complaint
            + words@))),
{
}

/// A write that is tried again ends well if and only if the last answer was a
/// status from 200 to 299. A status from 400 to 499 other than 408 and 429 ends it
/// at once with its error; after any other failure it is tried again, up to four
/// times, and each time it waits twice as long as before, a second the first time.
pub proof fn law_retried(
    exchange: Exchange<()>,
    attempt: nat,
    operation: Seq<char>,
    step: RetryStep,
)
    requires
        retried(exchange, attempt, operation, step),
    ensures
        (step matches RetryStep::Done(r) && r is Ok) <==> (exchange matches Exchange::Answered {
            status,
            ..
        } && 200 <= status <= 299),
        (exchange matches Exchange::Answered { status, .. } && 400 <= status <= 499 && status != 408
            && status != 429) ==> step is Done,
        attempt < 4 && ((exchange is Failed) || (exchange matches Exchange::Answered { status, .. }
            && (status >= 500 || status == 408 || status == 429))) ==> step is Wait,
        step matches RetryStep::Wait { millis, .. } ==> attempt < 4 && millis >= 1000,
        attempt == 0 ==> (step matches RetryStep::Wait { millis, .. } ==> millis == 1000),
        step is Send ==> false,
{
    reveal_with_fuel(delay, 6);
}

/// Each wait is twice the one before.
pub proof fn law_delay_doubles(attempt: nat)
    ensures
        delay(1) == 1000,
        delay(attempt + 1) == delay(attempt) + delay(attempt),
        delay(attempt) > 0,
    decreases attempt,
{
    reveal_with_fuel(delay, 3);
    if attempt > 0 {
        law_delay_doubles((attempt - 1) as nat);
    }
}

/// A whole-file read tells what the file held: all that came, where it came, and
/// nothing where the file is missing; any other failure tells nothing.
pub proof fn law_held(read: Exchange<Vec<u8>>)
    ensures
        held(read) matches Some(bytes) ==> (read matches Exchange::Answered { status, body } && (
        status == 404 && bytes.len() == 0 || 200 <= status <= 299 && (body matches Ok(sent)
            && bytes.len() == sent@.len() && forall|i: int|
            0 <= i < sent@.len() ==> #[trigger] bytes[i] == sent@[i]))),
        (read matches Exchange::Answered { status, body } && (status == 404 || 200 <= status <= 299
            && body is Ok)) ==> held(read) is Some,
{
}

impl ApiClient {
    /// A write that goes by the whole file puts back what the file held, with the
    /// data at their place: every other byte stays, and a file that is too short
    /// is filled up with zeros. It ends well if and only if writing back did.
    pub proof fn law_rewritten(
        &self,
        path: Seq<char>,
        offset: nat,
        data: Seq<u8>,
        content: Seq<u8>,
        read: Exchange<Vec<u8>>,
        written: Option<Exchange<()>>,
        step: Step<()>,
    )
        requires
            data.len() > 0,
            held(read) == Some(content),
            self.rewritten(path, offset as int, data, Some(read), written, step),
        ensures
            written is None ==> (step matches Step::Send(q) && q.method == Method::Put && (
            q.body matches Body::Bytes(b) && b@.len() == (if content.len() > offset + data.len() {
                content.len()
            } else {
                offset + data.len()
            }) && (forall|i: int|
                0 <= i < data.len() ==> b@[offset + i] == #[trigger] data[i]) && (forall|i: int|
                0 <= i < content.len() && !(offset <= i < offset + data.len()) ==> b@[i]
                    == #[trigger] content[i]) && (forall|i: int|
                content.len() <= i < offset ==> #[trigger] b@[i] == 0))),
            written matches Some(x) ==> ((step matches Step::Done(r) && r is Ok) <==> (
            x matches Exchange::Answered { status, .. } && 200 <= status <= 299)),
    {
        if written is None {
            if let Step::Send(q) = step {
                assert(q@.body == BodyView::Bytes(spliced(content, offset as int, data)));
                if let Body::Bytes(b) = q.body {
                    assert(b@ == spliced(content, offset as int, data));
                    assert forall|i: int| 0 <= i < data.len() implies b@[offset + i]
                        == #[trigger] data[i] by {
                    }
                }
            }
        }
    }
}

/// Whether a path goes up is decided piece by piece: a path of two parts goes up
/// if and only if one of them does, and a single piece if and only if it is `..`.
pub proof fn law_traverses(a: Seq<char>, b: Seq<char>, piece: Seq<char>)
    requires
        !piece.contains('/'),
    ensures
        traverses(a.push('/') + b) <==> traverses(a) || traverses(b),
        traverses(piece) <==> piece == ".."@,
{
    let x = split(a, '/');
    let y = split(b, '/');
    lemma_split_at(a, b, '/');
    lemma_split_single(piece, '/');
    if traverses(a.push('/') + b) {
        let k = choose|k: int| 0 <= k < (x + y).len() && (x + y)[k] == ".."@;
        if k < x.len() {
            assert(x[k] == ".."@);
        } else {
            assert(y[k - x.len()] == ".."@);
        }
    }
    if traverses(a) {
        let k = choose|k: int| 0 <= k < x.len() && x[k] == ".."@;
        assert((x + y)[k] == ".."@);
    }
    if traverses(b) {
        let k = choose|k: int| 0 <= k < y.len() && y[k] == ".."@;
        assert((x + y)[x.len() + k] == ".."@);
    }
    if piece == ".."@ {
        assert(split(piece, '/')[0] == ".."@);
    }
}

/// A path has the same address with and without a slash before it, and different
/// paths have different addresses.
pub proof fn law_address(base: Seq<char>, route: Seq<char>, p: Seq<char>, q: Seq<char>)
    ensures
        address(base, route, seq!['/'] + p) == address(base, route, p),
        address(base, route, p) == address(base, route, q) <==> trim_start(p, '/') == trim_start(
            q,
            '/',
        ),
        p.len() > 0 && p[0] != '/' ==> address(base, route, p) == base + route + p,
{
    assert((seq!['/'] + p).drop_first() =~= p);
    let head = base + route;
    let x = trim_start(p, '/');
    let y = trim_start(q, '/');
    if head + x == head + y {
        assert((head + x).skip(head.len() as int) =~= x);
        assert((head + y).skip(head.len() as int) =~= y);
    }
}

} // verus!
