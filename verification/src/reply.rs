//! What a server's handlers see of the file system, and what they answer.

use vstd::prelude::*;
use vstd::string::*;

use crate::paths::{get_safe_path, safe_path};
use crate::text::owned;

verus! {

/// Why an operation on the file system failed, as far as it matters.
#[derive(Debug, Clone, Copy, PartialEq, Eq, Structural)]
pub enum FsErrorKind {
    NotFound,
    AlreadyExists,
    PermissionDenied,
    DirectoryNotEmpty,
    Other,
}

/// What the file system says of the places that a request's path runs through:
/// the real place of the served directory and that of the directory that the
/// path lies in, where they can be found.
#[derive(Debug)]
pub struct Place {
    pub base_abs: Option<String>,
    pub parent_abs: Option<String>,
}

/// What stands at a path.
#[derive(Debug, Clone, Copy, PartialEq, Eq, Structural)]
pub struct Probe {
    pub exists: bool,
    pub is_dir: bool,
}

/// The answer to an operation that has nothing else to give back.
#[derive(Debug)]
pub struct ApiResponse {
    pub success: bool,
    pub message: Option<String>,
    pub bytes_written: Option<usize>,
}

/// An entry of a listing. The times are the bit patterns of floating-point
/// seconds.
#[derive(Debug)]
pub struct DirEntry {
    pub name: String,
    pub is_dir: bool,
    pub size: u64,
    pub mtime: u64,
    pub ctime: u64,
    pub mode: u32,
}

/// A listing.
#[derive(Debug)]
pub struct ListResponse {
    pub entries: Vec<DirEntry>,
}

/// What an answer carries.
#[derive(Debug)]
pub enum Content {
    /// Nothing.
    Nothing,
    /// A JSON string.
    Words(String),
    /// The cause of a failure, in its own words.
    Cause,
    /// The JSON form of an outcome.
    Outcome(ApiResponse),
    /// The JSON form of a listing.
    Listing(ListResponse),
    /// Bytes.
    Octets(Vec<u8>),
    /// The file, from its beginning to its end.
    WholeFile,
    /// Headers alone: the length of the file and the date of its last change.
    Head { length: u64, modified: String },
}

/// An answer.
#[derive(Debug)]
pub struct Response {
    pub status: u16,
    /// The value of the `Content-Range` header, where there is one.
    pub content_range: Option<String>,
    pub content: Content,
}

/// Something that has to be done with the file system.
#[derive(Debug)]
pub enum Deed {
    /// Say what stands at the path.
    Look,
    /// Read the directory.
    List,
    /// Read the metadata.
    Stat,
    /// Make the directories above the path.
    MakeParents,
    /// Make the directory, and those above it.
    MakeDirs,
    /// Make the file, or empty it.
    Create,
    /// Open the file for reading, and say how long it is.
    OpenRead,
    /// Open the file for reading and writing, making it where it is missing, and
    /// say how long it is.
    OpenWrite,
    /// Make the open file so many bytes long.
    Extend(u64),
    /// Go to this position of the open file.
    Seek(u64),
    /// Read so many bytes of the open file from this position on.
    ReadAt { start: u64, len: u64 },
    /// Write what the request carries into the open file.
    Receive,
    /// Remove the empty directory.
    RemoveDir,
    /// Remove the file.
    RemoveFile,
    /// Give what stands at the path this other path.
    RenameTo(String),
    /// Set the permission bits.
    SetMode(u32),
}

/// What a handler wants next.
#[derive(Debug)]
pub enum Next {
    /// This has to be done at this path.
    Do { path: String, deed: Deed },
    /// This is the answer.
    Reply(Response),
}

/// The path that a request may use.
pub open spec fn located(
    root: Seq<char>,
    path: Seq<char>,
    place: Place,
    windows: bool,
) -> Option<Seq<char>> {
    safe_path(
        root,
        path,
        match place.base_abs {
            Some(s) => Some(s@),
            None => None,
        },
        match place.parent_abs {
            Some(s) => Some(s@),
            None => None,
        },
        windows,
    )
}

/// The path that a request may use.
pub fn locate(root: &str, path: &str, place: &Place, windows: bool) -> (r: Option<String>)
    ensures
        match r {
            Some(p) => located(root@, path@, *place, windows) == Some(p@),
            None => located(root@, path@, *place, windows) is None,
        },
        path@.len() == 0 || (path@.len() == 1 && path@[0] == '/') ==> (r matches Some(p) && p@ == root@),
        !(path@.len() == 0 || (path@.len() == 1 && path@[0] == '/')) && place.base_abs is None ==> r is None,
        !(path@.len() == 0 || (path@.len() == 1 && path@[0] == '/')) && crate::native::names(
            crate::paths::unrooted(path@),
            windows,
        ).contains(".."@) ==> r is None,
{
    let base = match &place.base_abs {
        Some(s) => Some(s.as_str()),
        None => None,
    };
    let parent = match &place.parent_abs {
        Some(s) => Some(s.as_str()),
        None => None,
    };
    get_safe_path(root, path, base, parent, windows)
}

/// The answer is a JSON string.
pub open spec fn words(r: Response, status: u16, text: Seq<char>) -> bool {
    &&& r.status == status
    &&& r.content_range is None
    &&& r.content matches Content::Words(w)
    &&& w@ == text
}

/// The answer carries nothing.
pub open spec fn bare(r: Response, status: u16) -> bool {
    r.status == status && r.content_range is None && r.content is Nothing
}

/// The answer is a failure in the words of its cause.
pub open spec fn cause(r: Response, status: u16) -> bool {
    r.status == status && r.content_range is None && r.content is Cause
}

/// The answer tells of success, and of the number of bytes written.
pub open spec fn outcome(r: Response, bytes_written: Option<usize>) -> bool {
    &&& r.status == 200
    &&& r.content_range is None
    &&& r.content matches Content::Outcome(a)
    &&& a.success
    &&& a.message is None
    &&& a.bytes_written == bytes_written
}

/// The handler answers with a JSON string.
pub open spec fn says(next: Next, status: u16, text: Seq<char>) -> bool {
    next matches Next::Reply(r) && words(r, status, text)
}

/// The handler tells of success.
pub open spec fn succeeds(next: Next, bytes_written: Option<usize>) -> bool {
    next matches Next::Reply(r) && outcome(r, bytes_written)
}

/// The handler wants `deed` done at `path`.
pub open spec fn does(next: Next, path: Seq<char>, deed: Deed) -> bool {
    next matches Next::Do { path: p, deed: d } && p@ == path && d == deed
}

/// The status for a failure of the file system.
pub open spec fn fs_status(kind: FsErrorKind) -> u16 {
    match kind {
        FsErrorKind::NotFound => 404,
        FsErrorKind::AlreadyExists => 409,
        FsErrorKind::PermissionDenied => 403,
        FsErrorKind::DirectoryNotEmpty => 409,
        FsErrorKind::Other => 500,
    }
}

/// An answer that is a JSON string.
pub fn words_reply(status: u16, text: &str) -> (r: Response)
    ensures
        words(r, status, text@),
        r.status == status,
        r.content matches Content::Words(w) && w@ == text@,
{
    Response { status, content_range: None, content: Content::Words(owned(text)) }
}

/// An answer that carries nothing.
pub fn bare_reply(status: u16) -> (r: Response)
    ensures
        bare(r, status),
        r.status == status && r.content is Nothing,
{
    Response { status, content_range: None, content: Content::Nothing }
}

/// An answer in the words of a failure's cause.
pub fn cause_reply(status: u16) -> (r: Response)
    ensures
        cause(r, status),
        r.status == status && r.content is Cause,
{
    Response { status, content_range: None, content: Content::Cause }
}

/// An answer that tells of success.
pub fn outcome_reply(bytes_written: Option<usize>) -> (r: Response)
    ensures
        outcome(r, bytes_written),
        r.status == 200,
        r.content matches Content::Outcome(a) && a.success && a.bytes_written == bytes_written,
{
    Response {
        status: 200,
        content_range: None,
        content: Content::Outcome(ApiResponse { success: true, message: None, bytes_written }),
    }
}

/// The answer to a failure of the file system.
pub fn fs_error_json(kind: FsErrorKind, message: &str) -> (r: Response)
    ensures
        words(r, fs_status(kind), message@),
        r.status == 404 <==> kind == FsErrorKind::NotFound,
        r.status == 403 <==> kind == FsErrorKind::PermissionDenied,
        r.status == 409 <==> kind == FsErrorKind::AlreadyExists || kind == FsErrorKind::DirectoryNotEmpty,
        r.status == 500 <==> kind == FsErrorKind::Other,
        r.content matches Content::Words(w) && w@ == message@,
{
    let status: u16 = match kind {
        FsErrorKind::NotFound => 404,
        FsErrorKind::AlreadyExists => 409,
        FsErrorKind::PermissionDenied => 403,
        FsErrorKind::DirectoryNotEmpty => 409,
        FsErrorKind::Other => 500,
    };
    words_reply(status, message)
}

/// Which failures of the file system have which status: a missing file 404, a
/// lack of permission 403, a conflict with what is there 409, and anything else
/// 500. None of them tells of success.
pub proof fn law_fs_status(kind: FsErrorKind)
    ensures
        fs_status(kind) == 404 <==> kind == FsErrorKind::NotFound,
        fs_status(kind) == 403 <==> kind == FsErrorKind::PermissionDenied,
        fs_status(kind) == 409 <==> kind == FsErrorKind::AlreadyExists || kind
            == FsErrorKind::DirectoryNotEmpty,
        fs_status(kind) == 500 <==> kind == FsErrorKind::Other,
        fs_status(kind) >= 400,
{
}

/// What the answers are made of: their status is the one that was meant, words are
/// the words that were meant, and an answer that tells of success has the status
/// 200 and tells how many bytes were written.
pub proof fn law_answers(next: Next, status: u16, text: Seq<char>, n: Option<usize>)
    ensures
        says(next, status, text) ==> (next matches Next::Reply(r) && r.status == status && (
        r.content matches Content::Words(w) && w@ == text)),
        succeeds(next, n) ==> (next matches Next::Reply(r) && r.status == 200 && (
        r.content matches Content::Outcome(a) && a.success && a.bytes_written == n)),
        next matches Next::Reply(r) ==> (bare(r, status) || cause(r, status) ==> r.status == status
            && r.content_range is None && !(r.content is Octets) && !(r.content is Outcome)),
{
}

/// What is to be done is done at the path that was meant, and at no other.
pub proof fn law_does(next: Next, path: Seq<char>, deed: Deed)
    requires
        does(next, path, deed),
    ensures
        next matches Next::Do { path: p, deed: d } && p@.len() == path.len() && (forall|i: int|
            0 <= i < path.len() ==> #[trigger] p@[i] == path[i]) && d == deed,
{
}

/// Whatever the file system says, a request whose path goes up, or that lies in a
/// directory outside the served one, gets no place; the empty path and a single
/// slash get the served directory, and any other place is the one its names give
/// below that directory.
pub proof fn law_located(root: Seq<char>, path: Seq<char>, place: Place, windows: bool)
    ensures
        ({
            let r = located(root, path, place, windows);
            let whole = path.len() == 0 || (path.len() == 1 && path[0] == '/');
            let rest = crate::paths::unrooted(path);
            &&& whole ==> r == Some(root)
            &&& !whole && crate::native::names(rest, windows).contains(".."@) ==> r is None
            &&& !whole && place.base_abs is None ==> r is None
            &&& !whole ==> (place.base_abs matches Some(b) ==> (place.parent_abs matches Some(p)
                ==> (!crate::native::under(p@, b@, windows) ==> r is None)))
            &&& !whole ==> (r matches Some(full) ==> full == crate::paths::resolved_path(
                root,
                rest,
                windows,
            ))
        }),
{
}

} // verus!
